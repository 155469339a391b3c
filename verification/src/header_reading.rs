//! Reading the headers of a volume: what a reader needs to open an archive is in them.
use crate::bytes::{le_bytes, le_bytes_len, zeros};
use crate::codec::{ArchiveCodec, HmacDomain, TagContext, WireLayout};
use crate::emit::begun;
use crate::format::{AeadAlgo, CRYPTO_EXTENSION_HEADER_LEN, CRYPTO_HEADER_HMAC_LEN};
use crate::headers::{crypto_header_outcome, kdf_outcome};
use crate::keys::{KdfValue, Subkeys};
use crate::options::WriterOptions;
use crate::wire::{CryptoHeaderFixed, Record, VolumeHeader};
use vstd::arithmetic::power::pow;
use vstd::prelude::*;

verus! {

// ---------------------------------------------------------------------------------------------
// Numbers
// ---------------------------------------------------------------------------------------------

/// The number that bytes stand for, lowest first.
pub open spec fn le_value(bytes: Seq<u8>) -> int
    decreases bytes.len(),
{
    if bytes.len() == 0 {
        0
    } else {
        bytes[0] + 256 * le_value(bytes.skip(1))
    }
}

/// A number that is written in as many bytes as it takes reads back.
pub proof fn le_bytes_read_back(value: int, n: nat)
    requires
        0 <= value < pow(256, n),
    ensures
        le_bytes(value, n).len() == n,
        le_value(le_bytes(value, n)) == value,
    decreases n,
{
    le_bytes_len(value, n);
    reveal(pow);
    if n > 0 {
        let m = (n - 1) as nat;
        vstd::arithmetic::div_mod::lemma_fundamental_div_mod(value, 256);
        assert(0 <= value / 256 < pow(256, m)) by {
            assert(value < 256 * pow(256, m));
        }
        le_bytes_read_back(value / 256, m);
        assert(le_bytes(value, n).skip(1) =~= le_bytes(value / 256, m));
    }
}

proof fn short_numbers_read_back(value: int)
    requires
        0 <= value,
    ensures
        value <= u16::MAX ==> le_bytes(value, 2).len() == 2 && le_value(le_bytes(value, 2)) == value,
        value <= u32::MAX ==> le_bytes(value, 4).len() == 4 && le_value(le_bytes(value, 4)) == value,
{
    reveal_with_fuel(pow, 5);
    if value <= u16::MAX {
        le_bytes_read_back(value, 2);
    }
    if value <= u32::MAX {
        le_bytes_read_back(value, 4);
    }
}

// ---------------------------------------------------------------------------------------------
// Key-derivation parameters
// ---------------------------------------------------------------------------------------------

/// Whether a reader can tell the key-derivation schemes apart.
pub open spec fn schemes_differ(layout: WireLayout) -> bool {
    &&& layout.kdf_no_key != layout.kdf_raw
    &&& layout.kdf_no_key != layout.kdf_argon2id
    &&& layout.kdf_no_key != layout.kdf_recipient_wrap
    &&& layout.kdf_raw != layout.kdf_argon2id
    &&& layout.kdf_raw != layout.kdf_recipient_wrap
    &&& layout.kdf_argon2id != layout.kdf_recipient_wrap
}

/// The parameters that bytes begin with.
pub open spec fn read_kdf(layout: WireLayout, bytes: Seq<u8>) -> KdfValue {
    let code = le_value(bytes.subrange(0, 2));
    if code == layout.kdf_argon2id {
        KdfValue::Argon2id {
            t_cost: le_value(bytes.subrange(2, 6)) as u32,
            m_cost_kib: le_value(bytes.subrange(6, 10)) as u32,
            parallelism: le_value(bytes.subrange(10, 14)) as u32,
            salt: bytes.subrange(16, 16 + le_value(bytes.subrange(14, 16))),
        }
    } else if code == layout.kdf_recipient_wrap {
        KdfValue::RecipientWrap {
            key_wrap_table_length: le_value(bytes.subrange(2, 6)) as u32,
            key_wrap_table_record_count: le_value(bytes.subrange(6, 10)) as u32,
            key_wrap_table_version: le_value(bytes.subrange(10, 12)) as u16,
            key_wrap_table_digest: choose|digest: [u8; 32]| digest@ == bytes.subrange(14, 46),
        }
    } else if code == layout.kdf_raw {
        KdfValue::Raw
    } else {
        KdfValue::NoKey
    }
}

/// Accepted parameters read back, whatever stands behind them.
pub proof fn kdf_parameters_read_back(layout: WireLayout, kdf: KdfValue, rest: Seq<u8>)
    requires
        schemes_differ(layout),
    ensures
        kdf_outcome(layout, kdf) matches Ok(bytes) ==> read_kdf(layout, bytes + rest) == kdf,
{
    if let Ok(bytes) = kdf_outcome(layout, kdf) {
        let all = bytes + rest;
        let code = layout.spec_kdf_code(kdf.algo()) as int;
        short_numbers_read_back(code);
        assert(all.subrange(0, 2) =~= le_bytes(code, 2));
        match kdf {
            KdfValue::Argon2id { t_cost, m_cost_kib, parallelism, salt } => {
                short_numbers_read_back(t_cost as int);
                short_numbers_read_back(m_cost_kib as int);
                short_numbers_read_back(parallelism as int);
                short_numbers_read_back(salt.len() as int);
                assert(all.subrange(2, 6) =~= le_bytes(t_cost as int, 4));
                assert(all.subrange(6, 10) =~= le_bytes(m_cost_kib as int, 4));
                assert(all.subrange(10, 14) =~= le_bytes(parallelism as int, 4));
                assert(all.subrange(14, 16) =~= le_bytes(salt.len() as int, 2));
                assert(all.subrange(16, 16 + salt.len() as int) =~= salt);
            },
            KdfValue::RecipientWrap {
                key_wrap_table_length,
                key_wrap_table_record_count,
                key_wrap_table_version,
                key_wrap_table_digest,
            } => {
                short_numbers_read_back(key_wrap_table_length as int);
                short_numbers_read_back(key_wrap_table_record_count as int);
                short_numbers_read_back(key_wrap_table_version as int);
                short_numbers_read_back(0);
                assert(all.subrange(2, 6) =~= le_bytes(key_wrap_table_length as int, 4));
                assert(all.subrange(6, 10) =~= le_bytes(key_wrap_table_record_count as int, 4));
                assert(all.subrange(10, 12) =~= le_bytes(key_wrap_table_version as int, 2));
                assert(all.subrange(14, 46) =~= key_wrap_table_digest@);
                let digest = choose|digest: [u8; 32]| digest@ == all.subrange(14, 46);
                assert(digest =~= key_wrap_table_digest);
            },
            _ => {},
        }
    }
}

/// Different parameters are written differently: parameters that are written alike are the same.
pub proof fn kdf_parameters_are_told_apart(layout: WireLayout, a: KdfValue, b: KdfValue)
    requires
        schemes_differ(layout),
        kdf_outcome(layout, a) is Ok,
        kdf_outcome(layout, a) == kdf_outcome(layout, b),
    ensures
        a == b,
{
    kdf_parameters_read_back(layout, a, Seq::empty());
    kdf_parameters_read_back(layout, b, Seq::empty());
}

// ---------------------------------------------------------------------------------------------
// The crypto header
// ---------------------------------------------------------------------------------------------

/// Whether the fixed part of a crypto header tells of a request.
pub open spec fn tells_of_the_request(
    fixed: CryptoHeaderFixed,
    o: WriterOptions,
    has_dictionary: bool,
) -> bool {
    &&& fixed.aead_algo == o.aead_algo
    &&& fixed.chunk_size == o.chunk_size
    &&& fixed.envelope_target_size == o.envelope_target_size
    &&& fixed.block_size == o.block_size
    &&& fixed.fec_data_shards == o.fec_data_shards
    &&& fixed.fec_parity_shards == o.fec_parity_shards
    &&& fixed.index_fec_data_shards == o.index_fec_data_shards
    &&& fixed.index_fec_parity_shards == o.index_fec_parity_shards
    &&& fixed.index_root_fec_data_shards == o.index_root_fec_data_shards
    &&& fixed.index_root_fec_parity_shards == o.index_root_fec_parity_shards
    &&& fixed.stripe_width == o.stripe_width
    &&& fixed.volume_loss_tolerance == o.volume_loss_tolerance
    &&& fixed.bit_rot_buffer_pct == o.bit_rot_buffer_pct
    &&& fixed.has_dictionary == 1 <==> has_dictionary
    &&& fixed.has_dictionary <= 1
    &&& fixed.max_path_length == o.max_path_length
    &&& o.target_volume_size matches Some(size) ==> fixed.expected_volume_size == size
    &&& o.target_volume_size is None ==> fixed.expected_volume_size == 0
}

/// A crypto header is read: it begins with the fixed record, which tells of the request, of the scheme
/// and of the length of the header; then come the key-derivation parameters, as they were given, and
/// an empty extension; and it ends with the tag that a reader with the keys computes over all that is
/// in front of it. Where something is sealed there is a key, and where nothing is there is none.
pub proof fn crypto_headers_read_back<C: ArchiveCodec>(
    codec: &C,
    o: WriterOptions,
    volume_format_rev: u16,
    has_dictionary: bool,
    subkeys: Subkeys,
    archive_uuid: [u8; 16],
    session_id: [u8; 16],
    kdf: KdfValue,
)
    requires
        schemes_differ(codec.spec_layout()),
        crate::accounting::keeps_its_layout(codec),
    ensures
        crypto_header_outcome(
            codec,
            o,
            volume_format_rev,
            has_dictionary,
            subkeys,
            archive_uuid,
            session_id,
            kdf,
        ) matches Ok(header) ==> {
            let layout = codec.spec_layout();
            let head = layout.crypto_header_fixed as int;
            let end = header.bytes.len() - CRYPTO_HEADER_HMAC_LEN;
            let context = TagContext {
                domain: HmacDomain::CryptoHeader,
                aead_algo: o.aead_algo,
                volume_format_rev,
                mac_key: subkeys.mac_key,
                archive_uuid,
                session_id,
            };
            &&& header.bytes.len() == header.fixed.length
            &&& head <= end - CRYPTO_EXTENSION_HEADER_LEN
            &&& header.bytes.take(head) == codec.encoded(Record::CryptoHeaderFixed(header.fixed))
            &&& tells_of_the_request(header.fixed, o, has_dictionary)
            &&& header.fixed.kdf_algo == kdf.algo()
            &&& o.aead_algo == AeadAlgo::Unsealed <==> kdf is NoKey
            &&& read_kdf(layout, header.bytes.skip(head)) == kdf
            &&& header.bytes.subrange(end - CRYPTO_EXTENSION_HEADER_LEN, end) == zeros(
                CRYPTO_EXTENSION_HEADER_LEN as int,
            )
            &&& codec.tag(context, header.bytes.take(end)) matches Ok(tag)
            &&& tag@ == header.bytes.skip(end)
            &&& header.covered == header.bytes.take(end)
        },
{
    if let Ok(header) = crypto_header_outcome(
        codec,
        o,
        volume_format_rev,
        has_dictionary,
        subkeys,
        archive_uuid,
        session_id,
        kdf,
    ) {
        let layout = codec.spec_layout();
        let payload = kdf_outcome(layout, kdf)->Ok_0;
        let fixed = codec.encoded(Record::CryptoHeaderFixed(header.fixed));
        let extension = zeros(CRYPTO_EXTENSION_HEADER_LEN as int);
        let context = TagContext {
            domain: HmacDomain::CryptoHeader,
            aead_algo: o.aead_algo,
            volume_format_rev,
            mac_key: subkeys.mac_key,
            archive_uuid,
            session_id,
        };
        let tag = codec.tag(context, header.covered)->Ok_0;
        let head = fixed.len() as int;
        let end = header.covered.len() as int;
        crate::headers::kdf_bytes_len(layout, kdf);
        assert(header.bytes == fixed + payload + extension + tag@);
        assert(header.bytes.take(head) =~= fixed);
        assert(header.bytes.skip(head) =~= payload + (extension + tag@));
        kdf_parameters_read_back(layout, kdf, extension + tag@);
        assert(header.bytes.take(end) =~= header.covered);
        assert(header.bytes.skip(end) =~= tag@);
        assert(header.bytes.subrange(end - extension.len(), end) =~= extension);
    }
}

// ---------------------------------------------------------------------------------------------
// The start of a volume
// ---------------------------------------------------------------------------------------------

/// Every volume of an archive begins with a header that tells which volume of which archive it is, how
/// many there are and where the crypto header lies; the crypto header lies there, and the key-wrap
/// table, if there is one, right behind it.
pub proof fn volumes_begin_with_their_headers<C: ArchiveCodec>(
    codec: &C,
    stripe_width: u32,
    crypto_header: Seq<u8>,
    key_wrap_table: Option<Seq<u8>>,
    archive_uuid: [u8; 16],
    session_id: [u8; 16],
    rev: u16,
    collect: bool,
    v: int,
)
    requires
        crate::accounting::keeps_its_layout(codec),
        0 <= v < stripe_width,
    ensures
        begun(
            codec,
            stripe_width,
            crypto_header,
            key_wrap_table,
            archive_uuid,
            session_id,
            rev,
            collect,
        ) matches Ok(start) ==> exists|h: VolumeHeader|
            {
                let volume = start.volumes[v];
                let head = #[trigger] codec.encoded(Record::VolumeHeader(h));
                let at = h.crypto_header_offset as int;
                let end = at + h.crypto_header_length;
                &&& h.volume_index == v
                &&& h.stripe_width == stripe_width
                &&& h.archive_uuid == archive_uuid
                &&& h.session_id == session_id
                &&& h.volume_format_rev == rev
                &&& h.format_version == codec.spec_layout().format_version
                &&& volume.take(at) == head
                &&& volume.subrange(at, end) == crypto_header
                &&& match key_wrap_table {
                    Some(table) => volume.skip(end) == table,
                    None => volume.len() == end,
                }
                &&& start.bytes_written[v] == volume.len()
                &&& start.record_counts[v] == 0
            },
{
    if let Ok(start) = begun(
        codec,
        stripe_width,
        crypto_header,
        key_wrap_table,
        archive_uuid,
        session_id,
        rev,
        collect,
    ) {
        let layout = codec.spec_layout();
        let h = crate::emit::volume_header(
            layout,
            stripe_width,
            crypto_header.len() as int,
            archive_uuid,
            session_id,
            rev,
            v,
        );
        let head = codec.encoded(Record::VolumeHeader(h));
        let volume = start.volumes[v];
        let at = head.len() as int;
        let end = at + crypto_header.len();
        assert(volume.take(at) =~= head);
        assert(volume.subrange(at, end) =~= crypto_header);
        if let Some(table) = key_wrap_table {
            assert(volume.skip(end) =~= table);
        }
    }
}

} // verus!
