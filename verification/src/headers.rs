//! The records at the edges of a volume: crypto header, manifest footer, trailer, and the
//! bootstrap sidecar.
use crate::arith::{checked_u64_add, checked_usize_add, u32_len};
use crate::bytes::{append, append_le, append_zeros, le_bytes, le_bytes_len, to_bytes, zeros};
use crate::codec::{
    ArchiveCodec, HmacDomain, MANIFEST_FOOTER_COVERED, SIDECAR_HEADER_COVERED, TagContext,
    VOLUME_TRAILER_COVERED, WireLayout,
};
use crate::errors::{bytes_agree, FormatError};
use crate::format::{
    AeadAlgo, CRYPTO_EXTENSION_HEADER_LEN, CRYPTO_HEADER_HMAC_LEN, CompressionAlgo, FecAlgo,
    KdfAlgo,
};
use crate::keys::{KdfParams, KdfValue, NO_KEY, Subkeys};
use crate::object_plan::ObjectExtent;
use crate::options::WriterOptions;
use crate::seal::block_values;
use crate::wire::{
    BlockRecord, BlockValue, BootstrapSidecarHeader, CryptoHeaderFixed, ManifestFooter, Record,
    VolumeTrailer,
};
use vstd::prelude::*;

verus! {

// ---------------------------------------------------------------------------------------------
// Key-derivation parameters
// ---------------------------------------------------------------------------------------------

/// Why key-derivation parameters are refused.
pub open spec fn kdf_refusal(kdf: KdfValue) -> Option<&'static str> {
    match kdf {
        KdfValue::Argon2id { t_cost, m_cost_kib, parallelism, salt } => if t_cost == 0 {
            Some("t_cost must be non-zero")
        } else if parallelism == 0 {
            Some("parallelism must be non-zero")
        } else if parallelism * 8 > u32::MAX {
            Some("m_cost_kib requirement overflow")
        } else if m_cost_kib < parallelism * 8 {
            Some("m_cost_kib must be at least 8 * parallelism")
        } else if !(8 <= salt.len() <= 64) {
            Some("argon2id salt length must be 8..64")
        } else {
            None
        },
        _ => None,
    }
}

/// Key-derivation parameters as they are written.
pub open spec fn kdf_bytes(layout: WireLayout, kdf: KdfValue) -> Seq<u8> {
    let code = le_bytes(layout.spec_kdf_code(kdf.algo()) as int, 2);
    match kdf {
        KdfValue::NoKey => code,
        KdfValue::Raw => code,
        KdfValue::Argon2id { t_cost, m_cost_kib, parallelism, salt } => code + le_bytes(
            t_cost as int,
            4,
        ) + le_bytes(m_cost_kib as int, 4) + le_bytes(parallelism as int, 4) + le_bytes(
            salt.len() as int,
            2,
        ) + salt,
        KdfValue::RecipientWrap {
            key_wrap_table_length,
            key_wrap_table_record_count,
            key_wrap_table_version,
            key_wrap_table_digest,
        } => code + le_bytes(key_wrap_table_length as int, 4) + le_bytes(
            key_wrap_table_record_count as int,
            4,
        ) + le_bytes(key_wrap_table_version as int, 2) + le_bytes(0, 2)
            + key_wrap_table_digest@,
    }
}

/// Accepted parameters take at most this many bytes.
pub const MAX_KDF_PAYLOAD_LEN: usize = 80;

pub(crate) proof fn kdf_bytes_len(layout: WireLayout, kdf: KdfValue)
    requires
        kdf_refusal(kdf) is None,
    ensures
        kdf_bytes(layout, kdf).len() <= MAX_KDF_PAYLOAD_LEN,
{
    le_bytes_len(layout.spec_kdf_code(kdf.algo()) as int, 2);
    match kdf {
        KdfValue::Argon2id { t_cost, m_cost_kib, parallelism, salt } => {
            le_bytes_len(t_cost as int, 4);
            le_bytes_len(m_cost_kib as int, 4);
            le_bytes_len(parallelism as int, 4);
            le_bytes_len(salt.len() as int, 2);
        },
        KdfValue::RecipientWrap {
            key_wrap_table_length,
            key_wrap_table_record_count,
            key_wrap_table_version,
            key_wrap_table_digest,
        } => {
            le_bytes_len(key_wrap_table_length as int, 4);
            le_bytes_len(key_wrap_table_record_count as int, 4);
            le_bytes_len(key_wrap_table_version as int, 2);
            le_bytes_len(0, 2);
        },
        _ => {},
    }
}

pub open spec fn kdf_outcome(layout: WireLayout, kdf: KdfValue) -> Result<Seq<u8>, FormatError> {
    match kdf_refusal(kdf) {
        Some(reason) => Err(FormatError::InvalidKdfParams(reason)),
        None => Ok(kdf_bytes(layout, kdf)),
    }
}

pub fn serialize_kdf_params(params: &KdfParams, layout: &WireLayout) -> (r: Result<
    Vec<u8>,
    FormatError,
>)
    ensures
        bytes_agree(r, kdf_outcome(*layout, params@)),
        r matches Ok(bytes) ==> bytes@.len() <= MAX_KDF_PAYLOAD_LEN,
{
    let mut bytes: Vec<u8> = Vec::new();
    append_le(&mut bytes, layout.kdf_code(params.algo()) as u64, 2);
    match params {
        KdfParams::NoKey => {},
        KdfParams::Raw => {},
        KdfParams::Argon2id { t_cost, m_cost_kib, parallelism, salt } => {
            if *t_cost == 0 {
                return Err(FormatError::InvalidKdfParams("t_cost must be non-zero"));
            }
            if *parallelism == 0 {
                return Err(FormatError::InvalidKdfParams("parallelism must be non-zero"));
            }
            let min_memory: u32 = match parallelism.checked_mul(8) {
                Some(value) => value,
                None => {
                    return Err(FormatError::InvalidKdfParams("m_cost_kib requirement overflow"));
                },
            };
            if *m_cost_kib < min_memory {
                return Err(
                    FormatError::InvalidKdfParams("m_cost_kib must be at least 8 * parallelism"),
                );
            }
            if salt.len() < 8 || salt.len() > 64 {
                return Err(FormatError::InvalidKdfParams("argon2id salt length must be 8..64"));
            }
            append_le(&mut bytes, *t_cost as u64, 4);
            append_le(&mut bytes, *m_cost_kib as u64, 4);
            append_le(&mut bytes, *parallelism as u64, 4);
            append_le(&mut bytes, salt.len() as u64, 2);
            append(&mut bytes, salt.as_slice());
        },
        KdfParams::RecipientWrap {
            key_wrap_table_length,
            key_wrap_table_record_count,
            key_wrap_table_version,
            key_wrap_table_digest,
        } => {
            append_le(&mut bytes, *key_wrap_table_length as u64, 4);
            append_le(&mut bytes, *key_wrap_table_record_count as u64, 4);
            append_le(&mut bytes, *key_wrap_table_version as u64, 2);
            append_le(&mut bytes, 0, 2);
            append(&mut bytes, key_wrap_table_digest.as_slice());
        },
    }
    assert(bytes@ =~= kdf_bytes(*layout, params@));
    proof {
        kdf_bytes_len(*layout, params@);
    }
    Ok(bytes)
}

// ---------------------------------------------------------------------------------------------
// Crypto header
// ---------------------------------------------------------------------------------------------

/// Whether sealing and key derivation go together: both or neither.
pub open spec fn protection_is_consistent(aead_algo: AeadAlgo, kdf_algo: KdfAlgo) -> bool {
    aead_algo.spec_is_encrypted() <==> kdf_algo != KdfAlgo::NoKey
}

pub open spec fn crypto_header_len(layout: WireLayout, kdf_len: int) -> int {
    layout.crypto_header_fixed + kdf_len + CRYPTO_EXTENSION_HEADER_LEN + CRYPTO_HEADER_HMAC_LEN
}

/// The fixed part of the crypto header of a request.
pub open spec fn crypto_header_fixed(
    length: int,
    o: WriterOptions,
    has_dictionary: bool,
    kdf_algo: KdfAlgo,
) -> CryptoHeaderFixed {
    CryptoHeaderFixed {
        length: length as u32,
        compression_algo: CompressionAlgo::ZstdFramed,
        aead_algo: o.aead_algo,
        fec_algo: FecAlgo::ReedSolomonGF16,
        kdf_algo,
        chunk_size: o.chunk_size,
        envelope_target_size: o.envelope_target_size,
        block_size: o.block_size,
        fec_data_shards: o.fec_data_shards,
        fec_parity_shards: o.fec_parity_shards,
        index_fec_data_shards: o.index_fec_data_shards,
        index_fec_parity_shards: o.index_fec_parity_shards,
        index_root_fec_data_shards: o.index_root_fec_data_shards,
        index_root_fec_parity_shards: o.index_root_fec_parity_shards,
        stripe_width: o.stripe_width,
        volume_loss_tolerance: o.volume_loss_tolerance,
        bit_rot_buffer_pct: o.bit_rot_buffer_pct,
        has_dictionary: if has_dictionary {
            1
        } else {
            0
        },
        max_path_length: o.max_path_length,
        expected_volume_size: match o.target_volume_size {
            Some(size) => size,
            None => 0,
        },
    }
}

/// The part of a crypto header that its tag covers, and the fixed record in it.
pub struct CryptoHeaderValue {
    pub fixed: CryptoHeaderFixed,
    pub covered: Seq<u8>,
    pub bytes: Seq<u8>,
}

/// A crypto header: the fixed record, the key-derivation parameters, an empty extension, a tag.
pub open spec fn crypto_header_outcome<C: ArchiveCodec>(
    codec: &C,
    o: WriterOptions,
    volume_format_rev: u16,
    has_dictionary: bool,
    subkeys: Subkeys,
    archive_uuid: [u8; 16],
    session_id: [u8; 16],
    kdf: KdfValue,
) -> Result<CryptoHeaderValue, FormatError> {
    match kdf_outcome(codec.spec_layout(), kdf) {
        Err(e) => Err(e),
        Ok(payload) => if !protection_is_consistent(o.aead_algo, kdf.algo()) {
            Err(
                FormatError::InvalidProtectionMode { aead_algo: o.aead_algo, kdf_algo: kdf.algo() },
            )
        } else {
            let fixed = crypto_header_fixed(
                crypto_header_len(codec.spec_layout(), payload.len() as int),
                o,
                has_dictionary,
                kdf.algo(),
            );
            let covered = codec.encoded(Record::CryptoHeaderFixed(fixed)) + payload + zeros(
                CRYPTO_EXTENSION_HEADER_LEN as int,
            );
            match codec.tag(
                TagContext {
                    domain: HmacDomain::CryptoHeader,
                    aead_algo: o.aead_algo,
                    volume_format_rev,
                    mac_key: subkeys.mac_key,
                    archive_uuid,
                    session_id,
                },
                covered,
            ) {
                Err(e) => Err(e),
                Ok(tag) => Ok(CryptoHeaderValue { fixed, covered, bytes: covered + tag@ }),
            }
        },
    }
}

/// A built crypto header and the fixed record that it starts with.
#[derive(Debug, Clone, PartialEq, Eq)]
pub struct CryptoHeader {
    pub fixed: CryptoHeaderFixed,
    pub bytes: Vec<u8>,
}

impl CryptoHeader {
    pub open spec fn wf(self) -> bool {
        self.bytes@.len() >= CRYPTO_HEADER_HMAC_LEN && self.bytes@.len() <= u32::MAX
    }

    /// The part that the tag covers.
    pub open spec fn covered(self) -> Seq<u8> {
        self.bytes@.take(self.bytes@.len() - CRYPTO_HEADER_HMAC_LEN)
    }

    pub open spec fn value(self) -> CryptoHeaderValue {
        CryptoHeaderValue { fixed: self.fixed, covered: self.covered(), bytes: self.bytes@ }
    }
}

pub open spec fn crypto_header_agree(
    r: Result<CryptoHeader, FormatError>,
    s: Result<CryptoHeaderValue, FormatError>,
) -> bool {
    match (r, s) {
        (Ok(v), Ok(w)) => v.value() == w,
        (Err(e), Err(f)) => e == f,
        _ => false,
    }
}

pub fn build_crypto_header<C: ArchiveCodec>(
    codec: &C,
    options: WriterOptions,
    volume_format_rev: u16,
    has_dictionary: bool,
    subkeys: &Subkeys,
    archive_uuid: &[u8; 16],
    session_id: &[u8; 16],
    kdf_params: &KdfParams,
) -> (r: Result<CryptoHeader, FormatError>)
    ensures
        crypto_header_agree(
            r,
            crypto_header_outcome(
                codec,
                options,
                volume_format_rev,
                has_dictionary,
                *subkeys,
                *archive_uuid,
                *session_id,
                kdf_params@,
            ),
        ),
        r matches Ok(header) ==> header.wf() && header.bytes@.len() == header.fixed.length,
{
    let layout: WireLayout = codec.layout();
    let kdf_payload: Vec<u8> = serialize_kdf_params(kdf_params, &layout)?;
    let length: usize = layout.crypto_header_fixed as usize + kdf_payload.len()
        + CRYPTO_EXTENSION_HEADER_LEN + CRYPTO_HEADER_HMAC_LEN;
    let kdf_algo: KdfAlgo = kdf_params.algo();
    let has_key: bool = match kdf_algo {
        KdfAlgo::NoKey => false,
        _ => true,
    };
    if options.aead_algo.is_encrypted() != has_key {
        return Err(
            FormatError::InvalidProtectionMode { aead_algo: options.aead_algo, kdf_algo },
        );
    }
    let fixed: CryptoHeaderFixed = CryptoHeaderFixed {
        length: length as u32,
        compression_algo: CompressionAlgo::ZstdFramed,
        aead_algo: options.aead_algo,
        fec_algo: FecAlgo::ReedSolomonGF16,
        kdf_algo,
        chunk_size: options.chunk_size,
        envelope_target_size: options.envelope_target_size,
        block_size: options.block_size,
        fec_data_shards: options.fec_data_shards,
        fec_parity_shards: options.fec_parity_shards,
        index_fec_data_shards: options.index_fec_data_shards,
        index_fec_parity_shards: options.index_fec_parity_shards,
        index_root_fec_data_shards: options.index_root_fec_data_shards,
        index_root_fec_parity_shards: options.index_root_fec_parity_shards,
        stripe_width: options.stripe_width,
        volume_loss_tolerance: options.volume_loss_tolerance,
        bit_rot_buffer_pct: options.bit_rot_buffer_pct,
        has_dictionary: if has_dictionary {
            1
        } else {
            0
        },
        max_path_length: options.max_path_length,
        expected_volume_size: match options.target_volume_size {
            Some(size) => size,
            None => 0,
        },
    };
    let mut bytes: Vec<u8> = codec.encode(&Record::CryptoHeaderFixed(fixed));
    append(&mut bytes, kdf_payload.as_slice());
    append_zeros(&mut bytes, CRYPTO_EXTENSION_HEADER_LEN);
    let ghost covered = bytes@;
    let tag: [u8; 32] = codec.integrity_tag(
        &TagContext {
            domain: HmacDomain::CryptoHeader,
            aead_algo: options.aead_algo,
            volume_format_rev,
            mac_key: subkeys.mac_key,
            archive_uuid: *archive_uuid,
            session_id: *session_id,
        },
        bytes.as_slice(),
    )?;
    append(&mut bytes, tag.as_slice());
    let header: CryptoHeader = CryptoHeader { fixed, bytes };
    assert(header.covered() =~= covered);
    Ok(header)
}

// ---------------------------------------------------------------------------------------------
// Manifest footer
// ---------------------------------------------------------------------------------------------

/// The manifest footer of a volume before it is tagged.
pub open spec fn manifest_record(
    archive_uuid: [u8; 16],
    session_id: [u8; 16],
    volume_index: u32,
    total_volumes: u32,
    index_root: ObjectExtent,
    index_root_decompressed_size: int,
) -> ManifestFooter {
    ManifestFooter {
        archive_uuid,
        session_id,
        volume_index,
        is_authoritative: 1,
        total_volumes,
        index_root_first_block: index_root.first_block_index,
        index_root_data_block_count: index_root.data_block_count,
        index_root_parity_block_count: index_root.parity_block_count,
        index_root_encrypted_size: index_root.encrypted_size,
        index_root_decompressed_size: index_root_decompressed_size as u32,
        manifest_hmac: NO_KEY,
    }
}

pub open spec fn manifest_outcome<C: ArchiveCodec>(
    codec: &C,
    subkeys: Subkeys,
    aead_algo: AeadAlgo,
    volume_format_rev: u16,
    footer: ManifestFooter,
) -> Result<Seq<u8>, FormatError> {
    let untagged = codec.encoded(Record::ManifestFooter(footer));
    match codec.tag(
        TagContext {
            domain: HmacDomain::ManifestFooter,
            aead_algo,
            volume_format_rev,
            mac_key: subkeys.mac_key,
            archive_uuid: footer.archive_uuid,
            session_id: footer.session_id,
        },
        untagged.take(MANIFEST_FOOTER_COVERED as int),
    ) {
        Err(e) => Err(e),
        Ok(tag) => Ok(
            codec.encoded(Record::ManifestFooter(ManifestFooter { manifest_hmac: tag, ..footer })),
        ),
    }
}

pub fn build_manifest_footer<C: ArchiveCodec>(
    codec: &C,
    subkeys: &Subkeys,
    aead_algo: AeadAlgo,
    volume_format_rev: u16,
    archive_uuid: [u8; 16],
    session_id: [u8; 16],
    volume_index: u32,
    total_volumes: u32,
    index_root_extent: &ObjectExtent,
    index_root_decompressed_size: usize,
) -> (r: Result<Vec<u8>, FormatError>)
    ensures
        index_root_decompressed_size > u32::MAX ==> r == Err::<Vec<u8>, FormatError>(
            FormatError::WriterUnsupported("IndexRoot"),
        ),
        index_root_decompressed_size <= u32::MAX ==> bytes_agree(
            r,
            manifest_outcome(
                codec,
                *subkeys,
                aead_algo,
                volume_format_rev,
                manifest_record(
                    archive_uuid,
                    session_id,
                    volume_index,
                    total_volumes,
                    *index_root_extent,
                    index_root_decompressed_size as int,
                ),
            ),
        ),
        r matches Ok(bytes) ==> bytes@.len() == codec.spec_layout().manifest_footer,
{
    let layout: WireLayout = codec.layout();
    let footer: ManifestFooter = ManifestFooter {
        archive_uuid,
        session_id,
        volume_index,
        is_authoritative: 1,
        total_volumes,
        index_root_first_block: index_root_extent.first_block_index,
        index_root_data_block_count: index_root_extent.data_block_count,
        index_root_parity_block_count: index_root_extent.parity_block_count,
        index_root_encrypted_size: index_root_extent.encrypted_size,
        index_root_decompressed_size: u32_len(index_root_decompressed_size, "IndexRoot")?,
        manifest_hmac: NO_KEY,
    };
    let bytes: Vec<u8> = codec.encode(&Record::ManifestFooter(footer));
    let covered: &[u8] = vstd::slice::slice_subrange(
        bytes.as_slice(),
        0,
        MANIFEST_FOOTER_COVERED,
    );
    assert(covered@ =~= bytes@.take(MANIFEST_FOOTER_COVERED as int));
    let tag: [u8; 32] = codec.integrity_tag(
        &TagContext {
            domain: HmacDomain::ManifestFooter,
            aead_algo,
            volume_format_rev,
            mac_key: subkeys.mac_key,
            archive_uuid,
            session_id,
        },
        covered,
    )?;
    Ok(codec.encode(&Record::ManifestFooter(ManifestFooter { manifest_hmac: tag, ..footer })))
}

/// Where the volume number lies in a manifest footer.
pub const MANIFEST_VOLUME_INDEX_START: usize = 36;

pub const MANIFEST_VOLUME_INDEX_END: usize = 40;

/// What the manifest footers of all volumes have in common: the covered part with the volume
/// number blanked.
pub open spec fn manifest_common_part(footer: Seq<u8>) -> Seq<u8> {
    Seq::new(
        MANIFEST_FOOTER_COVERED as nat,
        |i: int|
            if MANIFEST_VOLUME_INDEX_START <= i < MANIFEST_VOLUME_INDEX_END {
                0u8
            } else {
                footer[i]
            },
    )
}

pub fn manifest_footer_global_pre_hmac_bytes(manifest_footer: &[u8]) -> (r: Vec<u8>)
    requires
        manifest_footer@.len() >= MANIFEST_FOOTER_COVERED,
    ensures
        r@ == manifest_common_part(manifest_footer@),
{
    let mut bytes: Vec<u8> = to_bytes(
        vstd::slice::slice_subrange(manifest_footer, 0, MANIFEST_VOLUME_INDEX_START),
    );
    append_zeros(&mut bytes, MANIFEST_VOLUME_INDEX_END - MANIFEST_VOLUME_INDEX_START);
    append(
        &mut bytes,
        vstd::slice::slice_subrange(
            manifest_footer,
            MANIFEST_VOLUME_INDEX_END,
            MANIFEST_FOOTER_COVERED,
        ),
    );
    assert(bytes@ =~= manifest_common_part(manifest_footer@));
    bytes
}

// ---------------------------------------------------------------------------------------------
// Volume trailer
// ---------------------------------------------------------------------------------------------

/// Everything that a trailer records of its volume.
#[derive(Debug, Clone, Copy)]
pub struct VolumeTrailerBuildInput {
    pub subkeys: Subkeys,
    pub aead_algo: AeadAlgo,
    pub volume_format_rev: u16,
    pub archive_uuid: [u8; 16],
    pub session_id: [u8; 16],
    pub volume_index: u32,
    pub block_count: u64,
    pub bytes_written: u64,
    pub manifest_footer_offset: u64,
    pub closed_at_ns: i64,
    pub root_auth_footer: Option<(u64, u32)>,
}

/// Set in a trailer whose volume carries a root-authentication footer.
pub const TRAILER_ROOT_AUTH_FLAG: u32 = 1;

pub open spec fn trailer_record(layout: WireLayout, input: VolumeTrailerBuildInput) -> VolumeTrailer {
    VolumeTrailer {
        archive_uuid: input.archive_uuid,
        session_id: input.session_id,
        volume_index: input.volume_index,
        block_count: input.block_count,
        bytes_written: input.bytes_written,
        manifest_footer_offset: input.manifest_footer_offset,
        manifest_footer_length: layout.manifest_footer as u32,
        closed_at_ns: input.closed_at_ns,
        root_auth_footer_offset: match input.root_auth_footer {
            Some((offset, _)) => offset,
            None => 0,
        },
        root_auth_footer_length: match input.root_auth_footer {
            Some((_, length)) => length,
            None => 0,
        },
        root_auth_flags: match input.root_auth_footer {
            Some(_) => TRAILER_ROOT_AUTH_FLAG,
            None => 0,
        },
        trailer_hmac: NO_KEY,
    }
}

pub open spec fn trailer_outcome<C: ArchiveCodec>(codec: &C, input: VolumeTrailerBuildInput) -> Result<
    Seq<u8>,
    FormatError,
> {
    let trailer = trailer_record(codec.spec_layout(), input);
    match codec.tag(
        TagContext {
            domain: HmacDomain::VolumeTrailer,
            aead_algo: input.aead_algo,
            volume_format_rev: input.volume_format_rev,
            mac_key: input.subkeys.mac_key,
            archive_uuid: input.archive_uuid,
            session_id: input.session_id,
        },
        codec.encoded(Record::VolumeTrailer(trailer)).take(VOLUME_TRAILER_COVERED as int),
    ) {
        Err(e) => Err(e),
        Ok(tag) => Ok(
            codec.encoded(Record::VolumeTrailer(VolumeTrailer { trailer_hmac: tag, ..trailer })),
        ),
    }
}

pub fn build_volume_trailer<C: ArchiveCodec>(codec: &C, input: &VolumeTrailerBuildInput) -> (r:
    Result<Vec<u8>, FormatError>)
    ensures
        bytes_agree(r, trailer_outcome(codec, *input)),
        r matches Ok(bytes) ==> bytes@.len() == codec.spec_layout().volume_trailer,
{
    let layout: WireLayout = codec.layout();
    let (root_auth_footer_offset, root_auth_footer_length, root_auth_flags): (u64, u32, u32) =
        match input.root_auth_footer {
        Some((offset, length)) => (offset, length, TRAILER_ROOT_AUTH_FLAG),
        None => (0, 0, 0),
    };
    let trailer: VolumeTrailer = VolumeTrailer {
        archive_uuid: input.archive_uuid,
        session_id: input.session_id,
        volume_index: input.volume_index,
        block_count: input.block_count,
        bytes_written: input.bytes_written,
        manifest_footer_offset: input.manifest_footer_offset,
        manifest_footer_length: layout.manifest_footer as u32,
        closed_at_ns: input.closed_at_ns,
        root_auth_footer_offset,
        root_auth_footer_length,
        root_auth_flags,
        trailer_hmac: NO_KEY,
    };
    let bytes: Vec<u8> = codec.encode(&Record::VolumeTrailer(trailer));
    let covered: &[u8] = vstd::slice::slice_subrange(bytes.as_slice(), 0, VOLUME_TRAILER_COVERED);
    assert(covered@ =~= bytes@.take(VOLUME_TRAILER_COVERED as int));
    let tag: [u8; 32] = codec.integrity_tag(
        &TagContext {
            domain: HmacDomain::VolumeTrailer,
            aead_algo: input.aead_algo,
            volume_format_rev: input.volume_format_rev,
            mac_key: input.subkeys.mac_key,
            archive_uuid: input.archive_uuid,
            session_id: input.session_id,
        },
        covered,
    )?;
    Ok(codec.encode(&Record::VolumeTrailer(VolumeTrailer { trailer_hmac: tag, ..trailer })))
}

// ---------------------------------------------------------------------------------------------
// Bootstrap sidecar
// ---------------------------------------------------------------------------------------------

/// Blocks one behind the other as they are written.
pub open spec fn joined_blocks<C: ArchiveCodec>(codec: &C, blocks: Seq<BlockValue>) -> Seq<u8>
    decreases blocks.len(),
{
    if blocks.len() == 0 {
        Seq::empty()
    } else {
        joined_blocks(codec, blocks.drop_last()) + codec.block_bytes(blocks.last())
    }
}

proof fn joined_blocks_grow<C: ArchiveCodec>(codec: &C, blocks: Seq<BlockValue>, n: int)
    requires
        0 <= n <= blocks.len(),
    ensures
        joined_blocks(codec, blocks.take(n)).len() <= joined_blocks(codec, blocks).len(),
    decreases blocks.len(),
{
    if n == blocks.len() {
        assert(blocks.take(n) =~= blocks);
    } else {
        joined_blocks_grow(codec, blocks.drop_last(), n);
        assert(blocks.drop_last().take(n) =~= blocks.take(n));
    }
}

/// The length of the written blocks, where it can be held.
pub fn joined_blocks_len<C: ArchiveCodec>(codec: &C, records: &Vec<BlockRecord>) -> (r: Result<
    usize,
    FormatError,
>)
    ensures
        r == crate::arith::fit_usize(
            joined_blocks(codec, block_values(records@)).len() as int,
            "bootstrap sidecar",
        ),
{
    let ghost values = block_values(records@);
    let mut sum: usize = 0;
    let mut i: usize = 0;
    while i < records.len()
        invariant
            i <= records.len(),
            values == block_values(records@),
            sum == joined_blocks(codec, values.take(i as int)).len(),
        decreases records.len() - i,
    {
        let record: &BlockRecord = &records[i];
        let bytes: Vec<u8> = codec.encode_block(
            record.block_index,
            record.kind,
            record.flags,
            record.payload.as_slice(),
        );
        proof {
            assert(values.take(i + 1).drop_last() =~= values.take(i as int));
            assert(values.take(i + 1).last() == record@);
            joined_blocks_grow(codec, values, i + 1);
        }
        sum = checked_usize_add(sum, bytes.len(), "bootstrap sidecar")?;
        i = i + 1;
    }
    assert(values.take(i as int) =~= values);
    Ok(sum)
}

/// Appends blocks as they are written.
pub fn append_blocks<C: ArchiveCodec>(codec: &C, out: &mut Vec<u8>, records: &Vec<BlockRecord>)
    ensures
        final(out)@ == old(out)@ + joined_blocks(codec, block_values(records@)),
{
    let ghost values = block_values(records@);
    let ghost start = out@;
    let mut i: usize = 0;
    assert(values.take(0) =~= Seq::empty());
    assert(out@ =~= start + joined_blocks(codec, values.take(0)));
    while i < records.len()
        invariant
            i <= records.len(),
            values == block_values(records@),
            out@ == start + joined_blocks(codec, values.take(i as int)),
        decreases records.len() - i,
    {
        let record: &BlockRecord = &records[i];
        let bytes: Vec<u8> = codec.encode_block(
            record.block_index,
            record.kind,
            record.flags,
            record.payload.as_slice(),
        );
        append(out, bytes.as_slice());
        proof {
            assert(values.take(i + 1).drop_last() =~= values.take(i as int));
            assert(values.take(i + 1).last() == record@);
            assert(out@ =~= start + joined_blocks(codec, values.take(i + 1)));
        }
        i = i + 1;
    }
    assert(values.take(i as int) =~= values);
}

/// Set in a sidecar that holds a manifest footer and an index root.
pub const SIDECAR_FLAGS: u32 = 3;

/// Set in a sidecar that holds a dictionary too.
pub const SIDECAR_FLAGS_WITH_DICTIONARY: u32 = 7;

/// The blocks of an optional object as they are written.
pub open spec fn optional_blocks<C: ArchiveCodec>(
    codec: &C,
    blocks: Option<Seq<BlockValue>>,
) -> Seq<u8> {
    match blocks {
        Some(b) => joined_blocks(codec, b),
        None => Seq::empty(),
    }
}

/// Where the parts of a sidecar lie.
pub open spec fn sidecar_header(
    layout: WireLayout,
    archive_uuid: [u8; 16],
    session_id: [u8; 16],
    index_len: int,
    has_dictionary: bool,
    dictionary_len: int,
) -> BootstrapSidecarHeader {
    BootstrapSidecarHeader {
        archive_uuid,
        session_id,
        flags: if has_dictionary {
            SIDECAR_FLAGS_WITH_DICTIONARY
        } else {
            SIDECAR_FLAGS
        },
        manifest_footer_offset: layout.sidecar_header as u64,
        manifest_footer_length: layout.manifest_footer as u32,
        index_root_records_offset: (layout.sidecar_header + layout.manifest_footer) as u64,
        index_root_records_length: index_len as u64,
        dictionary_records_offset: if has_dictionary {
            (layout.sidecar_header + layout.manifest_footer + index_len) as u64
        } else {
            0
        },
        dictionary_records_length: dictionary_len as u64,
        sidecar_hmac: NO_KEY,
        header_crc32c: 0,
    }
}

/// A sidecar: its header, a manifest footer, the blocks of the index root and of the dictionary.
pub open spec fn sidecar_outcome<C: ArchiveCodec>(
    codec: &C,
    subkeys: Subkeys,
    aead_algo: AeadAlgo,
    volume_format_rev: u16,
    archive_uuid: [u8; 16],
    session_id: [u8; 16],
    manifest_footer: Seq<u8>,
    index_root: Seq<BlockValue>,
    dictionary: Option<Seq<BlockValue>>,
) -> Result<Seq<u8>, FormatError> {
    let layout = codec.spec_layout();
    let index_bytes = joined_blocks(codec, index_root);
    let dictionary_bytes = optional_blocks(codec, dictionary);
    let header = sidecar_header(
        layout,
        archive_uuid,
        session_id,
        index_bytes.len() as int,
        dictionary is Some,
        dictionary_bytes.len() as int,
    );
    if index_bytes.len() > usize::MAX || dictionary_bytes.len() > usize::MAX || (
    dictionary is Some && layout.sidecar_header + layout.manifest_footer + index_bytes.len()
        > u64::MAX) {
        Err(FormatError::WriterUnsupported("bootstrap sidecar"))
    } else {
        match codec.tag(
            TagContext {
                domain: HmacDomain::BootstrapSidecar,
                aead_algo,
                volume_format_rev,
                mac_key: subkeys.mac_key,
                archive_uuid,
                session_id,
            },
            codec.encoded(Record::SidecarHeader(header)).take(SIDECAR_HEADER_COVERED as int),
        ) {
            Err(e) => Err(e),
            Ok(tag) => Ok(
                codec.encoded(
                    Record::SidecarHeader(BootstrapSidecarHeader { sidecar_hmac: tag, ..header }),
                ) + manifest_footer + index_bytes + dictionary_bytes,
            ),
        }
    }
}

pub open spec fn optional_block_values(records: Option<&Vec<BlockRecord>>) -> Option<
    Seq<BlockValue>,
> {
    match records {
        Some(r) => Some(block_values(r@)),
        None => None,
    }
}

pub fn build_bootstrap_sidecar<C: ArchiveCodec>(
    codec: &C,
    subkeys: &Subkeys,
    aead_algo: AeadAlgo,
    volume_format_rev: u16,
    archive_uuid: [u8; 16],
    session_id: [u8; 16],
    manifest_footer: &[u8],
    index_root_records: &Vec<BlockRecord>,
    dictionary_records: Option<&Vec<BlockRecord>>,
) -> (r: Result<Vec<u8>, FormatError>)
    ensures
        bytes_agree(
            r,
            sidecar_outcome(
                codec,
                *subkeys,
                aead_algo,
                volume_format_rev,
                archive_uuid,
                session_id,
                manifest_footer@,
                block_values(index_root_records@),
                optional_block_values(dictionary_records),
            ),
        ),
{
    let layout: WireLayout = codec.layout();
    let index_records_len: usize = joined_blocks_len(codec, index_root_records)?;
    let dictionary_records_len: usize = match dictionary_records {
        Some(records) => joined_blocks_len(codec, records)?,
        None => 0,
    };
    let manifest_offset: u64 = layout.sidecar_header as u64;
    let index_root_offset: u64 = manifest_offset + layout.manifest_footer as u64;
    let dictionary_offset: u64 = match dictionary_records {
        Some(_) => checked_u64_add(
            index_root_offset,
            index_records_len as u64,
            "bootstrap sidecar",
        )?,
        None => 0,
    };
    let header: BootstrapSidecarHeader = BootstrapSidecarHeader {
        archive_uuid,
        session_id,
        flags: match dictionary_records {
            Some(_) => SIDECAR_FLAGS_WITH_DICTIONARY,
            None => SIDECAR_FLAGS,
        },
        manifest_footer_offset: manifest_offset,
        manifest_footer_length: layout.manifest_footer as u32,
        index_root_records_offset: index_root_offset,
        index_root_records_length: index_records_len as u64,
        dictionary_records_offset: dictionary_offset,
        dictionary_records_length: dictionary_records_len as u64,
        sidecar_hmac: NO_KEY,
        header_crc32c: 0,
    };
    let header_bytes: Vec<u8> = codec.encode(&Record::SidecarHeader(header));
    let covered: &[u8] = vstd::slice::slice_subrange(
        header_bytes.as_slice(),
        0,
        SIDECAR_HEADER_COVERED,
    );
    assert(covered@ =~= header_bytes@.take(SIDECAR_HEADER_COVERED as int));
    let tag: [u8; 32] = codec.integrity_tag(
        &TagContext {
            domain: HmacDomain::BootstrapSidecar,
            aead_algo,
            volume_format_rev,
            mac_key: subkeys.mac_key,
            archive_uuid,
            session_id,
        },
        covered,
    )?;
    let mut sidecar: Vec<u8> = codec.encode(
        &Record::SidecarHeader(BootstrapSidecarHeader { sidecar_hmac: tag, ..header }),
    );
    append(&mut sidecar, manifest_footer);
    append_blocks(codec, &mut sidecar, index_root_records);
    if let Some(records) = dictionary_records {
        append_blocks(codec, &mut sidecar, records);
    } else {
        assert(sidecar@ =~= sidecar@ + Seq::<u8>::empty());
    }
    Ok(sidecar)
}

/// Two manifest footers have the same common part exactly where what their tags cover differs at
/// most in the volume number.
pub proof fn manifests_agree_outside_the_volume_number(a: Seq<u8>, b: Seq<u8>)
    requires
        a.len() >= MANIFEST_FOOTER_COVERED,
        b.len() >= MANIFEST_FOOTER_COVERED,
    ensures
        manifest_common_part(a) == manifest_common_part(b) <==> (forall|i: int|
            0 <= i < MANIFEST_FOOTER_COVERED && !(MANIFEST_VOLUME_INDEX_START <= i
                < MANIFEST_VOLUME_INDEX_END) ==> a[i] == b[i]),
{
    if manifest_common_part(a) == manifest_common_part(b) {
        assert forall|i: int|
            0 <= i < MANIFEST_FOOTER_COVERED && !(MANIFEST_VOLUME_INDEX_START <= i
                < MANIFEST_VOLUME_INDEX_END) implies a[i] == b[i] by {
            assert(manifest_common_part(a)[i] == a[i]);
            assert(manifest_common_part(b)[i] == b[i]);
        }
    } else {
        assert(!(manifest_common_part(a) =~= manifest_common_part(b)));
    }
}

} // verus!
