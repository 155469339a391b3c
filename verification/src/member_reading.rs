//! Reading the members of a file: the records in front of each header are found, and tell of the file
//! and of its auxiliary payloads.
use crate::arith::tar_padding;
use crate::bytes::{be_bytes, decimal_reads_back, digits_value, zeros};
use crate::codec::ArchiveCodec;
use crate::errors::FormatError;
use crate::line_reading::{map_tells_of, maps_tell_of_their_extents};
use crate::member::{
    auxiliary_prefix_outcome, auxiliary_records_of, headed_by_records, layout_outcome,
    primary_header, primary_records, sparse_head, stored_size_outcome, PrimaryValue, Records,
};
use crate::metadata::{AuxiliaryValue, NativeAuxiliaryNameEncoding, RestoreClass};
use crate::profile::MetadataProfile;
use crate::sparse::{
    canonical_extents, canonical_maps_are_accepted, extent_sum, sparse_map_is_whole_records,
    SparseExtent,
};
use crate::tar_reading::{
    checksum_holds, key_mark, keys_are_marked, mark_of_text, members_tell_of_their_files, number_in,
    number_of, plain_headers_read_back, starts_bare, tells_of_the_file,
};
use crate::text::{hex_text, text};
use vstd::prelude::*;
use vstd::utf8::encode_utf8;

verus! {

// ---------------------------------------------------------------------------------------------
// Extended headers
// ---------------------------------------------------------------------------------------------

/// Whether bytes begin with an extended header that holds records, up to `end`.
pub open spec fn begins_with_records<P: MetadataProfile>(
    profile: &P,
    bytes: Seq<u8>,
    records: Records,
    end: int,
) -> bool {
    let size = number_in(bytes, 124, 12);
    &&& checksum_holds(bytes.take(512))
    &&& bytes[156] == 120
    &&& end == 512 + size + tar_padding(size)
    &&& end <= bytes.len()
    &&& profile.canonical_pax(records) == Ok::<Seq<u8>, FormatError>(
        bytes.subrange(512, 512 + size),
    )
    &&& bytes.subrange(512 + size, end) == zeros(tar_padding(size))
}

proof fn records_are_found<P: MetadataProfile>(
    profile: &P,
    label: Seq<u8>,
    records: Records,
    rest: Seq<u8>,
)
    ensures
        headed_by_records(profile, label, records) matches Ok(head) ==> begins_with_records(
            profile,
            head + rest,
            records,
            head.len() as int,
        ),
{
    if let Ok(head) = headed_by_records(profile, label, records) {
        let payload = profile.canonical_pax(records)->Ok_0;
        let size = payload.len() as int;
        plain_headers_read_back(label, size, 0, 0, 120);
        let header = crate::tar::ustar_header_outcome(label, size, 0, 0, 120)->Ok_0;
        let bytes = head + rest;
        assert(bytes.take(512) =~= header);
        assert(bytes.subrange(124, 135) =~= header.subrange(124, 135));
        assert(bytes[156] == header[156]);
        assert(bytes.subrange(512, 512 + size) =~= payload);
        assert(bytes.subrange(512 + size, head.len() as int) =~= zeros(tar_padding(size)));
    }
}

// ---------------------------------------------------------------------------------------------
// Primary members
// ---------------------------------------------------------------------------------------------

proof fn extents_fit_their_file(extents: Seq<SparseExtent>, logical_size: int)
    requires
        canonical_extents(extents, logical_size),
        logical_size >= 0,
    ensures
        0 <= extent_sum(extents) <= logical_size,
        extents.len() > 0 ==> extent_sum(extents) <= extents.last().offset + extents.last().length,
    decreases extents.len(),
{
    if extents.len() > 0 {
        let less = extents.drop_last();
        extents_fit_their_file(less, logical_size);
        if less.len() > 0 {
            assert(less.last() == extents[extents.len() - 2]);
            assert(extents.last() == extents[extents.len() - 1]);
        }
    }
}

/// Whether a map tells of the extents of a file with holes, in whole records, and what the member
/// stores is the map and the data. A file without holes has no map.
#[verifier::opaque]
pub open spec fn map_leads_on(map: Seq<u8>, v: PrimaryValue, stored_size: u64) -> bool {
    match v.sparse_extents {
        None => map.len() == 0 && stored_size == v.file_size,
        Some(extents) => {
            &&& map_tells_of(map, extents)
            &&& map.len() % 512 == 0
            &&& stored_size == map.len() + extent_sum(extents)
        },
    }
}

proof fn heads_lead_on(v: PrimaryValue, limit: usize)
    ensures
        stored_size_outcome(v, limit) matches Ok(stored_size) ==> match sparse_head(v, limit) {
            Ok(Some(map)) => map_leads_on(map, v, stored_size),
            Ok(None) => map_leads_on(Seq::empty(), v, stored_size),
            Err(_) => false,
        },
{
    reveal(map_leads_on);
    if let Some(extents) = v.sparse_extents {
        maps_tell_of_their_extents(extents, v.file_size as int, limit as int);
        canonical_maps_are_accepted(extents, v.file_size, limit as int);
        if canonical_extents(extents, v.file_size as int) {
            extents_fit_their_file(extents, v.file_size as int);
        }
        sparse_map_is_whole_records(extents);
    }
}

/// Whether the bytes in front of the data of a member tell of a file: an extended header with records,
/// then a header, then the map of a file with holes.
pub open spec fn primary_tells_of<C: ArchiveCodec + MetadataProfile>(
    codec: &C,
    bytes: Seq<u8>,
    records: Records,
    at: int,
    v: PrimaryValue,
    stored_size: u64,
) -> bool {
    &&& begins_with_records(codec, bytes, records, at)
    &&& at + 512 <= bytes.len()
    &&& tells_of_the_file(codec, bytes.subrange(at, at + 512), records, v, stored_size)
    &&& map_leads_on(bytes.skip(at + 512), v, stored_size)
}

/// A file that is laid out is restored from the bytes in front of its data: the records are found in
/// an extended header, the header of the member right behind it, and the map of a file with holes
/// behind that; and they tell of the file as it was described.
pub proof fn layouts_tell_of_their_files<C: ArchiveCodec + MetadataProfile>(
    codec: &C,
    v: PrimaryValue,
)
    requires
        starts_bare(codec),
        !v.path.contains(0u8),
        v.link_target matches Some(target) ==> !target.contains(0u8),
    ensures
        layout_outcome(codec, v) matches Ok(layout) ==> {
            &&& stored_size_outcome(v, codec.extent_limit()) matches Ok(stored_size)
            &&& exists|records: Records, at: int| #[trigger]
                primary_tells_of(codec, layout.primary, records, at, v, stored_size)
        },
{
    if let Ok(layout) = layout_outcome(codec, v) {
        let stored_size = stored_size_outcome(v, codec.extent_limit())->Ok_0;
        let p = primary_records(codec, v, stored_size)->Ok_0;
        let map = sparse_head(v, codec.extent_limit())->Ok_0;
        let label = text("TZAP-PAX/PRIMARY");
        let head = headed_by_records(codec, label, p.records)->Ok_0;
        let h = primary_header(v, p)->Ok_0;
        members_tell_of_their_files(codec, v, stored_size, p, h);
        let rest = match map {
            Some(m) => h + m,
            None => h,
        };
        records_are_found(codec, label, p.records, rest);
        assert(layout.primary =~= head + rest);
        let at = head.len() as int;
        assert(layout.primary.subrange(at, at + 512) =~= h);
        if let Some(m) = map {
            assert(layout.primary.skip(at + 512) =~= m);
        } else {
            assert(layout.primary.skip(at + 512) =~= Seq::<u8>::empty());
        }
        heads_lead_on(v, codec.extent_limit());
        assert(primary_tells_of(codec, layout.primary, p.records, at, v, stored_size));
    }
}

// ---------------------------------------------------------------------------------------------
// Auxiliary members
// ---------------------------------------------------------------------------------------------

/// Whether records tell of an auxiliary payload.
pub open spec fn tells_of_the_payload<P: MetadataProfile>(
    profile: &P,
    records: Records,
    a: AuxiliaryValue,
) -> bool {
    let class = records[text("TZAP.aux.restore-class")];
    let encoding = records[text("TZAP.aux.name-encoding")];
    let name = records[text("TZAP.aux.name")];
    &&& records[text("TZAP.aux.version")] == text("1")
    &&& records[text("TZAP.aux.kind")] == encode_utf8(a.kind)
    &&& records[text("TZAP.aux.profile")] == encode_utf8(a.profile)
    &&& a.restore_class == RestoreClass::Never ==> class == text("none")
    &&& a.restore_class == RestoreClass::Portable ==> class == text("portable")
    &&& a.restore_class == RestoreClass::SameOs ==> class == text("same-os")
    &&& a.restore_class == RestoreClass::System ==> class == text("system")
    &&& a.native ==> records[text("TZAP.aux.native")] == text("1")
    &&& !a.native ==> records[text("TZAP.aux.native")] == text("0")
    &&& a.name_encoding == NativeAuxiliaryNameEncoding::Unnamed ==> encoding == text("none")
        && name == a.name
    &&& a.name_encoding == NativeAuxiliaryNameEncoding::Utf8 ==> encoding == text("utf8") && name
        == a.name
    &&& a.name_encoding == NativeAuxiliaryNameEncoding::Utf16Le ==> encoding == text(
        "utf16le-base64",
    ) && name == profile.base64_text(a.name)
    &&& a.name_encoding == NativeAuxiliaryNameEncoding::Bytes ==> encoding == text("bytes-base64")
        && name == profile.base64_text(a.name)
    &&& records[text("TZAP.aux.flags")] == hex_text(be_bytes(a.flags as int, 8))
    &&& digits_value(records[text("TZAP.aux.logical-size")], 10) == a.logical_size
    &&& records[text("TZAP.aux.sha256")] == hex_text(a.digest()@)
    &&& forall|key: Seq<u8>| #[trigger]
        a.meta.dom().contains(key) ==> records.dom().contains(key) && records[key] == a.meta[key]
}

proof fn auxiliary_keys_are_marked()
    ensures
        key_mark(text("TZAP.aux.version")) == (16int, 'T', 's', 'n'),
        key_mark(text("TZAP.aux.kind")) == (13int, 'T', 'k', 'd'),
        key_mark(text("TZAP.aux.profile")) == (16int, 'T', 'f', 'e'),
        key_mark(text("TZAP.aux.restore-class")) == (22int, 'T', '-', 's'),
        key_mark(text("TZAP.aux.native")) == (15int, 'T', 't', 'e'),
        key_mark(text("TZAP.aux.name-encoding")) == (22int, 'T', 'c', 'g'),
        key_mark(text("TZAP.aux.name")) == (13int, 'T', 'n', 'e'),
        key_mark(text("TZAP.aux.flags")) == (14int, 'T', 'l', 's'),
        key_mark(text("TZAP.aux.logical-size")) == (21int, 'T', 'l', 'e'),
        key_mark(text("TZAP.aux.sha256")) == (15int, 'T', 'a', '6'),
{
    reveal_strlit("TZAP.aux.version");
    mark_of_text("TZAP.aux.version"@);
    reveal_strlit("TZAP.aux.kind");
    mark_of_text("TZAP.aux.kind"@);
    reveal_strlit("TZAP.aux.profile");
    mark_of_text("TZAP.aux.profile"@);
    reveal_strlit("TZAP.aux.restore-class");
    mark_of_text("TZAP.aux.restore-class"@);
    reveal_strlit("TZAP.aux.native");
    mark_of_text("TZAP.aux.native"@);
    reveal_strlit("TZAP.aux.name-encoding");
    mark_of_text("TZAP.aux.name-encoding"@);
    reveal_strlit("TZAP.aux.name");
    mark_of_text("TZAP.aux.name"@);
    reveal_strlit("TZAP.aux.flags");
    mark_of_text("TZAP.aux.flags"@);
    reveal_strlit("TZAP.aux.logical-size");
    mark_of_text("TZAP.aux.logical-size"@);
    reveal_strlit("TZAP.aux.sha256");
    mark_of_text("TZAP.aux.sha256"@);
}

/// Whether the bytes in front of an auxiliary payload tell of it: an extended header with records, and
/// a header with its size behind it.
pub open spec fn auxiliary_tells_of<P: MetadataProfile>(
    profile: &P,
    bytes: Seq<u8>,
    records: Records,
    at: int,
    a: AuxiliaryValue,
) -> bool {
    let header = bytes.subrange(at, at + 512);
    &&& begins_with_records(profile, bytes, records, at)
    &&& bytes.len() == at + 512
    &&& checksum_holds(header)
    &&& header[156] == 90
    &&& number_of(records, text("size"), header, 124, 12) == a.stored_size()
    &&& tells_of_the_payload(profile, records, a)
}

/// An auxiliary payload is restored from the bytes in front of it: they tell its kind, profile, name,
/// class, flags, sizes and digest, and carry every record that it brings.
pub proof fn prefixes_tell_of_their_payloads<P: MetadataProfile>(
    profile: &P,
    ordinal: u32,
    a: AuxiliaryValue,
)
    requires
        !a.meta.dom().contains(text("size")),
        0 <= a.stored_size() <= u64::MAX,
    ensures
        auxiliary_prefix_outcome(profile, ordinal, a) matches Ok(prefix) ==> {
            &&& prefix.stored_size == a.stored_size()
            &&& prefix.sha256 == a.digest()
            &&& exists|records: Records, at: int| #[trigger]
                auxiliary_tells_of(profile, prefix.bytes, records, at, a)
        },
{
    if let Ok(prefix) = auxiliary_prefix_outcome(profile, ordinal, a) {
        keys_are_marked();
        auxiliary_keys_are_marked();
        decimal_reads_back(a.logical_size as nat);
        let size = a.stored_size() as u64;
        decimal_reads_back(size as nat);
        let declared = auxiliary_records_of(profile, a);
        let (records, header_size) = crate::member::placed_number(
            declared.union_prefer_right(a.meta),
            text("size"),
            12,
            size,
        );
        let label = crate::member::numbered_label("TZAP-PAX/AUX/", ordinal);
        let head = headed_by_records(profile, label, records)->Ok_0;
        let own = crate::member::numbered_label("TZAP-AUX/", ordinal);
        plain_headers_read_back(own, header_size as int, 0, 0, 90);
        let header = crate::tar::ustar_header_outcome(own, header_size as int, 0, 0, 90)->Ok_0;
        records_are_found(profile, label, records, header);
        let at = head.len() as int;
        assert(prefix.bytes =~= head + header);
        assert(prefix.bytes.subrange(at, at + 512) =~= header);
        let meta = a.meta;
        assert(!meta.dom().contains(text("TZAP.aux.version"))) by {
            assert(declared.dom().contains(text("TZAP.aux.version")));
        }
        assert(forall|key: Seq<u8>| #[trigger]
            declared.dom().contains(key) ==> !meta.dom().contains(key));
        assert(forall|key: Seq<u8>| #[trigger]
            declared.dom().contains(key) ==> records.dom().contains(key) && records[key]
                == declared[key]) by {
            assert(!declared.dom().contains(text("size")));
        }
        assert(declared.dom().contains(text("TZAP.aux.kind")));
        assert(declared.dom().contains(text("TZAP.aux.profile")));
        assert(declared.dom().contains(text("TZAP.aux.restore-class")));
        assert(declared.dom().contains(text("TZAP.aux.native")));
        assert(declared.dom().contains(text("TZAP.aux.name-encoding")));
        assert(declared.dom().contains(text("TZAP.aux.name")));
        assert(declared.dom().contains(text("TZAP.aux.flags")));
        assert(declared.dom().contains(text("TZAP.aux.logical-size")));
        assert(declared.dom().contains(text("TZAP.aux.sha256")));
        assert(tells_of_the_payload(profile, records, a));
        assert(auxiliary_tells_of(profile, prefix.bytes, records, at, a));
    }
}

} // verus!
