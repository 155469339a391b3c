//! Reading the flags of a file entry: each of them tells one thing of the file.
use crate::entry_flags::{
    any_sparse_auxiliary, bit_if, carries_native_metadata, entry_flags, has_capture_report,
    needs_system_restore,
};
use crate::metadata::{PortableValue, AUXILIARY_SPARSE_FLAG};
use crate::profile::{EntryFlagBits, MetadataProfile, CAPTURE_REPORT_KIND};
use vstd::prelude::*;

verus! {

/// Whether the flags of a profile are told apart: each has a bit, and no two share one.
pub open spec fn flags_are_apart(b: EntryFlagBits) -> bool {
    &&& b.extended_metadata_v1 != 0
    &&& b.capture_partial != 0
    &&& b.has_auxiliary_streams != 0
    &&& b.has_native_metadata != 0
    &&& b.has_sparse_extents != 0
    &&& b.requires_system_restore != 0
    &&& b.extended_metadata_v1 & b.capture_partial == 0
    &&& b.extended_metadata_v1 & b.has_auxiliary_streams == 0
    &&& b.extended_metadata_v1 & b.has_native_metadata == 0
    &&& b.extended_metadata_v1 & b.has_sparse_extents == 0
    &&& b.extended_metadata_v1 & b.requires_system_restore == 0
    &&& b.capture_partial & b.has_auxiliary_streams == 0
    &&& b.capture_partial & b.has_native_metadata == 0
    &&& b.capture_partial & b.has_sparse_extents == 0
    &&& b.capture_partial & b.requires_system_restore == 0
    &&& b.has_auxiliary_streams & b.has_native_metadata == 0
    &&& b.has_auxiliary_streams & b.has_sparse_extents == 0
    &&& b.has_auxiliary_streams & b.requires_system_restore == 0
    &&& b.has_native_metadata & b.has_sparse_extents == 0
    &&& b.has_native_metadata & b.requires_system_restore == 0
    &&& b.has_sparse_extents & b.requires_system_restore == 0
}

proof fn six_bits_are_told_apart(
    e: u32,
    c: u32,
    a: u32,
    n: u32,
    s: u32,
    r: u32,
    pc: u32,
    pa: u32,
    pn: u32,
    ps: u32,
    pr: u32,
)
    requires
        e & c == 0,
        e & a == 0,
        e & n == 0,
        e & s == 0,
        e & r == 0,
        c & a == 0,
        c & n == 0,
        c & s == 0,
        c & r == 0,
        a & n == 0,
        a & s == 0,
        a & r == 0,
        n & s == 0,
        n & r == 0,
        s & r == 0,
        pc == 0 || pc == c,
        pa == 0 || pa == a,
        pn == 0 || pn == n,
        ps == 0 || ps == s,
        pr == 0 || pr == r,
    ensures
        (e | pc | pa | pn | ps | pr) & e == e,
        (e | pc | pa | pn | ps | pr) & c == pc,
        (e | pc | pa | pn | ps | pr) & a == pa,
        (e | pc | pa | pn | ps | pr) & n == pn,
        (e | pc | pa | pn | ps | pr) & s == ps,
        (e | pc | pa | pn | ps | pr) & r == pr,
{
    assert(((e | pc | pa | pn | ps | pr) & e == e) && ((e | pc | pa | pn | ps | pr) & c == pc) && ((e | pc | pa | pn | ps | pr) & a == pa) && ((e | pc | pa | pn | ps | pr) & n == pn) && ((e | pc | pa | pn | ps | pr) & s == ps) && ((e | pc | pa | pn | ps | pr) & r == pr)) by (bit_vector)
        requires
            e & c == 0,
            e & a == 0,
            e & n == 0,
            e & s == 0,
            e & r == 0,
            c & a == 0,
            c & n == 0,
            c & s == 0,
            c & r == 0,
            a & n == 0,
            a & s == 0,
            a & r == 0,
            n & s == 0,
            n & r == 0,
            s & r == 0,
            pc == 0 || pc == c,
            pa == 0 || pa == a,
            pn == 0 || pn == n,
            ps == 0 || ps == s,
            pr == 0 || pr == r,
    ;
}

/// Each flag of an entry is set if and only if what it stands for holds of the file: a report of a
/// capture that missed something, an auxiliary payload, native metadata, holes in the file or in a
/// payload, and a need for the rights of the system. Every entry is marked as one with metadata.
pub proof fn flags_tell_of_the_file<P: MetadataProfile>(
    profile: &P,
    mode: u32,
    primary_sparse: bool,
    m: PortableValue,
)
    requires
        flags_are_apart(profile.flag_bits()),
    ensures
        ({
            let bits = profile.flag_bits();
            let aux = m.native.auxiliary_records;
            let flags = entry_flags(profile, mode, primary_sparse, m);
            &&& flags & bits.extended_metadata_v1 != 0
            &&& flags & bits.capture_partial != 0 <==> exists|i: int|
                0 <= i < aux.len() && (#[trigger] aux[i]).kind == CAPTURE_REPORT_KIND@
            &&& flags & bits.has_auxiliary_streams != 0 <==> aux.len() > 0
            &&& flags & bits.has_native_metadata != 0 <==> carries_native_metadata(profile, m)
            &&& flags & bits.has_sparse_extents != 0 <==> primary_sparse || exists|i: int|
                0 <= i < aux.len() && (#[trigger] aux[i]).flags & AUXILIARY_SPARSE_FLAG != 0
            &&& flags & bits.requires_system_restore != 0 <==> needs_system_restore(mode, m)
        }),
{
    let b = profile.flag_bits();
    let aux = m.native.auxiliary_records;
    six_bits_are_told_apart(
        b.extended_metadata_v1,
        b.capture_partial,
        b.has_auxiliary_streams,
        b.has_native_metadata,
        b.has_sparse_extents,
        b.requires_system_restore,
        bit_if(has_capture_report(aux), b.capture_partial),
        bit_if(aux.len() != 0, b.has_auxiliary_streams),
        bit_if(carries_native_metadata(profile, m), b.has_native_metadata),
        bit_if(primary_sparse || any_sparse_auxiliary(aux), b.has_sparse_extents),
        bit_if(needs_system_restore(mode, m), b.requires_system_restore),
    );
}

} // verus!
