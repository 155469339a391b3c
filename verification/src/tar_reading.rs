//! Reading the header of a member: a file is restored from it as it was described.
use crate::bytes::{
    be_bytes, decimal_reads_back, digits_value, fixed_digits_len, fixed_digits_read_back, overlay,
    zeros,
};
use crate::entry_flags::has_capture_report;
use crate::errors::FormatError;
use crate::member::{
    device_header, device_number, header_path, linked_header, merged_native, origin_records,
    overrides_path, owned_header, placed_mtime, placed_owner, primary_header, primary_records,
    type_flag, with_sparse, with_status_and_link, with_times, IdentityValue, PrimaryRecords,
    PrimaryValue, Records,
};
use crate::metadata::{
    no_native, ArchiveTimestamp, NativeValue, OwnerValue, PortableModeOrigin, PortableValue,
    SourceEntryKind, TarEntryKind,
};
use crate::profile::MetadataProfile;
use crate::tar::{
    blank_checksum, byte_sum, octal_field, octal_field_reads_back, octal_fits, ustar_fields,
    ustar_header_outcome, ustar_magic, with_checksum,
};
use crate::text::{hex_text, starts_with, text};
use vstd::arithmetic::power::pow;
use vstd::prelude::*;

verus! {

// ---------------------------------------------------------------------------------------------
// Fields
// ---------------------------------------------------------------------------------------------

/// What stands in front of the first zero byte.
pub open spec fn until_zero(s: Seq<u8>) -> Seq<u8>
    decreases s.len(),
{
    if s.len() == 0 || s[0] == 0 {
        Seq::empty()
    } else {
        seq![s[0]] + until_zero(s.skip(1))
    }
}

/// The text in a field of a header.
pub open spec fn text_in(header: Seq<u8>, at: int, len: int) -> Seq<u8> {
    until_zero(header.subrange(at, at + len))
}

/// The number in a field of a header: octal digits, and a zero byte behind them.
pub open spec fn number_in(header: Seq<u8>, at: int, len: int) -> int {
    digits_value(header.subrange(at, at + len - 1), 8)
}

/// Whether the checksum of a header is the sum of its bytes, those of the checksum taken as spaces.
pub open spec fn checksum_holds(header: Seq<u8>) -> bool {
    digits_value(header.subrange(148, 154), 8) == byte_sum(blank_checksum(header))
}

proof fn texts_end_at_zero(name: Seq<u8>, n: int)
    requires
        n >= 0,
        !name.contains(0u8),
    ensures
        until_zero(name + zeros(n)) == name,
    decreases name.len(),
{
    let all = name + zeros(n);
    if name.len() == 0 {
        assert(until_zero(all) =~= name);
    } else {
        assert(name[0] != 0) by {
            assert(name.contains(name[0]));
        }
        let rest = name.skip(1);
        assert(!rest.contains(0u8)) by {
            if rest.contains(0u8) {
                let k = choose|k: int| 0 <= k < rest.len() && rest[k] == 0;
                assert(name[k + 1] == 0);
            }
        }
        texts_end_at_zero(rest, n);
        assert(all.skip(1) =~= rest + zeros(n));
        assert(seq![name[0]] + rest =~= name);
    }
}

/// The checksum is right, and changes nothing outside its field.
proof fn checksums_stay_apart(s: Seq<u8>, from: int, to: int)
    requires
        s.len() == 512,
        0 <= from <= to <= 512,
        to <= 148 || 156 <= from,
    ensures
        with_checksum(s).len() == 512,
        with_checksum(s).subrange(from, to) == s.subrange(from, to),
        checksum_holds(with_checksum(s)),
{
    let blank = blank_checksum(s);
    let sum = byte_sum(blank);
    crate::tar::byte_sum_bound(blank);
    crate::tar::six_octal_digits();
    fixed_digits_len(sum, 8, 6);
    fixed_digits_read_back(sum, 8, 6);
    let h = with_checksum(s);
    assert(h.subrange(from, to) =~= s.subrange(from, to));
    assert(h.subrange(148, 154) =~= crate::bytes::fixed_digits(sum, 8, 6));
    assert(blank_checksum(h) =~= blank);
}

// ---------------------------------------------------------------------------------------------
// Headers
// ---------------------------------------------------------------------------------------------

/// Whether a header names its member, tells its mode, its size, its time and its type, and holds no
/// link.
spec fn is_basic_header(
    header: Seq<u8>,
    path: Seq<u8>,
    size: int,
    mode: int,
    mtime: int,
    typeflag: u8,
) -> bool {
    &&& header.len() == 512
    &&& header.subrange(0, 100) == path + zeros(100 - path.len())
    &&& number_in(header, 100, 8) == mode
    &&& number_in(header, 124, 12) == size
    &&& number_in(header, 136, 12) == mtime
    &&& header.subrange(156, 157) == seq![typeflag]
    &&& header.subrange(157, 257) == zeros(100)
    &&& header.subrange(257, 265) == ustar_magic()
}

#[verifier::rlimit(60)]
proof fn fields_are_basic(path: Seq<u8>, size: int, mode: int, mtime: int, typeflag: u8)
    requires
        path.len() <= 100,
        size >= 0,
        mode >= 0,
        mtime >= 0,
        octal_fits(8, mode),
        octal_fits(12, size),
        octal_fits(12, mtime),
    ensures
        is_basic_header(
            ustar_fields(path, size, mode, mtime, typeflag),
            path,
            size,
            mode,
            mtime,
            typeflag,
        ),
{
    octal_field_reads_back(8, mode);
    octal_field_reads_back(12, size);
    octal_field_reads_back(12, mtime);
    fixed_digits_len(0, 8, 7);
    let h = ustar_fields(path, size, mode, mtime, typeflag);
    assert(h.subrange(0, 100) =~= path + zeros(100 - path.len()));
    assert(h.subrange(100, 107) =~= octal_field(8, mode).drop_last());
    assert(h.subrange(124, 135) =~= octal_field(12, size).drop_last());
    assert(h.subrange(136, 147) =~= octal_field(12, mtime).drop_last());
    assert(h.subrange(156, 157) =~= seq![typeflag]);
    assert(h.subrange(157, 257) =~= zeros(100));
    assert(h.subrange(257, 265) =~= ustar_magic());
}

/// Whether two headers agree but in given parts: the owner, the link, the devices and the checksum.
spec fn agree_in(a: Seq<u8>, b: Seq<u8>, from: int, to: int) -> bool {
    a.subrange(from, to) == b.subrange(from, to)
}

/// The type, the mode, the size and the time, the magic, and the name in a header.
spec fn keeps_the_rest(a: Seq<u8>, b: Seq<u8>) -> bool {
    &&& b.len() == 512
    &&& agree_in(a, b, 0, 100)
    &&& agree_in(a, b, 100, 107)
    &&& agree_in(a, b, 124, 135)
    &&& agree_in(a, b, 136, 147)
    &&& agree_in(a, b, 156, 157)
    &&& agree_in(a, b, 257, 265)
}

proof fn checksums_keep_the_rest(s: Seq<u8>)
    requires
        s.len() == 512,
    ensures
        keeps_the_rest(s, with_checksum(s)),
        agree_in(s, with_checksum(s), 157, 257),
        agree_in(s, with_checksum(s), 108, 115),
        agree_in(s, with_checksum(s), 116, 123),
        agree_in(s, with_checksum(s), 265, 297),
        agree_in(s, with_checksum(s), 297, 329),
        agree_in(s, with_checksum(s), 329, 336),
        agree_in(s, with_checksum(s), 337, 344),
        checksum_holds(with_checksum(s)),
{
    checksums_stay_apart(s, 0, 100);
    checksums_stay_apart(s, 100, 107);
    checksums_stay_apart(s, 124, 135);
    checksums_stay_apart(s, 136, 147);
    checksums_stay_apart(s, 156, 157);
    checksums_stay_apart(s, 257, 265);
    checksums_stay_apart(s, 157, 257);
    checksums_stay_apart(s, 108, 115);
    checksums_stay_apart(s, 116, 123);
    checksums_stay_apart(s, 265, 297);
    checksums_stay_apart(s, 297, 329);
    checksums_stay_apart(s, 329, 336);
    checksums_stay_apart(s, 337, 344);
}

/// A header for a member without an owner reads back: its size, its mode, its time and its type, and
/// its checksum holds.
pub proof fn plain_headers_read_back(path: Seq<u8>, size: int, mode: int, mtime: int, typeflag: u8)
    requires
        size >= 0,
        mode >= 0,
        mtime >= 0,
    ensures
        ustar_header_outcome(path, size, mode, mtime, typeflag) matches Ok(h) ==> {
            &&& h.len() == 512
            &&& checksum_holds(h)
            &&& number_in(h, 100, 8) == mode
            &&& number_in(h, 124, 12) == size
            &&& number_in(h, 136, 12) == mtime
            &&& h[156] == typeflag
            &&& h.subrange(257, 265) == ustar_magic()
            &&& !path.contains(0u8) ==> text_in(h, 0, 100) == path
        },
{
    if let Ok(h) = ustar_header_outcome(path, size, mode, mtime, typeflag) {
        let fields = ustar_fields(path, size, mode, mtime, typeflag);
        fields_are_basic(path, size, mode, mtime, typeflag);
        checksums_keep_the_rest(fields);
        assert(h.subrange(156, 157)[0] == h[156]);
        assert(seq![typeflag][0] == typeflag);
        if !path.contains(0u8) {
            texts_end_at_zero(path, 100 - path.len());
        }
    }
}

/// The link in a header.
spec fn link_bytes(v: PrimaryValue) -> Seq<u8> {
    match v.link_target {
        Some(target) => if target.len() > 100 {
            Seq::empty()
        } else {
            target
        },
        None => Seq::empty(),
    }
}

#[verifier::rlimit(40)]
proof fn links_are_put_in(header: Seq<u8>, v: PrimaryValue)
    requires
        header.len() == 512,
        header.subrange(157, 257) == zeros(100),
        checksum_holds(header),
    ensures
        ({
            let h = linked_header(header, v);
            &&& keeps_the_rest(header, h)
            &&& h.subrange(157, 257) == link_bytes(v) + zeros(100 - link_bytes(v).len())
            &&& checksum_holds(h)
        }),
{
    let h = linked_header(header, v);
    let link = link_bytes(v);
    assert(zeros(100) =~= Seq::<u8>::empty() + zeros(100));
    if let Some(target) = v.link_target {
        if target.len() <= 100 {
            let put = overlay(header, 157, target);
            checksums_keep_the_rest(put);
            assert(put.subrange(0, 100) =~= header.subrange(0, 100));
            assert(put.subrange(100, 107) =~= header.subrange(100, 107));
            assert(put.subrange(124, 135) =~= header.subrange(124, 135));
            assert(put.subrange(136, 147) =~= header.subrange(136, 147));
            assert(put.subrange(156, 157) =~= header.subrange(156, 157));
            assert(put.subrange(257, 265) =~= header.subrange(257, 265));
            assert forall|i: int| 0 <= i < 100 implies put.subrange(157, 257)[i] == (target + zeros(
                100 - target.len(),
            ))[i] by {
                if i >= target.len() {
                    assert(header.subrange(157, 257)[i] == zeros(100)[i]);
                }
            }
            assert(put.subrange(157, 257) =~= target + zeros(100 - target.len()));
        }
    }
}

/// Whether a header tells of an owner.
spec fn is_owned_by(header: Seq<u8>, identity: IdentityValue) -> bool {
    &&& number_in(header, 108, 8) == identity.uid
    &&& number_in(header, 116, 8) == identity.gid
    &&& header.subrange(265, 297) == identity.uname + zeros(32 - identity.uname.len())
    &&& header.subrange(297, 329) == identity.gname + zeros(32 - identity.gname.len())
}

/// Whether the fields of an owner fit a header.
pub open spec fn owner_fits(identity: IdentityValue) -> bool {
    &&& octal_fits(8, identity.uid as int)
    &&& octal_fits(8, identity.gid as int)
    &&& identity.uname.len() <= 32
    &&& identity.gname.len() <= 32
    &&& !identity.uname.contains(0u8)
    &&& !identity.gname.contains(0u8)
}

#[verifier::rlimit(60)]
proof fn owners_are_put_in(header: Seq<u8>, identity: IdentityValue)
    requires
        header.len() == 512,
        owner_fits(identity),
    ensures
        ({
            let h = owned_header(header, identity);
            &&& keeps_the_rest(header, h)
            &&& agree_in(header, h, 157, 257)
            &&& is_owned_by(h, identity)
            &&& checksum_holds(h)
        }),
{
    octal_field_reads_back(8, identity.uid as int);
    octal_field_reads_back(8, identity.gid as int);
    let uid = octal_field(8, identity.uid as int);
    let gid = octal_field(8, identity.gid as int);
    let numbered = overlay(overlay(header, 108, uid), 116, gid);
    let user = overlay(overlay(numbered, 265, zeros(32)), 265, identity.uname);
    let group = overlay(overlay(user, 297, zeros(32)), 297, identity.gname);
    checksums_keep_the_rest(group);
    assert(group.subrange(108, 115) =~= uid.drop_last());
    assert(group.subrange(116, 123) =~= gid.drop_last());
    assert(group.subrange(265, 297) =~= identity.uname + zeros(32 - identity.uname.len()));
    assert(group.subrange(297, 329) =~= identity.gname + zeros(32 - identity.gname.len()));
    assert(group.subrange(0, 100) =~= header.subrange(0, 100));
    assert(group.subrange(100, 107) =~= header.subrange(100, 107));
    assert(group.subrange(124, 135) =~= header.subrange(124, 135));
    assert(group.subrange(136, 147) =~= header.subrange(136, 147));
    assert(group.subrange(156, 157) =~= header.subrange(156, 157));
    assert(group.subrange(157, 257) =~= header.subrange(157, 257));
    assert(group.subrange(257, 265) =~= header.subrange(257, 265));
}

/// Whether a member is a device.
pub open spec fn is_device(kind: SourceEntryKind) -> bool {
    kind == SourceEntryKind::CharacterDevice || kind == SourceEntryKind::BlockDevice
}

#[verifier::rlimit(60)]
proof fn devices_are_put_in(header: Seq<u8>, kind: SourceEntryKind, records: Records)
    requires
        header.len() == 512,
        checksum_holds(header),
    ensures
        device_header(header, kind, records) matches Ok(h) ==> {
            &&& keeps_the_rest(header, h)
            &&& agree_in(header, h, 157, 257)
            &&& agree_in(header, h, 108, 115)
            &&& agree_in(header, h, 116, 123)
            &&& agree_in(header, h, 265, 297)
            &&& agree_in(header, h, 297, 329)
            &&& checksum_holds(h)
            &&& is_device(kind) ==> {
                &&& device_number(records, text("TZAP.posix.device-major")) matches Ok(major)
                &&& octal_fits(8, major as int) ==> number_in(h, 329, 8) == major
                &&& device_number(records, text("TZAP.posix.device-minor")) matches Ok(minor)
                &&& octal_fits(8, minor as int) ==> number_in(h, 337, 8) == minor
            }
        },
{
    if is_device(kind) {
        if let Ok(h) = device_header(header, kind, records) {
            let major = device_number(records, text("TZAP.posix.device-major"))->Ok_0;
            let minor = device_number(records, text("TZAP.posix.device-minor"))->Ok_0;
            let first = crate::member::with_number_that_fits(header, 329, major);
            let put = crate::member::with_number_that_fits(first, 337, minor);
            fixed_digits_len(major as int, 8, 7);
            fixed_digits_len(minor as int, 8, 7);
            checksums_keep_the_rest(put);
            assert(put.subrange(0, 100) =~= header.subrange(0, 100));
            assert(put.subrange(100, 107) =~= header.subrange(100, 107));
            assert(put.subrange(124, 135) =~= header.subrange(124, 135));
            assert(put.subrange(136, 147) =~= header.subrange(136, 147));
            assert(put.subrange(156, 157) =~= header.subrange(156, 157));
            assert(put.subrange(157, 257) =~= header.subrange(157, 257));
            assert(put.subrange(257, 265) =~= header.subrange(257, 265));
            assert(put.subrange(108, 115) =~= header.subrange(108, 115));
            assert(put.subrange(116, 123) =~= header.subrange(116, 123));
            assert(put.subrange(265, 297) =~= header.subrange(265, 297));
            assert(put.subrange(297, 329) =~= header.subrange(297, 329));
            if octal_fits(8, major as int) {
                octal_field_reads_back(8, major as int);
                assert(put.subrange(329, 336) =~= octal_field(8, major as int).drop_last());
            }
            if octal_fits(8, minor as int) {
                octal_field_reads_back(8, minor as int);
                assert(put.subrange(337, 344) =~= octal_field(8, minor as int).drop_last());
            }
        }
    }
}

/// The kind of member that the type in a header stands for.
pub open spec fn kind_of_type(typeflag: u8) -> TarEntryKind {
    if typeflag == 49 {
        TarEntryKind::Hardlink
    } else if typeflag == 50 {
        TarEntryKind::Symlink
    } else if typeflag == 51 {
        TarEntryKind::CharacterDevice
    } else if typeflag == 52 {
        TarEntryKind::BlockDevice
    } else if typeflag == 53 {
        TarEntryKind::Directory
    } else if typeflag == 54 {
        TarEntryKind::Fifo
    } else {
        TarEntryKind::Regular
    }
}

/// The fields of the header of a member read back: its name, its mode, its size and time as far as
/// the header has them, its kind, its link, its owner's numbers and names, and its device numbers;
/// and its checksum holds.
pub proof fn primary_headers_read_back(v: PrimaryValue, p: PrimaryRecords)
    requires
        owner_fits(p.identity),
        !header_path(v).contains(0u8),
        v.link_target matches Some(target) ==> !target.contains(0u8),
    ensures
        primary_header(v, p) matches Ok(h) ==> {
            &&& h.len() == 512
            &&& checksum_holds(h)
            &&& text_in(h, 0, 100) == header_path(v)
            &&& number_in(h, 100, 8) == v.mode
            &&& number_in(h, 108, 8) == p.identity.uid
            &&& number_in(h, 116, 8) == p.identity.gid
            &&& number_in(h, 124, 12) == p.header_size
            &&& number_in(h, 136, 12) == p.header_mtime
            &&& kind_of_type(h[156]) == v.entry_kind.spec_tar_kind()
            &&& h.subrange(257, 265) == ustar_magic()
            &&& v.link_target matches Some(target) ==> (target.len() <= 100 ==> text_in(h, 157, 100)
                == target)
            &&& text_in(h, 265, 32) == p.identity.uname
            &&& text_in(h, 297, 32) == p.identity.gname
            &&& is_device(v.entry_kind) ==> {
                &&& device_number(p.records, text("TZAP.posix.device-major")) matches Ok(major)
                &&& octal_fits(8, major as int) ==> number_in(h, 329, 8) == major
                &&& device_number(p.records, text("TZAP.posix.device-minor")) matches Ok(minor)
                &&& octal_fits(8, minor as int) ==> number_in(h, 337, 8) == minor
            }
        },
{
    if let Ok(h) = primary_header(v, p) {
        let path = header_path(v);
        let size = p.header_size as int;
        let mode = v.mode as int;
        let mtime = p.header_mtime as int;
        let flag = type_flag(v.entry_kind);
        let fields = ustar_fields(path, size, mode, mtime, flag);
        fields_are_basic(path, size, mode, mtime, flag);
        let plain = with_checksum(fields);
        checksums_keep_the_rest(fields);
        links_are_put_in(plain, v);
        let linked = linked_header(plain, v);
        owners_are_put_in(linked, p.identity);
        let owned = owned_header(linked, p.identity);
        devices_are_put_in(owned, v.entry_kind, p.records);
        texts_end_at_zero(path, 100 - path.len());
        texts_end_at_zero(p.identity.uname, 32 - p.identity.uname.len());
        texts_end_at_zero(p.identity.gname, 32 - p.identity.gname.len());
        if v.link_target is Some {
            let link = link_bytes(v);
            if v.link_target->0.len() <= 100 {
                texts_end_at_zero(link, 100 - link.len());
            }
        }
        assert(h.subrange(156, 157)[0] == h[156]);
        assert(seq![flag][0] == flag);
    }
}

// ---------------------------------------------------------------------------------------------
// Records
// ---------------------------------------------------------------------------------------------

/// What tells the keys of the writer apart: their lengths and three of their characters.
pub open spec fn mark(key: Seq<char>) -> (int, char, char, char) {
    (key.len() as int, key[0], key[(3 * key.len() as int) / 4], key[key.len() - 1])
}

pub open spec fn key_mark(key: Seq<u8>) -> (int, char, char, char) {
    mark(vstd::utf8::decode_utf8(key))
}

pub(crate) proof fn mark_of_text(key: Seq<char>)
    ensures
        key_mark(vstd::utf8::encode_utf8(key)) == mark(key),
{
    vstd::utf8::encode_utf8_decode_utf8(key);
}

pub(crate) proof fn keys_are_marked()
    ensures
        key_mark(text("TZAP.metadata.source-filesystem")) == (31int, 'T', 'l', 'm'),
        key_mark(text("TZAP.portable.mode-origin")) == (25int, 'T', '-', 'n'),
        key_mark(text("TZAP.portable.attributes")) == (24int, 'T', 'i', 's'),
        key_mark(text("TZAP.portable.owner-kind")) == (24int, 'T', 'r', 'd'),
        key_mark(text("LIBARCHIVE.creationtime")) == (23int, 'L', 'o', 'e'),
        key_mark(text("atime")) == (5int, 'a', 'm', 'e'),
        key_mark(text("mtime")) == (5int, 'm', 'm', 'e'),
        key_mark(text("uname")) == (5int, 'u', 'm', 'e'),
        key_mark(text("gname")) == (5int, 'g', 'm', 'e'),
        key_mark(text("uid")) == (3int, 'u', 'd', 'd'),
        key_mark(text("gid")) == (3int, 'g', 'd', 'd'),
        key_mark(text("size")) == (4int, 's', 'e', 'e'),
        key_mark(text("linkpath")) == (8int, 'l', 't', 'h'),
        key_mark(text("GNU.sparse.major")) == (16int, 'G', 'a', 'r'),
        key_mark(text("GNU.sparse.minor")) == (16int, 'G', 'i', 'r'),
        key_mark(text("GNU.sparse.name")) == (15int, 'G', 'n', 'e'),
        key_mark(text("GNU.sparse.realsize")) == (19int, 'G', 'l', 'e'),
        key_mark(text("TZAP.metadata.capture-status")) == (28int, 'T', '-', 's'),
        key_mark(text("TZAP.metadata.required-profiles")) == (31int, 'T', 'p', 's'),
        key_mark(text("TZAP.metadata.optional-profiles")) == (31int, 'T', 'p', 's'),
{
    reveal_strlit("TZAP.metadata.source-filesystem");
    mark_of_text("TZAP.metadata.source-filesystem"@);
    reveal_strlit("TZAP.portable.mode-origin");
    mark_of_text("TZAP.portable.mode-origin"@);
    reveal_strlit("TZAP.portable.attributes");
    mark_of_text("TZAP.portable.attributes"@);
    reveal_strlit("TZAP.portable.owner-kind");
    mark_of_text("TZAP.portable.owner-kind"@);
    reveal_strlit("LIBARCHIVE.creationtime");
    mark_of_text("LIBARCHIVE.creationtime"@);
    reveal_strlit("atime");
    mark_of_text("atime"@);
    reveal_strlit("mtime");
    mark_of_text("mtime"@);
    reveal_strlit("uname");
    mark_of_text("uname"@);
    reveal_strlit("gname");
    mark_of_text("gname"@);
    reveal_strlit("uid");
    mark_of_text("uid"@);
    reveal_strlit("gid");
    mark_of_text("gid"@);
    reveal_strlit("size");
    mark_of_text("size"@);
    reveal_strlit("linkpath");
    mark_of_text("linkpath"@);
    reveal_strlit("GNU.sparse.major");
    mark_of_text("GNU.sparse.major"@);
    reveal_strlit("GNU.sparse.minor");
    mark_of_text("GNU.sparse.minor"@);
    reveal_strlit("GNU.sparse.name");
    mark_of_text("GNU.sparse.name"@);
    reveal_strlit("GNU.sparse.realsize");
    mark_of_text("GNU.sparse.realsize"@);
    reveal_strlit("TZAP.metadata.capture-status");
    mark_of_text("TZAP.metadata.capture-status"@);
    reveal_strlit("TZAP.metadata.required-profiles");
    mark_of_text("TZAP.metadata.required-profiles"@);
    reveal_strlit("TZAP.metadata.optional-profiles");
    mark_of_text("TZAP.metadata.optional-profiles"@);
}

/// Whether the records that every member starts from leave to the writer what it records itself.
pub open spec fn starts_bare<P: MetadataProfile>(profile: &P) -> bool {
    forall|path: Seq<u8>, mode: u32, source_os: Seq<char>, path_override: bool|
        (#[trigger] profile.base_records(path, mode, source_os, path_override)) matches Ok(base) ==> {
            &&& !base.dom().contains(text("uid"))
            &&& !base.dom().contains(text("gid"))
            &&& !base.dom().contains(text("uname"))
            &&& !base.dom().contains(text("gname"))
            &&& !base.dom().contains(text("mtime"))
            &&& !base.dom().contains(text("size"))
            &&& !base.dom().contains(text("linkpath"))
            &&& !base.dom().contains(text("TZAP.portable.owner-kind"))
        }
}

/// A number of a member: from the records, if they have it, else from the header.
pub open spec fn number_of(records: Records, key: Seq<u8>, header: Seq<u8>, at: int, len: int) -> int {
    if records.dom().contains(key) {
        digits_value(records[key], 10)
    } else {
        number_in(header, at, len)
    }
}

/// A text of a member: from the records, if they have it, else from the header.
pub open spec fn text_of(records: Records, key: Seq<u8>, header: Seq<u8>, at: int, len: int) -> Seq<
    u8,
> {
    if records.dom().contains(key) {
        records[key]
    } else {
        text_in(header, at, len)
    }
}

/// A name as it is stored, or nothing.
pub open spec fn stored_name(name: Option<Seq<char>>) -> Seq<u8> {
    match name {
        Some(n) => vstd::utf8::encode_utf8(n),
        None => Seq::empty(),
    }
}

/// Whether the header and the records of a member tell of the owner of a file.
pub open spec fn tells_of_the_owner(header: Seq<u8>, records: Records, owner: Option<OwnerValue>) -> bool {
    &&& owner is Some <==> records.dom().contains(text("TZAP.portable.owner-kind"))
    &&& match owner {
        Some(o) => {
            &&& records[text("TZAP.portable.owner-kind")] == text("posix")
            &&& number_of(records, text("uid"), header, 108, 8) == o.uid
            &&& number_of(records, text("gid"), header, 116, 8) == o.gid
            &&& text_of(records, text("uname"), header, 265, 32) == stored_name(o.uname)
            &&& text_of(records, text("gname"), header, 297, 32) == stored_name(o.gname)
        },
        None => {
            &&& number_of(records, text("uid"), header, 108, 8) == 0
            &&& number_of(records, text("gid"), header, 116, 8) == 0
            &&& text_of(records, text("uname"), header, 265, 32) == Seq::<u8>::empty()
            &&& text_of(records, text("gname"), header, 297, 32) == Seq::<u8>::empty()
        },
    }
}

/// Whether the records of a member tell of the times of a file, as a profile writes them.
pub open spec fn tells_of_the_times<P: MetadataProfile>(
    profile: &P,
    header: Seq<u8>,
    records: Records,
    v: PrimaryValue,
) -> bool {
    let m = v.metadata;
    &&& if records.dom().contains(text("mtime")) {
        profile.timestamp_text(v.mtime) == Ok::<Seq<u8>, FormatError>(records[text("mtime")])
    } else {
        v.mtime == (ArchiveTimestamp {
            seconds: number_in(header, 136, 12) as i64,
            nanoseconds: 0,
        })
    }
    &&& m.created matches Some(t) ==> {
        &&& records.dom().contains(text("LIBARCHIVE.creationtime"))
        &&& profile.timestamp_text(t) == Ok::<Seq<u8>, FormatError>(
            records[text("LIBARCHIVE.creationtime")],
        )
    }
    &&& m.accessed matches Some(t) ==> {
        &&& records.dom().contains(text("atime"))
        &&& profile.timestamp_text(t) == Ok::<Seq<u8>, FormatError>(records[text("atime")])
    }
}

/// Whether the records of a member tell where a file comes from, whether it has holes, and what could
/// not be captured.
pub open spec fn tells_of_the_origin(records: Records, v: PrimaryValue) -> bool {
    let m = v.metadata;
    &&& records.dom().contains(text("TZAP.metadata.source-filesystem"))
    &&& records[text("TZAP.metadata.source-filesystem")] == vstd::utf8::encode_utf8(
        m.source_filesystem,
    )
    &&& records.dom().contains(text("TZAP.portable.mode-origin"))
    &&& m.mode_origin == PortableModeOrigin::Native ==> records[text("TZAP.portable.mode-origin")]
        == text("native")
    &&& m.mode_origin == PortableModeOrigin::Projected ==> records[text(
        "TZAP.portable.mode-origin",
    )] == text("projected")
    &&& m.attributes matches Some(a) ==> {
        &&& records.dom().contains(text("TZAP.portable.attributes"))
        &&& records[text("TZAP.portable.attributes")] == hex_text(be_bytes(a as int, 4))
    }
    &&& v.sparse_extents is Some ==> {
        &&& records.dom().contains(text("GNU.sparse.major"))
        &&& records[text("GNU.sparse.major")] == text("1")
        &&& records.dom().contains(text("GNU.sparse.minor"))
        &&& records[text("GNU.sparse.minor")] == text("0")
        &&& records.dom().contains(text("GNU.sparse.name"))
        &&& records[text("GNU.sparse.name")] == v.path
        &&& records.dom().contains(text("GNU.sparse.realsize"))
        &&& digits_value(records[text("GNU.sparse.realsize")], 10) == v.file_size
    }
    &&& has_capture_report(m.native.auxiliary_records) ==> {
        &&& records.dom().contains(text("TZAP.metadata.capture-status"))
        &&& records[text("TZAP.metadata.capture-status")] == text("partial")
    }
}

/// Whether records are those that a file brings, under their own keys.
pub open spec fn keeps_native_records(records: Records, native: Records) -> bool {
    forall|key: Seq<u8>| #[trigger]
        native.dom().contains(key) ==> records.dom().contains(key) && records[key] == native[key]
}

proof fn sub_texts_start_alike()
    ensures
        starts_with(text("TZAP.metadata.capture-status"), text("TZAP.metadata.")),
        starts_with(text("TZAP.portable.owner-kind"), text("TZAP.portable.")),
{
    reveal_strlit("TZAP.metadata.capture-status");
    reveal_strlit("TZAP.metadata.");
    reveal_strlit("TZAP.portable.owner-kind");
    reveal_strlit("TZAP.portable.");
    vstd::utf8::is_ascii_chars_encode_utf8("TZAP.metadata.capture-status"@);
    vstd::utf8::is_ascii_chars_encode_utf8("TZAP.metadata."@);
    vstd::utf8::is_ascii_chars_encode_utf8("TZAP.portable.owner-kind"@);
    vstd::utf8::is_ascii_chars_encode_utf8("TZAP.portable."@);
    let a = text("TZAP.metadata.capture-status");
    let b = text("TZAP.metadata.");
    assert forall|i: int| 0 <= i < b.len() implies a[i] == b[i] by {
        assert("TZAP.metadata.capture-status"@[i] == "TZAP.metadata."@[i]);
    }
    assert(a.take(b.len() as int) =~= b);
    let c = text("TZAP.portable.owner-kind");
    let d = text("TZAP.portable.");
    assert forall|i: int| 0 <= i < d.len() implies c[i] == d[i] by {
        assert("TZAP.portable.owner-kind"@[i] == "TZAP.portable."@[i]);
    }
    assert(c.take(d.len() as int) =~= d);
}

/// Whether records hold nothing that the header of a member is to tell.
spec fn leaves_the_header(records: Records) -> bool {
    &&& !records.dom().contains(text("uid"))
    &&& !records.dom().contains(text("gid"))
    &&& !records.dom().contains(text("uname"))
    &&& !records.dom().contains(text("gname"))
    &&& !records.dom().contains(text("mtime"))
    &&& !records.dom().contains(text("size"))
    &&& !records.dom().contains(text("linkpath"))
    &&& !records.dom().contains(text("TZAP.portable.owner-kind"))
}

proof fn native_records_leave_the_header(declared: Records, native: NativeValue)
    ensures
        merged_native(declared, native) is Ok ==> leaves_the_header(native.primary_pax_records),
{
    sub_texts_start_alike();
    if merged_native(declared, native) is Ok && native != no_native() {
        let keys = crate::text::texts(crate::member::writer_keys());
        assert(crate::member::writer_keys()[1] == "linkpath" && keys[1] == text("linkpath"));
        assert(crate::member::writer_keys()[2] == "size" && keys[2] == text("size"));
        assert(crate::member::writer_keys()[3] == "uid" && keys[3] == text("uid"));
        assert(crate::member::writer_keys()[4] == "gid" && keys[4] == text("gid"));
        assert(crate::member::writer_keys()[5] == "uname" && keys[5] == text("uname"));
        assert(crate::member::writer_keys()[6] == "gname" && keys[6] == text("gname"));
        assert(crate::member::writer_keys()[7] == "mtime" && keys[7] == text("mtime"));
    }
}

/// What the records say before the header is settled.
spec fn tells_early<P: MetadataProfile>(profile: &P, records: Records, v: PrimaryValue) -> bool {
    let m = v.metadata;
    &&& tells_of_the_origin(
        records,
        PrimaryValue {
            metadata: PortableValue {
                native: NativeValue { auxiliary_records: Seq::empty(), ..m.native },
                ..m
            },
            ..v
        },
    )
    &&& m.created matches Some(t) ==> {
        &&& records.dom().contains(text("LIBARCHIVE.creationtime"))
        &&& profile.timestamp_text(t) == Ok::<Seq<u8>, FormatError>(
            records[text("LIBARCHIVE.creationtime")],
        )
    }
    &&& m.accessed matches Some(t) ==> {
        &&& records.dom().contains(text("atime"))
        &&& profile.timestamp_text(t) == Ok::<Seq<u8>, FormatError>(records[text("atime")])
    }
    &&& keeps_native_records(records, m.native.primary_pax_records)
    &&& leaves_the_header(records)
}

#[verifier::rlimit(60)]
proof fn early_records_tell<P: MetadataProfile>(profile: &P, v: PrimaryValue, base: Records)
    requires
        leaves_the_header(base),
    ensures
        with_times(profile, origin_records(base, v.metadata), v.metadata) matches Ok(timed) ==> (
        merged_native(with_sparse(timed, v), v.metadata.native) matches Ok(merged) ==> tells_early(
            profile,
            merged,
            v,
        )),
{
    keys_are_marked();
    let m = v.metadata;
    if let Ok(timed) = with_times(profile, origin_records(base, m), m) {
        if let Ok(merged) = merged_native(with_sparse(timed, v), m.native) {
            native_records_leave_the_header(with_sparse(timed, v), m.native);
            decimal_reads_back(v.file_size as nat);
            let declared = with_sparse(timed, v);
            assert(leaves_the_header(declared));
            let native = m.native.primary_pax_records;
            assert(!native.dom().contains(text("TZAP.metadata.source-filesystem")));
            assert(!native.dom().contains(text("TZAP.portable.mode-origin")));
        }
    }
}

/// Whether what the records said early they still say.
spec fn keeps_early(before: Records, after: Records) -> bool {
    forall|key: Seq<u8>| #[trigger]
        before.dom().contains(key) && key != text("TZAP.metadata.capture-status")
            ==> after.dom().contains(key) && after[key] == before[key]
}

proof fn owners_fit(records: Records, owner: Option<OwnerValue>)
    ensures
        placed_owner(records, owner) matches Ok((after, identity)) ==> owner_fits(identity),
{
    crate::member::zero_fits_a_field(8);
}

#[verifier::rlimit(60)]
proof fn owners_are_told(records: Records, owner: Option<OwnerValue>, header: Seq<u8>)
    requires
        leaves_the_header(records),
    ensures
        placed_owner(records, owner) matches Ok((after, identity)) ==> {
            &&& keeps_early(records, after)
            &&& !after.dom().contains(text("mtime"))
            &&& !after.dom().contains(text("size"))
            &&& after.dom().contains(text("TZAP.metadata.capture-status")) <==> records.dom().contains(
                text("TZAP.metadata.capture-status"),
            )
            &&& after[text("TZAP.metadata.capture-status")] == records[text(
                "TZAP.metadata.capture-status",
            )]
            &&& !after.dom().contains(text("linkpath"))
            &&& number_in(header, 108, 8) == identity.uid && number_in(header, 116, 8)
                == identity.gid && text_in(header, 265, 32) == identity.uname && text_in(
                header,
                297,
                32,
            ) == identity.gname ==> tells_of_the_owner(header, after, owner)
        },
{
    keys_are_marked();
    if let Some(o) = owner {
        decimal_reads_back(o.uid as nat);
        decimal_reads_back(o.gid as nat);
    }
}

proof fn fixed_names_have_no_zero()
    ensures
        !text("GNUSparseFile.0/TZAP").contains(0u8),
        !text("TZAP-PRIMARY").contains(0u8),
{
    reveal_strlit("GNUSparseFile.0/TZAP");
    reveal_strlit("TZAP-PRIMARY");
    vstd::utf8::is_ascii_chars_encode_utf8("GNUSparseFile.0/TZAP"@);
    vstd::utf8::is_ascii_chars_encode_utf8("TZAP-PRIMARY"@);
    assert forall|i: int| 0 <= i < text("GNUSparseFile.0/TZAP").len() implies text(
        "GNUSparseFile.0/TZAP",
    )[i] != 0 by {
        assert("GNUSparseFile.0/TZAP"@[i] as u8 != 0);
    }
    assert forall|i: int| 0 <= i < text("TZAP-PRIMARY").len() implies text("TZAP-PRIMARY")[i]
        != 0 by {
        assert("TZAP-PRIMARY"@[i] as u8 != 0);
    }
}

/// Whether the header and the records of a member tell of a file, so that it can be restored.
pub open spec fn tells_of_the_file<P: MetadataProfile>(
    profile: &P,
    header: Seq<u8>,
    records: Records,
    v: PrimaryValue,
    stored_size: u64,
) -> bool {
    &&& header.len() == 512
    &&& checksum_holds(header)
    &&& header.subrange(257, 265) == ustar_magic()
    &&& kind_of_type(header[156]) == v.entry_kind.spec_tar_kind()
    &&& number_in(header, 100, 8) == v.mode
    &&& number_of(records, text("size"), header, 124, 12) == stored_size
    &&& v.sparse_extents is None && v.path.len() <= 100 ==> text_in(header, 0, 100) == v.path
    &&& v.link_target matches Some(target) ==> text_of(records, text("linkpath"), header, 157, 100)
        == target
    &&& tells_of_the_owner(header, records, v.metadata.posix_owner)
    &&& tells_of_the_times(profile, header, records, v)
    &&& tells_of_the_origin(records, v)
    &&& keeps_native_records(records, v.metadata.native.primary_pax_records)
    &&& is_device(v.entry_kind) ==> {
        &&& device_number(records, text("TZAP.posix.device-major")) matches Ok(major)
        &&& octal_fits(8, major as int) ==> number_in(header, 329, 8) == major
        &&& device_number(records, text("TZAP.posix.device-minor")) matches Ok(minor)
        &&& octal_fits(8, minor as int) ==> number_in(header, 337, 8) == minor
    }
}

/// A file is restored from its member: the header and the records in front of it tell its kind, name,
/// mode, size, times, link, owner, devices and origin as they were described, and carry every native
/// record of it.
#[verifier::rlimit(60)]
pub proof fn members_tell_of_their_files<P: MetadataProfile>(
    profile: &P,
    v: PrimaryValue,
    stored_size: u64,
    p: PrimaryRecords,
    h: Seq<u8>,
)
    requires
        starts_bare(profile),
        !v.path.contains(0u8),
        v.link_target matches Some(target) ==> !target.contains(0u8),
        primary_records(profile, v, stored_size) == Ok::<PrimaryRecords, FormatError>(p),
        primary_header(v, p) == Ok::<Seq<u8>, FormatError>(h),
    ensures
        tells_of_the_file(profile, h, p.records, v, stored_size),
{
    let m = v.metadata;
    let base = profile.base_records(v.path, v.mode, m.source_os, overrides_path(v))->Ok_0;
    let timed = with_times(profile, origin_records(base, m), m)->Ok_0;
    let merged = merged_native(with_sparse(timed, v), m.native)->Ok_0;
    early_records_tell(profile, v, base);
    let linked = with_status_and_link(merged, v);
    let (owned, identity) = placed_owner(linked, m.posix_owner)->Ok_0;
    let (dated, header_mtime) = placed_mtime(profile, owned, v.mtime)->Ok_0;
    keys_are_marked();
    fixed_names_have_no_zero();
    owners_fit(linked, m.posix_owner);
    primary_headers_read_back(v, p);
    decimal_reads_back(stored_size as nat);
    sub_texts_start_alike();
    // The link is put in after what the header leaves to the records.
    let bare = linked.remove(text("linkpath"));
    assert(leaves_the_header(bare));
    let target = v.link_target;
    let native = m.native.primary_pax_records;
    assert(native.dom().contains(text("TZAP.metadata.capture-status")) ==> false) by {
        native_records_leave_the_header(with_sparse(timed, v), m.native);
    }
    owners_are_told(bare, m.posix_owner, h);
    owners_ignore_links(linked, m.posix_owner);
    let told = placed_owner(bare, m.posix_owner)->Ok_0.0;
    assert(owned.remove(text("linkpath")) =~= told);
    assert(tells_of_the_owner(h, told, m.posix_owner));
    assert(tells_of_the_owner(h, owned, m.posix_owner));
    assert(keeps_early(merged, p.records)) by {
        assert(keeps_early(merged, linked));
        assert forall|key: Seq<u8>| #[trigger]
            merged.dom().contains(key) && key != text(
                "TZAP.metadata.capture-status",
            ) implies p.records.dom().contains(key) && p.records[key] == merged[key] by {
            assert(bare.dom().contains(key) && bare[key] == merged[key]);
            assert(told.dom().contains(key) && told[key] == merged[key]);
            assert(owned.dom().contains(key) && owned[key] == merged[key]);
        }
    }
    assert(tells_of_the_owner(h, p.records, m.posix_owner));
    assert(keeps_native_records(p.records, native));
    assert(p.records.dom().contains(text("linkpath")) <==> linked.dom().contains(text("linkpath")));
    assert(p.records[text("linkpath")] == linked[text("linkpath")]);
}

proof fn owners_ignore_links(records: Records, owner: Option<OwnerValue>)
    ensures
        ({
            let bare = records.remove(text("linkpath"));
            match (placed_owner(records, owner), placed_owner(bare, owner)) {
                (Ok((a, i)), Ok((b, j))) => {
                    &&& i == j
                    &&& b == a.remove(text("linkpath"))
                    &&& a.dom().contains(text("linkpath")) <==> records.dom().contains(
                        text("linkpath"),
                    )
                    &&& a[text("linkpath")] == records[text("linkpath")]
                },
                (Err(e), Err(f)) => e == f,
                _ => false,
            }
        }),
{
    keys_are_marked();
    let bare = records.remove(text("linkpath"));
    if let (Ok((a, _)), Ok((b, _))) = (placed_owner(records, owner), placed_owner(bare, owner)) {
        assert(b =~= a.remove(text("linkpath")));
    }
}

} // verus!
