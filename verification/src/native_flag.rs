//! What the index says of native metadata agrees with what the header of a member declares.
use crate::bytes::{lex_lt, lex_lt_is_total, lex_lt_is_transitive};
use crate::entry_flags::{any_other_profile, bit_if, carries_native_metadata, entry_flags};
use crate::member::{
    merged_native, origin_records, overrides_path, placed_mtime, placed_owner, posix_profiles,
    primary_records, profile_names, with_sparse, with_status_and_link, with_times, PrimaryValue,
    Records,
};
use crate::metadata::{no_native, PortableValue};
use crate::profile::{EntryFlagBits, MetadataProfile, PORTABLE_PROFILE};
use crate::text::{ascends, in_byte_order, joined, text};
use vstd::prelude::*;
use vstd::utf8::encode_utf8;

verus! {

/// The record that names the profiles a reader must know.
pub open spec fn required_key() -> Seq<u8> {
    text("TZAP.metadata.required-profiles")
}

/// The record that names the profiles a reader may know.
pub open spec fn optional_key() -> Seq<u8> {
    text("TZAP.metadata.optional-profiles")
}

/// Whether records declare profiles beyond the portable one.
pub open spec fn declares_more(records: Records) -> bool {
    ||| records.dom().contains(required_key()) && records[required_key()] != text(PORTABLE_PROFILE)
    ||| records.dom().contains(optional_key()) && records[optional_key()].len() > 0
}

/// Whether every member starts from records of the portable profile.
pub open spec fn starts_portable<P: MetadataProfile>(profile: &P) -> bool {
    forall|path: Seq<u8>, mode: u32, source_os: Seq<char>, path_override: bool| #[trigger]
        profile.base_records(path, mode, source_os, path_override) matches Ok(base)
            ==> !declares_more(base)
}

/// Whether native metadata names the profiles that it belongs to, and no optional profile is
/// without a name.
pub open spec fn names_its_profiles<P: MetadataProfile>(profile: &P, m: PortableValue) -> bool {
    let native = m.native;
    native != no_native() ==> {
        &&& carries_native_metadata(profile, m) ==> any_other_profile(native.required_profiles)
            || any_other_profile(native.optional_profiles)
        &&& forall|i: int|
            0 <= i < native.optional_profiles.len() ==> (
            #[trigger] native.optional_profiles[i]).len() > 0
    }
}

// ---------------------------------------------------------------------------------------------
// Lists of names
// ---------------------------------------------------------------------------------------------

/// A list in byte order with a name put in its place.
spec fn with_name(s: Seq<Seq<u8>>, name: Seq<u8>) -> Seq<Seq<u8>>
    decreases s.len(),
{
    if s.len() == 0 || lex_lt(s.last(), name) {
        s.push(name)
    } else if s.last() == name {
        s
    } else {
        with_name(s.drop_last(), name).push(s.last())
    }
}

proof fn names_find_their_place(s: Seq<Seq<u8>>, name: Seq<u8>)
    requires
        ascends(s),
    ensures
        ascends(with_name(s, name)),
        forall|x: Seq<u8>| #[trigger] with_name(s, name).contains(x) <==> s.contains(x) || x == name,
    decreases s.len(),
{
    let t = with_name(s, name);
    if s.len() == 0 || lex_lt(s.last(), name) {
        assert forall|i: int, j: int| 0 <= i < j < t.len() implies lex_lt(
            #[trigger] t[i],
            #[trigger] t[j],
        ) by {
            if j == s.len() && i < s.len() - 1 {
                assert(lex_lt(s[i], s[s.len() - 1]));
                lex_lt_is_transitive(s[i], s.last(), name);
            }
        }
        assert forall|x: Seq<u8>| #[trigger] t.contains(x) <==> s.contains(x) || x == name by {
            assert(t[s.len() as int] == name);
            if s.contains(x) {
                let k = choose|k: int| 0 <= k < s.len() && s[k] == x;
                assert(t[k] == x);
            }
        }
    } else if s.last() == name {
        assert(s.contains(name));
    } else {
        let before = s.drop_last();
        names_find_their_place(before, name);
        let placed = with_name(before, name);
        lex_lt_is_total(s.last(), name);
        assert forall|i: int, j: int| 0 <= i < j < t.len() implies lex_lt(
            #[trigger] t[i],
            #[trigger] t[j],
        ) by {
            if j == placed.len() {
                assert(placed.contains(placed[i]));
                if placed[i] != name {
                    let k = choose|k: int| 0 <= k < before.len() && before[k] == placed[i];
                    assert(lex_lt(s[k], s[s.len() - 1]));
                }
            }
        }
        assert forall|x: Seq<u8>| #[trigger] t.contains(x) <==> s.contains(x) || x == name by {
            assert(t[placed.len() as int] == s.last());
            if t.contains(x) {
                let k = choose|k: int| 0 <= k < t.len() && t[k] == x;
                if k < placed.len() {
                    assert(placed.contains(x));
                    if x != name {
                        let l = choose|l: int| 0 <= l < before.len() && before[l] == x;
                        assert(s[l] == x);
                    }
                } else {
                    assert(s[s.len() - 1] == x);
                }
            }
            if s.contains(x) || x == name {
                if x != s.last() {
                    if x != name {
                        let k = choose|k: int| 0 <= k < s.len() && s[k] == x;
                        assert(before[k] == x);
                    }
                    assert(placed.contains(x));
                    let l = choose|l: int| 0 <= l < placed.len() && placed[l] == x;
                    assert(t[l] == x);
                }
            }
        }
    }
}

proof fn names_have_an_order(names: Seq<Seq<u8>>) -> (s: Seq<Seq<u8>>)
    ensures
        ascends(s),
        s.to_set() == names.to_set(),
    decreases names.len(),
{
    if names.len() == 0 {
        names
    } else {
        let before = names_have_an_order(names.drop_last());
        names_find_their_place(before, names.last());
        let s = with_name(before, names.last());
        assert forall|x: Seq<u8>| s.to_set().contains(x) <==> names.to_set().contains(x) by {
            assert(before.to_set().contains(x) <==> names.drop_last().to_set().contains(x));
            if names.contains(x) && x != names.last() {
                let k = choose|k: int| 0 <= k < names.len() && names[k] == x;
                assert(names.drop_last()[k] == x);
            }
            if names.drop_last().contains(x) {
                let k = choose|k: int| 0 <= k < names.len() - 1 && names.drop_last()[k] == x;
                assert(names[k] == x);
            }
            assert(names[names.len() - 1] == names.last());
        }
        assert(s.to_set() =~= names.to_set());
        s
    }
}

/// The list in byte order of the names of a list.
proof fn byte_order_lists_the_names(names: Seq<Seq<u8>>)
    ensures
        ascends(in_byte_order(names.to_set())),
        in_byte_order(names.to_set()).to_set() == names.to_set(),
{
    let s = names_have_an_order(names);
    assert(ascends(s) && s.to_set() == names.to_set());
}

/// Joined names are longer than each of them by a comma for every other one at least.
proof fn joined_names_are_long(s: Seq<Seq<u8>>, i: int)
    requires
        0 <= i < s.len(),
    ensures
        joined(s).len() >= s[i].len() + s.len() - 1,
    decreases s.len(),
{
    if s.len() > 1 {
        if i < s.len() - 1 {
            joined_names_are_long(s.drop_last(), i);
        } else {
            joined_names_are_long(s.drop_last(), 0);
        }
    }
}

proof fn texts_of_names_differ(a: Seq<char>, b: Seq<char>)
    requires
        a != b,
    ensures
        encode_utf8(a) != encode_utf8(b),
{
    vstd::utf8::encode_utf8_decode_utf8(a);
    vstd::utf8::encode_utf8_decode_utf8(b);
}

spec fn encoded_names(profiles: Seq<Seq<char>>) -> Seq<Seq<u8>> {
    profiles.map_values(|p: Seq<char>| encode_utf8(p))
}

/// The required profiles are the portable one alone, or there are others among them.
proof fn required_names_tell(profiles: Seq<Seq<char>>)
    ensures
        ({
            let names = profile_names(profiles).insert(text(PORTABLE_PROFILE));
            joined(in_byte_order(names)) != text(PORTABLE_PROFILE) <==> any_other_profile(profiles)
        }),
{
    let portable = text(PORTABLE_PROFILE);
    let names = profile_names(profiles).insert(portable);
    let list = encoded_names(profiles).push(portable);
    assert forall|x: Seq<u8>| list.to_set().contains(x) <==> names.contains(x) by {
        let base = encoded_names(profiles);
        if base.contains(x) {
            let k = choose|k: int| 0 <= k < base.len() && base[k] == x;
            assert(list[k] == x);
        }
        assert(list[base.len() as int] == portable);
        if list.contains(x) && x != portable {
            let k = choose|k: int| 0 <= k < list.len() && list[k] == x;
            assert(base[k] == x);
        }
    }
    assert(list.to_set() =~= names);
    byte_order_lists_the_names(list);
    let s = in_byte_order(names);
    assert(s.to_set().contains(portable));
    let i = choose|i: int| 0 <= i < s.len() && s[i] == portable;
    if any_other_profile(profiles) {
        let k = choose|k: int| 0 <= k < profiles.len() && #[trigger] profiles[k]
            != PORTABLE_PROFILE@;
        let other = encode_utf8(profiles[k]);
        texts_of_names_differ(profiles[k], PORTABLE_PROFILE@);
        assert(encoded_names(profiles)[k] == other);
        assert(names.contains(other));
        assert(s.to_set().contains(other));
        let j = choose|j: int| 0 <= j < s.len() && s[j] == other;
        joined_names_are_long(s, i);
    } else {
        assert forall|j: int| 0 <= j < s.len() implies s[j] == portable by {
            assert(s.to_set().contains(s[j]));
            assert(names.contains(s[j]));
            if s[j] != portable {
                let k = choose|k: int|
                    0 <= k < encoded_names(profiles).len() && encoded_names(profiles)[k] == s[j];
                assert(profiles[k] == PORTABLE_PROFILE@);
            }
        }
        if s.len() > 1 {
            assert(lex_lt(s[0], s[1]));
            lex_lt_is_total(s[0], s[1]);
        }
    }
}

/// Where all optional profiles have names and none is the portable one, there are others if there
/// are any.
proof fn optional_names_tell(profiles: Seq<Seq<char>>)
    requires
        !profile_names(profiles).contains(text(PORTABLE_PROFILE)),
        forall|i: int| 0 <= i < profiles.len() ==> (#[trigger] profiles[i]).len() > 0,
    ensures
        joined(in_byte_order(profile_names(profiles))).len() > 0 <==> any_other_profile(profiles),
{
    let list = encoded_names(profiles);
    let s = in_byte_order(list.to_set());
    byte_order_lists_the_names(list);
    if profiles.len() > 0 {
        let name = encode_utf8(profiles[0]);
        assert(list[0] == name);
        assert(list.to_set().contains(name));
        assert(s.to_set().contains(name));
        let j = choose|j: int| 0 <= j < s.len() && s[j] == name;
        texts_of_names_differ(profiles[0], Seq::empty());
        assert(encode_utf8(Seq::<char>::empty()) =~= Seq::<u8>::empty());
        assert(name.len() > 0) by {
            if name.len() == 0 {
                assert(name =~= Seq::<u8>::empty());
            }
        }
        joined_names_are_long(s, j);
        assert(profiles[0] != PORTABLE_PROFILE@);
    } else {
        if s.len() > 0 {
            assert(s.to_set().contains(s[0]));
            assert(list.contains(s[0]));
        }
    }
}

// ---------------------------------------------------------------------------------------------
// Records
// ---------------------------------------------------------------------------------------------

/// Whether two record sets declare the same profiles.
spec fn declares_alike(a: Records, b: Records) -> bool {
    &&& a.dom().contains(required_key()) <==> b.dom().contains(required_key())
    &&& a.dom().contains(optional_key()) <==> b.dom().contains(optional_key())
    &&& a[required_key()] == b[required_key()]
    &&& a[optional_key()] == b[optional_key()]
}

spec fn is_other_key(key: Seq<char>) -> bool {
    encode_utf8(key) != required_key() && encode_utf8(key) != optional_key()
}

proof fn other_keys_declare_nothing(key: Seq<char>)
    requires
        key != "TZAP.metadata.required-profiles"@,
        key != "TZAP.metadata.optional-profiles"@,
    ensures
        is_other_key(key),
{
    texts_of_names_differ(key, "TZAP.metadata.required-profiles"@);
    texts_of_names_differ(key, "TZAP.metadata.optional-profiles"@);
}

/// The keys of the writer that are not about profiles.
proof fn writer_keys_are_other()
    ensures
        required_key() != optional_key(),
        is_other_key("TZAP.metadata.source-filesystem"@),
        is_other_key("TZAP.portable.mode-origin"@),
        is_other_key("TZAP.portable.attributes"@),
        is_other_key("LIBARCHIVE.creationtime"@),
        is_other_key("atime"@),
        is_other_key("GNU.sparse.major"@),
        is_other_key("GNU.sparse.minor"@),
        is_other_key("GNU.sparse.name"@),
        is_other_key("GNU.sparse.realsize"@),
        is_other_key("TZAP.metadata.capture-status"@),
        is_other_key("linkpath"@),
        is_other_key("TZAP.portable.owner-kind"@),
        is_other_key("uid"@),
        is_other_key("gid"@),
        is_other_key("uname"@),
        is_other_key("gname"@),
        is_other_key("mtime"@),
        is_other_key("size"@),
{
    reveal_strlit("TZAP.metadata.required-profiles");
    reveal_strlit("TZAP.metadata.optional-profiles");
    assert("TZAP.metadata.required-profiles"@[14] != "TZAP.metadata.optional-profiles"@[14]);
    texts_of_names_differ("TZAP.metadata.required-profiles"@, "TZAP.metadata.optional-profiles"@);
    reveal_strlit("TZAP.metadata.source-filesystem");
    assert("TZAP.metadata.source-filesystem"@[14] == 's');
    other_keys_declare_nothing("TZAP.metadata.source-filesystem"@);
    reveal_strlit("TZAP.portable.mode-origin");
    other_keys_declare_nothing("TZAP.portable.mode-origin"@);
    reveal_strlit("TZAP.portable.attributes");
    other_keys_declare_nothing("TZAP.portable.attributes"@);
    reveal_strlit("LIBARCHIVE.creationtime");
    other_keys_declare_nothing("LIBARCHIVE.creationtime"@);
    reveal_strlit("atime");
    other_keys_declare_nothing("atime"@);
    reveal_strlit("GNU.sparse.major");
    other_keys_declare_nothing("GNU.sparse.major"@);
    reveal_strlit("GNU.sparse.minor");
    other_keys_declare_nothing("GNU.sparse.minor"@);
    reveal_strlit("GNU.sparse.name");
    other_keys_declare_nothing("GNU.sparse.name"@);
    reveal_strlit("GNU.sparse.realsize");
    other_keys_declare_nothing("GNU.sparse.realsize"@);
    reveal_strlit("TZAP.metadata.capture-status");
    other_keys_declare_nothing("TZAP.metadata.capture-status"@);
    reveal_strlit("linkpath");
    other_keys_declare_nothing("linkpath"@);
    reveal_strlit("TZAP.portable.owner-kind");
    other_keys_declare_nothing("TZAP.portable.owner-kind"@);
    reveal_strlit("uid");
    other_keys_declare_nothing("uid"@);
    reveal_strlit("gid");
    other_keys_declare_nothing("gid"@);
    reveal_strlit("uname");
    other_keys_declare_nothing("uname"@);
    reveal_strlit("gname");
    other_keys_declare_nothing("gname"@);
    reveal_strlit("mtime");
    other_keys_declare_nothing("mtime"@);
    reveal_strlit("size");
    other_keys_declare_nothing("size"@);
}

/// What the writer adds around native metadata declares no profile, but for a creation time.
proof fn merged_records_tell<P: MetadataProfile>(profile: &P, v: PrimaryValue, base: Records)
    requires
        !declares_more(base),
        names_its_profiles(profile, v.metadata),
    ensures
        with_times(profile, origin_records(base, v.metadata), v.metadata) matches Ok(timed) ==> (
        merged_native(with_sparse(timed, v), v.metadata.native) matches Ok(merged) ==> (
        declares_more(merged) <==> carries_native_metadata(profile, v.metadata))),
{
    writer_keys_are_other();
    let m = v.metadata;
    let native = m.native;
    let placed = origin_records(base, m);
    assert(declares_alike(placed, base));
    if let Ok(timed) = with_times(profile, placed, m) {
        assert(declares_alike(with_sparse(timed, v), timed));
        if native == no_native() {
            assert(posix_profiles().len() > text(PORTABLE_PROFILE).len());
        } else if let Ok(merged) = merged_native(with_sparse(timed, v), native) {
            required_names_tell(native.required_profiles);
            let required = profile_names(native.required_profiles).insert(text(PORTABLE_PROFILE));
            assert(required.contains(text(PORTABLE_PROFILE)));
            optional_names_tell(native.optional_profiles);
            assert(!native.primary_pax_records.dom().contains(required_key()));
            assert(!native.primary_pax_records.dom().contains(optional_key()));
        }
    }
}

/// What the written header of a member declares is what the index says of it: the records name
/// profiles beyond the portable one exactly where the file carries native metadata.
pub proof fn headers_declare_native_metadata<P: MetadataProfile>(
    profile: &P,
    v: PrimaryValue,
    stored_size: u64,
)
    requires
        starts_portable(profile),
        names_its_profiles(profile, v.metadata),
    ensures
        primary_records(profile, v, stored_size) matches Ok(p) ==> (declares_more(p.records)
            <==> carries_native_metadata(profile, v.metadata)),
{
    if let Ok(p) = primary_records(profile, v, stored_size) {
        let m = v.metadata;
        let base = profile.base_records(v.path, v.mode, m.source_os, overrides_path(v))->Ok_0;
        merged_records_tell(profile, v, base);
        writer_keys_are_other();
        let timed = with_times(profile, origin_records(base, m), m)->Ok_0;
        let merged = merged_native(with_sparse(timed, v), m.native)->Ok_0;
        let linked = with_status_and_link(merged, v);
        assert(declares_alike(linked, merged));
        let owned = placed_owner(linked, m.posix_owner)->Ok_0.0;
        assert(declares_alike(owned, linked));
        let dated = placed_mtime(profile, owned, v.mtime)->Ok_0.0;
        assert(declares_alike(dated, owned));
        assert(declares_alike(p.records, dated));
    }
}

/// Whether the flag of native metadata is a bit that no other flag has.
pub open spec fn native_bit_is_its_own(bits: EntryFlagBits) -> bool {
    &&& bits.has_native_metadata != 0
    &&& (bits.extended_metadata_v1 | bits.capture_partial | bits.has_auxiliary_streams
        | bits.has_sparse_extents | bits.requires_system_restore) & bits.has_native_metadata == 0
}

/// The flag of native metadata in the index is set exactly where the written header of the member
/// declares profiles beyond the portable one, so that a reader of the header finds the flag that
/// the index has.
pub proof fn flags_agree_with_headers<P: MetadataProfile>(
    profile: &P,
    v: PrimaryValue,
    stored_size: u64,
    primary_sparse: bool,
)
    requires
        starts_portable(profile),
        names_its_profiles(profile, v.metadata),
        native_bit_is_its_own(profile.flag_bits()),
    ensures
        primary_records(profile, v, stored_size) matches Ok(p) ==> entry_flags(
            profile,
            v.mode,
            primary_sparse,
            v.metadata,
        ) & profile.flag_bits().has_native_metadata == bit_if(
            declares_more(p.records),
            profile.flag_bits().has_native_metadata,
        ),
{
    headers_declare_native_metadata(profile, v, stored_size);
    let bits = profile.flag_bits();
    let aux = v.metadata.native.auxiliary_records;
    let a = bits.extended_metadata_v1;
    let b0 = bits.capture_partial;
    let c0 = bits.has_auxiliary_streams;
    let h = bits.has_native_metadata;
    let d0 = bits.has_sparse_extents;
    let e0 = bits.requires_system_restore;
    let b = bit_if(crate::entry_flags::has_capture_report(aux), b0);
    let c = bit_if(aux.len() != 0, c0);
    let n = bit_if(carries_native_metadata(profile, v.metadata), h);
    let d = bit_if(primary_sparse || crate::entry_flags::any_sparse_auxiliary(aux), d0);
    let e = bit_if(crate::entry_flags::needs_system_restore(v.mode, v.metadata), e0);
    assert((a | b | c | n | d | e) & h == n) by (bit_vector)
        requires
            (a | b0 | c0 | d0 | e0) & h == 0,
            b == b0 || b == 0,
            c == c0 || c == 0,
            d == d0 || d == 0,
            e == e0 || e == 0,
            n == h || n == 0,
    ;
}

} // verus!
