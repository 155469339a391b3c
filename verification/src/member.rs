//! The tar members that stand for one file: its auxiliary members and its primary member.
use crate::arith::{checked_u64_add, fit_u64, padding_to_512, padding_to_512_u64, tar_padding};
use crate::byte_map::ByteMap;
use crate::bytes::{
    append, be_bytes, be_vec, decimal, decimal_digits, overlay, overwrite, same_bytes, to_bytes,
    zero_vec, zeros,
};
use crate::codec::{contents_of, ArchiveCodec};
use crate::entry_flags::{
    has_capture_report, portable_refusal, reports_capture, validate_portable_file_metadata,
};
use crate::errors::{bytes_agree, FormatError};
use crate::metadata::{
    no_native, ArchiveTimestamp, AuxiliaryValue, NativeAuxiliaryMetadata,
    NativeAuxiliaryNameEncoding, NativeFileMetadata, NativeValue, OwnerValue, PortableFileMetadata,
    PortableModeOrigin, PortableValue, RestoreClass, SourceEntryKind, TarEntryKind,
};
use crate::options::opt_bytes;
use crate::pax::{pax_empty, pax_get, pax_insert, pax_keys, pax_keys_are_ordered, pax_map, pax_put};
use crate::profile::{
    declaration_values, AuxiliaryDeclaration, DeclarationValue, MetadataProfile, PORTABLE_PROFILE,
    POSIX_PROFILE,
};
use crate::sparse::{
    encode_v45_sparse_map, extent_bytes_outcome, sparse_extent_bytes, sparse_map_outcome,
    SparseExtent,
};
use crate::tar::{
    build_ustar_header, finalize_tar_checksum, octal_field, octal_fits, path_requires_pax,
    tar_octal_fits, ustar_header_outcome, with_checksum, write_tar_octal,
};
use crate::text::{
    ascends, byte_order_is_unique, has_prefix, hex_encode, hex_text, in_byte_order, is_one_of,
    join_names, joined, nfc, normal_form_c, parse_number, parsed_number, starts_with, text,
    text_bytes, texts,
};
use vstd::prelude::*;
use vstd::utf8::encode_utf8;

verus! {

/// The records of an extended header.
pub type Records = Map<Seq<u8>, Seq<u8>>;

// ---------------------------------------------------------------------------------------------
// Native primary records
// ---------------------------------------------------------------------------------------------

/// Keys of a primary member that belong to the writer.
pub open spec fn writer_keys() -> Seq<&'static str> {
    seq!["path", "linkpath", "size", "uid", "gid", "uname", "gname", "mtime"]
}

/// Whether a native key collides with what the writer declares itself.
pub open spec fn collides(declared: Records, key: Seq<u8>) -> bool {
    ||| declared.dom().contains(key)
    ||| texts(writer_keys()).contains(key)
    ||| starts_with(key, text("TZAP.metadata."))
    ||| starts_with(key, text("TZAP.portable."))
}

/// The distinct names of a list, as bytes.
pub open spec fn profile_names(profiles: Seq<Seq<char>>) -> Set<Seq<u8>> {
    profiles.map_values(|p: Seq<char>| encode_utf8(p)).to_set()
}

/// A record set with the native records of a file merged in.
pub open spec fn merged_native(declared: Records, native: NativeValue) -> Result<
    Records,
    FormatError,
> {
    let required = profile_names(native.required_profiles).insert(text(PORTABLE_PROFILE));
    let optional = profile_names(native.optional_profiles);
    let with_profiles = declared.insert(
        text("TZAP.metadata.required-profiles"),
        joined(in_byte_order(required)),
    ).insert(text("TZAP.metadata.optional-profiles"), joined(in_byte_order(optional)));
    if native == no_native() {
        Ok(declared)
    } else if exists|name: Seq<u8>| #[trigger] required.contains(name) && optional.contains(name) {
        Err(FormatError::WriterUnsupported("metadata profile is both required and optional"))
    } else if exists|key: Seq<u8>| #[trigger]
        native.primary_pax_records.dom().contains(key) && collides(with_profiles, key) {
        Err(
            FormatError::WriterUnsupported("native metadata collides with a writer-owned primary key"),
        )
    } else {
        Ok(with_profiles.union_prefer_right(native.primary_pax_records))
    }
}

/// The distinct names of a list in byte order.
fn ordered_names(profiles: &Vec<String>, with_portable: bool) -> (r: Vec<Vec<u8>>)
    ensures
        ({
            let names = profile_names(crate::metadata::strings(profiles@));
            let all = if with_portable {
                names.insert(text(PORTABLE_PROFILE))
            } else {
                names
            };
            &&& contents_of(r@) == in_byte_order(all)
            &&& ascends(contents_of(r@))
            &&& contents_of(r@).to_set() == all
        }),
{
    let ghost texts = crate::metadata::strings(profiles@).map_values(
        |p: Seq<char>| encode_utf8(p),
    );
    let ghost names = texts.to_set();
    let mut set: ByteMap<Vec<u8>> = pax_empty();
    let mut i: usize = 0;
    assert(texts.take(0).to_set() =~= Set::empty());
    while i < profiles.len()
        invariant
            i <= profiles@.len(),
            set.wf(),
            texts == crate::metadata::strings(profiles@).map_values(
                |p: Seq<char>| encode_utf8(p),
            ),
            pax_map(set).dom() =~= texts.take(i as int).to_set(),
        decreases profiles.len() - i,
    {
        let ghost before = texts.take(i as int);
        pax_insert(&mut set, text_bytes(profiles[i].as_str()), Vec::new());
        proof {
            let after = texts.take(i + 1);
            let name = texts[i as int];
            assert(after =~= before.push(name));
            assert forall|x: Seq<u8>| after.to_set().contains(x) <==> before.to_set().insert(
                name,
            ).contains(x) by {
                if before.contains(x) {
                    let k = choose|k: int| 0 <= k < before.len() && before[k] == x;
                    assert(after[k] == x);
                }
                if x == name {
                    assert(after[i as int] == x);
                }
                if after.contains(x) && x != name {
                    let k = choose|k: int| 0 <= k < after.len() && after[k] == x;
                    assert(before[k] == x);
                }
            }
            assert(after.to_set() =~= before.to_set().insert(name));
        }
        i = i + 1;
    }
    assert(texts.take(i as int) =~= texts);
    if with_portable {
        pax_insert(&mut set, text_bytes(PORTABLE_PROFILE), Vec::new());
    }
    let ghost all = pax_map(set).dom();
    let mut out: Vec<Vec<u8>> = Vec::new();
    let mut i: usize = 0;
    while i < set.entries().len()
        invariant
            i <= set.items().len(),
            out@.len() == i,
            forall|k: int| 0 <= k < i ==> (#[trigger] out@[k])@ == set.items()[k].0@,
        decreases set.items().len() - i,
    {
        out.push(to_bytes(set.entries()[i].0.as_slice()));
        i = i + 1;
    }
    proof {
        pax_keys_are_ordered(set);
        assert(contents_of(out@) =~= pax_keys(set));
        let s = contents_of(out@);
        assert(ascends(s) && s.to_set() == all);
        let chosen = in_byte_order(all);
        assert(ascends(chosen) && chosen.to_set() == all);
        byte_order_is_unique(s, chosen);
    }
    out
}

/// Whether two ordered lists share a name.
fn share_a_name(a: &Vec<Vec<u8>>, b: &Vec<Vec<u8>>) -> (r: bool)
    ensures
        r == exists|name: Seq<u8>| #[trigger]
            contents_of(a@).to_set().contains(name) && contents_of(b@).to_set().contains(name),
{
    let ghost sa = contents_of(a@);
    let ghost sb = contents_of(b@);
    let mut i: usize = 0;
    while i < a.len()
        invariant
            i <= a@.len(),
            sa == contents_of(a@),
            sb == contents_of(b@),
            forall|x: int, y: int|
                0 <= x < i && 0 <= y < sb.len() ==> #[trigger] sa[x] != #[trigger] sb[y],
        decreases a.len() - i,
    {
        let mut j: usize = 0;
        while j < b.len()
            invariant
                i < a@.len(),
                j <= b@.len(),
                sa == contents_of(a@),
                sb == contents_of(b@),
                forall|y: int| 0 <= y < j ==> sa[i as int] != #[trigger] sb[y],
            decreases b.len() - j,
        {
            if same_bytes(a[i].as_slice(), b[j].as_slice()) {
                proof {
                    let name = sa[i as int];
                    assert(sa.contains(name));
                    assert(sb[j as int] == name);
                    assert(sb.contains(name));
                    assert(sa.to_set().contains(name) && sb.to_set().contains(name));
                }
                return true;
            }
            j = j + 1;
        }
        i = i + 1;
    }
    proof {
        assert forall|name: Seq<u8>| #[trigger]
            sa.to_set().contains(name) implies !sb.to_set().contains(name) by {
            let x = choose|x: int| 0 <= x < sa.len() && sa[x] == name;
            if sb.to_set().contains(name) {
                let y = choose|y: int| 0 <= y < sb.len() && sb[y] == name;
                assert(sa[x] != sb[y]);
            }
        }
    }
    false
}

fn key_collides(declared: &ByteMap<Vec<u8>>, key: &[u8]) -> (r: bool)
    requires
        declared.wf(),
    ensures
        r == collides(pax_map(*declared), key@),
{
    let keys: [&'static str; 8] = [
        "path",
        "linkpath",
        "size",
        "uid",
        "gid",
        "uname",
        "gname",
        "mtime",
    ];
    assert(keys@ =~= writer_keys());
    declared.contains_key(key) || is_one_of(key, keys.as_slice()) || has_prefix(
        key,
        "TZAP.metadata.",
    ) || has_prefix(key, "TZAP.portable.")
}

/// Copies records over those of a set, in any order.
fn overlay_records(target: &mut ByteMap<Vec<u8>>, records: &ByteMap<Vec<u8>>)
    requires
        old(target).wf(),
        records.wf(),
    ensures
        final(target).wf(),
        pax_map(*final(target)) == pax_map(*old(target)).union_prefer_right(pax_map(*records)),
{
    let ghost start = pax_map(*target);
    let ghost all = pax_map(*records);
    let ghost keys = pax_keys(*records);
    let mut i: usize = 0;
    while i < records.entries().len()
        invariant
            i <= records.items().len(),
            target.wf(),
            records.wf(),
            all == pax_map(*records),
            keys == pax_keys(*records),
            forall|x: Seq<u8>| #[trigger]
                pax_map(*target).dom().contains(x) <==> start.dom().contains(x) || keys.take(
                    i as int,
                ).contains(x),
            forall|x: Seq<u8>| #[trigger]
                pax_map(*target).dom().contains(x) ==> pax_map(*target)[x] == (if keys.take(
                    i as int,
                ).contains(x) {
                    all[x]
                } else {
                    start[x]
                }),
        decreases records.items().len() - i,
    {
        let ghost before = keys.take(i as int);
        let ghost key = records.items()[i as int].0@;
        pax_insert(
            target,
            to_bytes(records.entries()[i].0.as_slice()),
            to_bytes(records.entries()[i].1.as_slice()),
        );
        proof {
            records.place_is_unique(i as int);
            assert(all[key] == records.items()[i as int].1@);
            let after = keys.take(i + 1);
            assert(after =~= before.push(key));
            assert forall|x: Seq<u8>| after.contains(x) <==> before.contains(x) || x == key by {
                if before.contains(x) {
                    let k = choose|k: int| 0 <= k < before.len() && before[k] == x;
                    assert(after[k] == x);
                }
                if x == key {
                    assert(after[i as int] == x);
                }
                if after.contains(x) && x != key {
                    let k = choose|k: int| 0 <= k < after.len() && after[k] == x;
                    assert(before[k] == x);
                }
            }
        }
        i = i + 1;
    }
    proof {
        pax_keys_are_ordered(*records);
        assert(keys.take(i as int) =~= keys);
        assert forall|x: Seq<u8>| keys.contains(x) <==> all.dom().contains(x) by {
            assert(keys.to_set().contains(x) <==> all.dom().contains(x));
        }
        assert(pax_map(*target) =~= start.union_prefer_right(all));
    }
}

pub fn merge_native_primary_metadata(
    pax_records: &mut ByteMap<Vec<u8>>,
    native: &NativeFileMetadata,
) -> (r: Result<(), FormatError>)
    requires
        old(pax_records).wf(),
        native.wf(),
    ensures
        final(pax_records).wf(),
        match (r, merged_native(pax_map(*old(pax_records)), native@)) {
            (Ok(_), Ok(m)) => pax_map(*final(pax_records)) == m,
            (Err(e), Err(f)) => e == f,
            _ => false,
        },
{
    if native.is_default() {
        return Ok(());
    }
    let required: Vec<Vec<u8>> = ordered_names(&native.required_profiles, true);
    let optional: Vec<Vec<u8>> = ordered_names(&native.optional_profiles, false);
    if share_a_name(&required, &optional) {
        return Err(
            FormatError::WriterUnsupported("metadata profile is both required and optional"),
        );
    }
    pax_put(pax_records, "TZAP.metadata.required-profiles", join_names(&required));
    pax_put(pax_records, "TZAP.metadata.optional-profiles", join_names(&optional));
    let ghost with_profiles = pax_map(*pax_records);
    let records: &ByteMap<Vec<u8>> = &native.primary_pax_records;
    let mut i: usize = 0;
    while i < records.entries().len()
        invariant
            i <= records.items().len(),
            records.wf(),
            pax_records.wf(),
            pax_map(*pax_records) == with_profiles,
            *records == native.primary_pax_records,
            match merged_native(pax_map(*old(pax_records)), native@) {
                Ok(m) => (forall|key: Seq<u8>| #[trigger]
                    native@.primary_pax_records.dom().contains(key) ==> !collides(
                        with_profiles,
                        key,
                    )),
                Err(f) => f == FormatError::WriterUnsupported(
                    "native metadata collides with a writer-owned primary key",
                ),
            },
            forall|k: int|
                0 <= k < i ==> !collides(with_profiles, (#[trigger] records.items()[k]).0@),
        decreases records.items().len() - i,
    {
        if key_collides(pax_records, records.entries()[i].0.as_slice()) {
            proof {
                records.place_is_unique(i as int);
                assert(native@.primary_pax_records.dom().contains(records.items()[i as int].0@));
            }
            return Err(
                FormatError::WriterUnsupported(
                    "native metadata collides with a writer-owned primary key",
                ),
            );
        }
        i = i + 1;
    }
    proof {
        assert forall|key: Seq<u8>| #[trigger]
            native@.primary_pax_records.dom().contains(key) implies !collides(
            with_profiles,
            key,
        ) by {
            let p = records.place(key);
            assert(records.items()[p].0@ == key);
        }
    }
    overlay_records(pax_records, records);
    Ok(())
}

// ---------------------------------------------------------------------------------------------
// Owner
// ---------------------------------------------------------------------------------------------

/// The owner fields of a tar header.
#[derive(Debug)]
pub struct PrimaryTarIdentity {
    pub uid: u64,
    pub gid: u64,
    pub uname: Vec<u8>,
    pub gname: Vec<u8>,
}

/// The owner fields by content.
pub struct IdentityValue {
    pub uid: u64,
    pub gid: u64,
    pub uname: Seq<u8>,
    pub gname: Seq<u8>,
}

impl View for PrimaryTarIdentity {
    type V = IdentityValue;

    open spec fn view(&self) -> IdentityValue {
        IdentityValue {
            uid: self.uid,
            gid: self.gid,
            uname: self.uname@,
            gname: self.gname@,
        }
    }
}

/// Longest owner name that fits a tar header.
pub const TAR_NAME_LEN: usize = 32;

/// Whether a name is what the format takes for an owner: not empty, without a zero byte, in
/// Normalization Form C.
pub open spec fn canonical_name(name: Seq<char>) -> bool {
    &&& encode_utf8(name).len() != 0
    &&& !encode_utf8(name).contains(0u8)
    &&& nfc(name) == name
}

/// Puts a name into the header, or into the records where it is too long.
pub open spec fn placed_name(records: Records, key: Seq<u8>, name: Option<Seq<char>>) -> Result<
    (Records, Seq<u8>),
    FormatError,
> {
    match name {
        None => Ok((records, Seq::empty())),
        Some(n) => if !canonical_name(n) {
            Err(
                FormatError::WriterUnsupported("portable owner name is not canonical NFC UTF-8"),
            )
        } else if encode_utf8(n).len() <= TAR_NAME_LEN {
            Ok((records, encode_utf8(n)))
        } else {
            Ok((records.insert(key, encode_utf8(n)), Seq::empty()))
        },
    }
}

/// Puts a number into a header field of `len` bytes, or into the records where it is too large.
pub open spec fn placed_number(records: Records, key: Seq<u8>, len: nat, value: u64) -> (
    Records,
    u64,
) {
    if octal_fits(len, value as int) {
        (records, value)
    } else {
        (records.insert(key, decimal(value as nat)), 0)
    }
}

pub open spec fn placed_owner(records: Records, owner: Option<OwnerValue>) -> Result<
    (Records, IdentityValue),
    FormatError,
> {
    match owner {
        None => Ok(
            (records, IdentityValue { uid: 0, gid: 0, uname: Seq::empty(), gname: Seq::empty() }),
        ),
        Some(o) => {
            let kinded = records.insert(text("TZAP.portable.owner-kind"), text("posix"));
            let (with_uid, uid) = placed_number(kinded, text("uid"), 8, o.uid);
            let (with_gid, gid) = placed_number(with_uid, text("gid"), 8, o.gid);
            match placed_name(with_gid, text("uname"), o.uname) {
                Err(e) => Err(e),
                Ok((with_uname, uname)) => match placed_name(with_uname, text("gname"), o.gname) {
                    Err(e) => Err(e),
                    Ok((with_gname, gname)) => Ok(
                        (with_gname, IdentityValue { uid, gid, uname, gname }),
                    ),
                },
            }
        },
    }
}

fn holds_zero_byte(bytes: &[u8]) -> (r: bool)
    ensures
        r == bytes@.contains(0u8),
{
    let mut i: usize = 0;
    while i < bytes.len()
        invariant
            i <= bytes@.len(),
            forall|k: int| 0 <= k < i ==> bytes@[k] != 0,
        decreases bytes.len() - i,
    {
        if bytes[i] == 0 {
            assert(bytes@[i as int] == 0u8);
            return true;
        }
        i = i + 1;
    }
    false
}

pub fn prepare_primary_name(
    pax_records: &mut ByteMap<Vec<u8>>,
    key: &'static str,
    name: &Option<String>,
) -> (r: Result<Vec<u8>, FormatError>)
    requires
        old(pax_records).wf(),
    ensures
        final(pax_records).wf(),
        match (
            r,
            placed_name(pax_map(*old(pax_records)), text(key), crate::metadata::opt_string(*name)),
        ) {
            (Ok(field), Ok((records, value))) => field@ == value && pax_map(*final(pax_records))
                == records,
            (Err(e), Err(f)) => e == f,
            _ => false,
        },
        r matches Ok(field) ==> field@.len() <= TAR_NAME_LEN,
{
    let name: &String = match name {
        Some(name) => name,
        None => {
            let none: Vec<u8> = Vec::new();
            assert(none@ =~= Seq::empty());
            return Ok(none);
        },
    };
    let bytes: &[u8] = name.as_str().as_bytes();
    let normal: String = normal_form_c(name.as_str());
    let is_normal: bool = normal == *name;
    if bytes.len() == 0 || holds_zero_byte(bytes) || !is_normal {
        return Err(
            FormatError::WriterUnsupported("portable owner name is not canonical NFC UTF-8"),
        );
    }
    if bytes.len() <= TAR_NAME_LEN {
        Ok(to_bytes(bytes))
    } else {
        pax_put(pax_records, key, to_bytes(bytes));
        let none: Vec<u8> = Vec::new();
        assert(none@ =~= Seq::empty());
        Ok(none)
    }
}

/// Puts a number into a header field, or into the records.
fn place_number(pax_records: &mut ByteMap<Vec<u8>>, key: &'static str, len: usize, value: u64) -> (r:
    u64)
    requires
        old(pax_records).wf(),
    ensures
        final(pax_records).wf(),
        (pax_map(*final(pax_records)), r) == placed_number(
            pax_map(*old(pax_records)),
            text(key),
            len as nat,
            value,
        ),
{
    if tar_octal_fits(len, value) {
        value
    } else {
        pax_put(pax_records, key, decimal_digits(value));
        0
    }
}

pub(crate) proof fn zero_fits_a_field(len: nat)
    requires
        len >= 2,
    ensures
        octal_fits(len, 0),
{
    vstd::arithmetic::power::lemma_pow_positive(8, (len - 1) as nat);
}

pub fn prepare_primary_tar_identity(
    pax_records: &mut ByteMap<Vec<u8>>,
    metadata: &PortableFileMetadata,
) -> (r: Result<PrimaryTarIdentity, FormatError>)
    requires
        old(pax_records).wf(),
    ensures
        final(pax_records).wf(),
        match (r, placed_owner(pax_map(*old(pax_records)), metadata@.posix_owner)) {
            (Ok(identity), Ok((records, value))) => identity@ == value && pax_map(
                *final(pax_records),
            ) == records,
            (Err(e), Err(f)) => e == f,
            _ => false,
        },
        r matches Ok(identity) ==> identity.fits(),
{
    proof {
        zero_fits_a_field(8);
    }
    let owner = match &metadata.posix_owner {
        Some(owner) => owner,
        None => {
            let identity: PrimaryTarIdentity = PrimaryTarIdentity {
                uid: 0,
                gid: 0,
                uname: Vec::new(),
                gname: Vec::new(),
            };
            assert(identity@.uname =~= Seq::empty());
            assert(identity@.gname =~= Seq::empty());
            return Ok(identity);
        },
    };
    pax_put(pax_records, "TZAP.portable.owner-kind", text_bytes("posix"));
    let uid: u64 = place_number(pax_records, "uid", 8, owner.uid);
    let gid: u64 = place_number(pax_records, "gid", 8, owner.gid);
    let uname: Vec<u8> = prepare_primary_name(pax_records, "uname", &owner.uname)?;
    let gname: Vec<u8> = prepare_primary_name(pax_records, "gname", &owner.gname)?;
    Ok(PrimaryTarIdentity { uid, gid, uname, gname })
}

impl PrimaryTarIdentity {
    /// Whether every field fits its place in a header.
    pub open spec fn fits(self) -> bool {
        &&& octal_fits(8, self.uid as int)
        &&& octal_fits(8, self.gid as int)
        &&& self.uname@.len() <= TAR_NAME_LEN
        &&& self.gname@.len() <= TAR_NAME_LEN
    }
}

/// A header with the owner filled in.
pub open spec fn owned_header(header: Seq<u8>, identity: IdentityValue) -> Seq<u8> {
    let numbered = overlay(
        overlay(header, 108, octal_field(8, identity.uid as int)),
        116,
        octal_field(8, identity.gid as int),
    );
    let user = overlay(overlay(numbered, 265, zeros(32)), 265, identity.uname);
    let group = overlay(overlay(user, 297, zeros(32)), 297, identity.gname);
    with_checksum(group)
}

pub fn apply_primary_tar_identity(header: &mut Vec<u8>, identity: &PrimaryTarIdentity) -> (r: Result<
    (),
    FormatError,
>)
    requires
        old(header)@.len() == 512,
        identity.fits(),
    ensures
        r == Ok::<(), FormatError>(()),
        final(header)@ == owned_header(old(header)@, identity@),
        final(header)@.len() == 512,
{
    write_tar_octal(header, 108, 8, identity.uid)?;
    write_tar_octal(header, 116, 8, identity.gid)?;
    let blank: Vec<u8> = zero_vec(32);
    overwrite(header, 265, blank.as_slice());
    overwrite(header, 265, identity.uname.as_slice());
    overwrite(header, 297, blank.as_slice());
    overwrite(header, 297, identity.gname.as_slice());
    finalize_tar_checksum(header)
}

// ---------------------------------------------------------------------------------------------
// Auxiliary members
// ---------------------------------------------------------------------------------------------

/// The headers in front of an auxiliary payload, and what they declare.
pub struct NativeAuxiliaryMemberPrefix<'a> {
    pub bytes: Vec<u8>,
    pub stored_size: u64,
    pub sha256: [u8; 32],
    pub declaration: AuxiliaryDeclaration<'a>,
}

/// The same by content.
pub struct AuxiliaryPrefixValue {
    pub bytes: Seq<u8>,
    pub stored_size: u64,
    pub sha256: [u8; 32],
    pub declaration: DeclarationValue,
}

impl<'a> View for NativeAuxiliaryMemberPrefix<'a> {
    type V = AuxiliaryPrefixValue;

    open spec fn view(&self) -> AuxiliaryPrefixValue {
        AuxiliaryPrefixValue {
            bytes: self.bytes@,
            stored_size: self.stored_size,
            sha256: self.sha256,
            declaration: self.declaration@,
        }
    }
}

/// Kinds whose payload may be streamed.
pub open spec fn streamable_kinds() -> Seq<&'static str> {
    seq![
        "windows.alternate-data",
        "windows.property-data",
        "windows.efs-raw",
        "macos.resource-fork",
        "generic.xattr",
    ]
}

pub open spec fn may_be_streamed(kind: Seq<char>) -> bool {
    texts(streamable_kinds()).contains(encode_utf8(kind)) || starts_with(
        encode_utf8(kind),
        text("x."),
    )
}

pub open spec fn restore_class_text(class: RestoreClass) -> Seq<u8> {
    match class {
        RestoreClass::Never => text("none"),
        RestoreClass::Portable => text("portable"),
        RestoreClass::SameOs => text("same-os"),
        RestoreClass::System => text("system"),
    }
}

/// How a name is marked, and how it is written.
pub open spec fn name_texts<P: MetadataProfile>(profile: &P, record: AuxiliaryValue) -> (
    Seq<u8>,
    Seq<u8>,
) {
    match record.name_encoding {
        NativeAuxiliaryNameEncoding::Unnamed => (text("none"), record.name),
        NativeAuxiliaryNameEncoding::Utf8 => (text("utf8"), record.name),
        NativeAuxiliaryNameEncoding::Utf16Le => (
            text("utf16le-base64"),
            profile.base64_text(record.name),
        ),
        NativeAuxiliaryNameEncoding::Bytes => (
            text("bytes-base64"),
            profile.base64_text(record.name),
        ),
    }
}

/// The records that the writer declares for an auxiliary payload.
pub open spec fn auxiliary_records_of<P: MetadataProfile>(
    profile: &P,
    record: AuxiliaryValue,
) -> Records {
    let (name_encoding, name) = name_texts(profile, record);
    Map::empty().insert(text("TZAP.aux.version"), text("1")).insert(
        text("TZAP.aux.kind"),
        encode_utf8(record.kind),
    ).insert(text("TZAP.aux.profile"), encode_utf8(record.profile)).insert(
        text("TZAP.aux.restore-class"),
        restore_class_text(record.restore_class),
    ).insert(
        text("TZAP.aux.native"),
        if record.native {
            text("1")
        } else {
            text("0")
        },
    ).insert(text("TZAP.aux.name-encoding"), name_encoding).insert(
        text("TZAP.aux.name"),
        name,
    ).insert(text("TZAP.aux.flags"), hex_text(be_bytes(record.flags as int, 8))).insert(
        text("TZAP.aux.logical-size"),
        decimal(record.logical_size as nat),
    ).insert(text("TZAP.aux.sha256"), hex_text(record.digest()@))
}

/// An extended header in front of another header.
pub open spec fn headed_by_records<P: MetadataProfile>(
    profile: &P,
    label: Seq<u8>,
    records: Records,
) -> Result<Seq<u8>, FormatError> {
    match profile.canonical_pax(records) {
        Err(e) => Err(e),
        Ok(payload) => match ustar_header_outcome(label, payload.len() as int, 0, 0, 120) {
            Err(e) => Err(e),
            Ok(header) => Ok(header + payload + zeros(tar_padding(payload.len() as int))),
        },
    }
}

/// The label of an auxiliary member: a text and its number in eight hexadecimal digits.
pub open spec fn numbered_label(prefix: &str, ordinal: u32) -> Seq<u8> {
    text(prefix) + hex_text(be_bytes(ordinal as int, 4))
}

pub open spec fn auxiliary_prefix_outcome<P: MetadataProfile>(
    profile: &P,
    ordinal: u32,
    record: AuxiliaryValue,
) -> Result<AuxiliaryPrefixValue, FormatError> {
    let declared = auxiliary_records_of(profile, record);
    let stored_size = record.stored_size() as u64;
    let (records, header_size) = placed_number(
        declared.union_prefer_right(record.meta),
        text("size"),
        12,
        stored_size,
    );
    let declaration = DeclarationValue {
        records,
        ordinal,
        stored_size,
        payload: if record.streamed_payload is Some {
            None
        } else {
            Some(record.payload)
        },
    };
    if record.streamed_payload is Some && !may_be_streamed(record.kind) {
        Err(
            FormatError::WriterUnsupported(
                "this auxiliary kind requires inline structural payload validation",
            ),
        )
    } else if exists|key: Seq<u8>| #[trigger]
        record.meta.dom().contains(key) && declared.dom().contains(key) {
        Err(
            FormatError::WriterUnsupported("auxiliary metadata collides with a writer-owned key"),
        )
    } else {
        match profile.auxiliary_check(declaration) {
            Err(e) => Err(e),
            Ok(_) => match headed_by_records(
                profile,
                numbered_label("TZAP-PAX/AUX/", ordinal),
                records,
            ) {
                Err(e) => Err(e),
                Ok(head) => match ustar_header_outcome(
                    numbered_label("TZAP-AUX/", ordinal),
                    header_size as int,
                    0,
                    0,
                    90,
                ) {
                    Err(e) => Err(e),
                    Ok(header) => Ok(
                        AuxiliaryPrefixValue {
                            bytes: head + header,
                            stored_size,
                            sha256: record.digest(),
                            declaration,
                        },
                    ),
                },
            },
        }
    }
}

fn build_label(prefix: &str, ordinal: u32) -> (r: Vec<u8>)
    ensures
        r@ == numbered_label(prefix, ordinal),
{
    let mut label: Vec<u8> = text_bytes(prefix);
    let number: Vec<u8> = be_vec(ordinal as u64, 4);
    append(&mut label, hex_encode(number.as_slice()).as_slice());
    label
}

/// Builds an extended header that stands in front of another header.
fn build_records_header<P: MetadataProfile>(profile: &P, label: &[u8], records: &ByteMap<Vec<u8>>) -> (r:
    Result<Vec<u8>, FormatError>)
    requires
        records.wf(),
    ensures
        bytes_agree(r, headed_by_records(profile, label@, pax_map(*records))),
{
    let payload: Vec<u8> = profile.encode_canonical_pax(records)?;
    let mut bytes: Vec<u8> = build_ustar_header(label, payload.len() as u64, 0, 0, 120)?;
    append(&mut bytes, payload.as_slice());
    let padding: Vec<u8> = zero_vec(padding_to_512(payload.len()));
    append(&mut bytes, padding.as_slice());
    Ok(bytes)
}

fn declare_auxiliary<P: MetadataProfile>(profile: &P, record: &NativeAuxiliaryMetadata) -> (r:
    ByteMap<Vec<u8>>)
    ensures
        r.wf(),
        pax_map(r) == auxiliary_records_of(profile, record@),
{
    let mut records: ByteMap<Vec<u8>> = pax_empty();
    pax_put(&mut records, "TZAP.aux.version", text_bytes("1"));
    pax_put(&mut records, "TZAP.aux.kind", text_bytes(record.kind.as_str()));
    pax_put(&mut records, "TZAP.aux.profile", text_bytes(record.profile.as_str()));
    let class: Vec<u8> = match record.restore_class {
        RestoreClass::Never => text_bytes("none"),
        RestoreClass::Portable => text_bytes("portable"),
        RestoreClass::SameOs => text_bytes("same-os"),
        RestoreClass::System => text_bytes("system"),
    };
    pax_put(&mut records, "TZAP.aux.restore-class", class);
    let native: Vec<u8> = if record.native {
        text_bytes("1")
    } else {
        text_bytes("0")
    };
    pax_put(&mut records, "TZAP.aux.native", native);
    let (name_encoding, name): (Vec<u8>, Vec<u8>) = match record.name_encoding {
        NativeAuxiliaryNameEncoding::Unnamed => (
            text_bytes("none"),
            to_bytes(record.name.as_slice()),
        ),
        NativeAuxiliaryNameEncoding::Utf8 => (text_bytes("utf8"), to_bytes(record.name.as_slice())),
        NativeAuxiliaryNameEncoding::Utf16Le => (
            text_bytes("utf16le-base64"),
            profile.canonical_base64_encode(record.name.as_slice()),
        ),
        NativeAuxiliaryNameEncoding::Bytes => (
            text_bytes("bytes-base64"),
            profile.canonical_base64_encode(record.name.as_slice()),
        ),
    };
    pax_put(&mut records, "TZAP.aux.name-encoding", name_encoding);
    pax_put(&mut records, "TZAP.aux.name", name);
    pax_put(
        &mut records,
        "TZAP.aux.flags",
        hex_encode(be_vec(record.flags, 8).as_slice()),
    );
    pax_put(&mut records, "TZAP.aux.logical-size", decimal_digits(record.logical_size));
    pax_put(&mut records, "TZAP.aux.sha256", hex_encode(record.sha256().as_slice()));
    records
}

/// Whether two record sets share a key.
fn share_a_key(a: &ByteMap<Vec<u8>>, b: &ByteMap<Vec<u8>>) -> (r: bool)
    requires
        a.wf(),
        b.wf(),
    ensures
        r == exists|key: Seq<u8>| #[trigger]
            pax_map(*a).dom().contains(key) && pax_map(*b).dom().contains(key),
{
    let mut i: usize = 0;
    while i < a.entries().len()
        invariant
            i <= a.items().len(),
            a.wf(),
            b.wf(),
            forall|k: int|
                0 <= k < i ==> !pax_map(*b).dom().contains((#[trigger] a.items()[k]).0@),
        decreases a.items().len() - i,
    {
        if b.contains_key(a.entries()[i].0.as_slice()) {
            proof {
                a.place_is_unique(i as int);
                assert(pax_map(*a).dom().contains(a.items()[i as int].0@));
                assert(pax_map(*b).dom().contains(a.items()[i as int].0@));
            }
            return true;
        }
        i = i + 1;
    }
    proof {
        assert forall|key: Seq<u8>| #[trigger]
            pax_map(*a).dom().contains(key) implies !pax_map(*b).dom().contains(key) by {
            let p = a.place(key);
            assert(a.items()[p].0@ == key);
        }
    }
    false
}

pub open spec fn auxiliary_prefix_agree(
    r: Result<NativeAuxiliaryMemberPrefix, FormatError>,
    s: Result<AuxiliaryPrefixValue, FormatError>,
) -> bool {
    match (r, s) {
        (Ok(v), Ok(w)) => v@ == w && v.declaration.records.wf(),
        (Err(e), Err(f)) => e == f,
        _ => false,
    }
}

pub fn build_native_auxiliary_member_prefix<'a, P: MetadataProfile>(
    profile: &P,
    ordinal: u32,
    record: &'a NativeAuxiliaryMetadata,
) -> (r: Result<NativeAuxiliaryMemberPrefix<'a>, FormatError>)
    requires
        record.wf(),
    ensures
        auxiliary_prefix_agree(r, auxiliary_prefix_outcome(profile, ordinal, record@)),
{
    let kinds: [&'static str; 5] = [
        "windows.alternate-data",
        "windows.property-data",
        "windows.efs-raw",
        "macos.resource-fork",
        "generic.xattr",
    ];
    assert(kinds@ =~= streamable_kinds());
    let kind: &[u8] = record.kind.as_str().as_bytes();
    if record.is_streamed() && !is_one_of(kind, kinds.as_slice()) && !has_prefix(kind, "x.") {
        return Err(
            FormatError::WriterUnsupported(
                "this auxiliary kind requires inline structural payload validation",
            ),
        );
    }
    let mut records: ByteMap<Vec<u8>> = declare_auxiliary(profile, record);
    if share_a_key(&record.meta, &records) {
        return Err(
            FormatError::WriterUnsupported("auxiliary metadata collides with a writer-owned key"),
        );
    }
    overlay_records(&mut records, &record.meta);
    let stored_size: u64 = record.stored_payload_size();
    let header_size: u64 = place_number(&mut records, "size", 12, stored_size);
    let payload: Option<&'a [u8]> = if record.is_streamed() {
        None
    } else {
        Some(record.payload.as_slice())
    };
    let declaration: AuxiliaryDeclaration<'a> = AuxiliaryDeclaration {
        records,
        ordinal,
        stored_size,
        payload,
    };
    profile.check_auxiliary_declaration(&declaration)?;
    let pax_label: Vec<u8> = build_label("TZAP-PAX/AUX/", ordinal);
    let mut bytes: Vec<u8> = build_records_header(
        profile,
        pax_label.as_slice(),
        &declaration.records,
    )?;
    let label: Vec<u8> = build_label("TZAP-AUX/", ordinal);
    let header: Vec<u8> = build_ustar_header(label.as_slice(), header_size, 0, 0, 90)?;
    append(&mut bytes, header.as_slice());
    Ok(
        NativeAuxiliaryMemberPrefix {
            bytes,
            stored_size,
            sha256: record.sha256(),
            declaration,
        },
    )
}

/// The prefixes of the first `count` auxiliary members, or the first error among them.
pub open spec fn auxiliary_prefixes<P: MetadataProfile>(
    profile: &P,
    records: Seq<AuxiliaryValue>,
    count: nat,
) -> Result<Seq<AuxiliaryPrefixValue>, FormatError>
    decreases count,
{
    if count == 0 {
        Ok(Seq::empty())
    } else {
        match auxiliary_prefixes(profile, records, (count - 1) as nat) {
            Err(e) => Err(e),
            Ok(before) => if count - 1 > u32::MAX {
                Err(
                    FormatError::WriterUnsupported(
                        "auxiliary record count exceeds revision-45 range",
                    ),
                )
            } else {
                match auxiliary_prefix_outcome(profile, (count - 1) as u32, records[count - 1]) {
                    Err(e) => Err(e),
                    Ok(prefix) => Ok(before.push(prefix)),
                }
            },
        }
    }
}

proof fn first_prefix_error_stays<P: MetadataProfile>(
    profile: &P,
    records: Seq<AuxiliaryValue>,
    count: nat,
    total: nat,
)
    requires
        count <= total,
        auxiliary_prefixes(profile, records, count) is Err,
    ensures
        auxiliary_prefixes(profile, records, total) == auxiliary_prefixes(profile, records, count),
    decreases total,
{
    if count < total {
        first_prefix_error_stays(profile, records, count, (total - 1) as nat);
    }
}

pub open spec fn prefix_values(list: Seq<NativeAuxiliaryMemberPrefix>) -> Seq<AuxiliaryPrefixValue> {
    Seq::new(list.len(), |i: int| list[i]@)
}

/// The prefixes of all auxiliary members of a file.
#[verifier::loop_isolation(false)]
pub fn build_auxiliary_prefixes<'a, P: MetadataProfile>(
    profile: &P,
    native: &'a NativeFileMetadata,
) -> (r: Result<Vec<NativeAuxiliaryMemberPrefix<'a>>, FormatError>)
    requires
        native.wf(),
    ensures
        match (
            r,
            auxiliary_prefixes(
                profile,
                native@.auxiliary_records,
                native@.auxiliary_records.len(),
            ),
        ) {
            (Ok(v), Ok(w)) => prefix_values(v@) == w && (forall|i: int|
                0 <= i < v@.len() ==> (#[trigger] v@[i]).declaration.records.wf()),
            (Err(e), Err(f)) => e == f,
            _ => false,
        },
{
    let ghost records = native@.auxiliary_records;
    let mut auxiliary: Vec<NativeAuxiliaryMemberPrefix<'a>> = Vec::new();
    let mut i: usize = 0;
    assert(prefix_values(auxiliary@) =~= Seq::empty());
    while i < native.auxiliary_records.len()
        invariant
            i <= native.auxiliary_records@.len(),
            auxiliary_prefixes(profile, records, i as nat) == Ok::<
                Seq<AuxiliaryPrefixValue>,
                FormatError,
            >(prefix_values(auxiliary@)),
            forall|k: int|
                0 <= k < auxiliary@.len() ==> (#[trigger] auxiliary@[k]).declaration.records.wf(),
        decreases native.auxiliary_records.len() - i,
    {
        proof {
            if auxiliary_prefixes(profile, records, (i + 1) as nat) is Err {
                first_prefix_error_stays(profile, records, (i + 1) as nat, records.len());
            }
            assert(records[i as int] == native.auxiliary_records@[i as int]@);
        }
        if i as u64 > u32::MAX as u64 {
            return Err(
                FormatError::WriterUnsupported("auxiliary record count exceeds revision-45 range"),
            );
        }
        let member: NativeAuxiliaryMemberPrefix<'a> = build_native_auxiliary_member_prefix(
            profile,
            i as u32,
            &native.auxiliary_records[i],
        )?;
        let ghost before = prefix_values(auxiliary@);
        auxiliary.push(member);
        assert(prefix_values(auxiliary@) =~= before.push(auxiliary@.last()@));
        i = i + 1;
    }
    Ok(auxiliary)
}

// ---------------------------------------------------------------------------------------------
// Primary member
// ---------------------------------------------------------------------------------------------

/// The headers in front of an auxiliary payload.
#[derive(Debug, Clone, PartialEq, Eq)]
pub struct AuxiliaryMember {
    pub bytes: Vec<u8>,
    pub stored_size: u64,
    pub sha256: [u8; 32],
}

/// The same by content.
pub struct AuxiliaryMemberValue {
    pub bytes: Seq<u8>,
    pub stored_size: u64,
    pub sha256: [u8; 32],
}

impl View for AuxiliaryMember {
    type V = AuxiliaryMemberValue;

    open spec fn view(&self) -> AuxiliaryMemberValue {
        AuxiliaryMemberValue {
            bytes: self.bytes@,
            stored_size: self.stored_size,
            sha256: self.sha256,
        }
    }
}

pub open spec fn member_values(list: Seq<AuxiliaryMember>) -> Seq<AuxiliaryMemberValue> {
    Seq::new(list.len(), |i: int| list[i]@)
}

pub open spec fn members_of(prefixes: Seq<AuxiliaryPrefixValue>) -> Seq<AuxiliaryMemberValue> {
    prefixes.map_values(
        |p: AuxiliaryPrefixValue|
            AuxiliaryMemberValue {
                bytes: p.bytes,
                stored_size: p.stored_size,
                sha256: p.sha256,
            },
    )
}

pub open spec fn declarations_of(prefixes: Seq<AuxiliaryPrefixValue>) -> Seq<DeclarationValue> {
    prefixes.map_values(|p: AuxiliaryPrefixValue| p.declaration)
}

/// The members that stand for one file, without the payloads.
#[derive(Debug, Clone, PartialEq, Eq)]
pub struct PrimaryMemberLayout {
    pub auxiliary: Vec<AuxiliaryMember>,
    pub primary: Vec<u8>,
}

/// The same by content.
pub struct LayoutValue {
    pub auxiliary: Seq<AuxiliaryMemberValue>,
    pub primary: Seq<u8>,
}

impl View for PrimaryMemberLayout {
    type V = LayoutValue;

    open spec fn view(&self) -> LayoutValue {
        LayoutValue { auxiliary: member_values(self.auxiliary@), primary: self.primary@ }
    }
}

/// Everything that the members of a file are made from.
pub struct PrimaryValue {
    pub path: Seq<u8>,
    pub entry_kind: SourceEntryKind,
    pub link_target: Option<Seq<u8>>,
    pub file_size: u64,
    pub sparse_extents: Option<Seq<SparseExtent>>,
    pub mode: u32,
    pub mtime: ArchiveTimestamp,
    pub metadata: PortableValue,
}

/// Why a member has the wrong shape for its kind.
pub open spec fn shape_refusal<C: ArchiveCodec>(codec: &C, v: PrimaryValue) -> Option<FormatError> {
    if v.entry_kind != SourceEntryKind::Regular && (v.file_size != 0 || v.sparse_extents is Some) {
        Some(FormatError::WriterInvariant("non-regular member has non-zero file data size"))
    } else {
        match (v.entry_kind, v.link_target) {
            (SourceEntryKind::Symlink, Some(target)) => match codec.symlink_check(v.path, target) {
                Err(e) => Some(e),
                Ok(_) => None,
            },
            (SourceEntryKind::Hardlink, Some(target)) => match codec.path_check(target, u32::MAX) {
                Err(e) => Some(e),
                Ok(_) => if target == v.path {
                    Some(FormatError::WriterInvariant("hardlink aliases itself"))
                } else if v.metadata.native != no_native() {
                    Some(
                        FormatError::WriterInvariant(
                            "hardlink alias carries native file-object metadata",
                        ),
                    )
                } else {
                    None
                },
            },
            (SourceEntryKind::Symlink, None) => Some(
                FormatError::WriterInvariant("symlink member has no link target"),
            ),
            (_, Some(_)) => Some(FormatError::WriterInvariant("non-link member has a link target")),
            (_, None) => None,
        }
    }
}

/// The map in front of the data of a sparse member.
pub open spec fn sparse_head(v: PrimaryValue, limit: usize) -> Result<Option<Seq<u8>>, FormatError> {
    match v.sparse_extents {
        None => Ok(None),
        Some(extents) => match sparse_map_outcome(extents, v.file_size as int, limit as int) {
            Err(e) => Err(e),
            Ok(map) => Ok(Some(map)),
        },
    }
}

/// Bytes of data that a source hands over for a member.
pub open spec fn source_payload_size_outcome(
    file_size: u64,
    sparse_extents: Option<Seq<SparseExtent>>,
    limit: usize,
) -> Result<u64, FormatError> {
    match sparse_extents {
        None => Ok(file_size),
        Some(extents) => extent_bytes_outcome(extents, file_size as int, limit as int),
    }
}

/// Bytes that a member stores: its map and its data.
pub open spec fn stored_size_outcome(v: PrimaryValue, limit: usize) -> Result<u64, FormatError> {
    match sparse_head(v, limit) {
        Err(e) => Err(e),
        Ok(map) => match source_payload_size_outcome(v.file_size, v.sparse_extents, limit) {
            Err(e) => Err(e),
            Ok(bytes) => fit_u64(
                match map {
                    Some(m) => m.len() + bytes,
                    None => bytes as int,
                },
                "sparse primary stored size",
            ),
        },
    }
}

pub open spec fn is_reparse(kind: SourceEntryKind) -> bool {
    kind == SourceEntryKind::ReparseDirectory || kind == SourceEntryKind::ReparseRegular
}

/// Whether the path goes into the records because it does not fit a header.
pub open spec fn overrides_path(v: PrimaryValue) -> bool {
    v.sparse_extents is None && v.path.len() > 100
}

/// Records that describe where a file comes from.
pub open spec fn origin_records(base: Records, m: PortableValue) -> Records {
    let placed = base.insert(
        text("TZAP.metadata.source-filesystem"),
        encode_utf8(m.source_filesystem),
    ).insert(
        text("TZAP.portable.mode-origin"),
        match m.mode_origin {
            PortableModeOrigin::Native => text("native"),
            PortableModeOrigin::Projected => text("projected"),
        },
    );
    match m.attributes {
        Some(attributes) => placed.insert(
            text("TZAP.portable.attributes"),
            hex_text(be_bytes(attributes as int, 4)),
        ),
        None => placed,
    }
}

/// The profiles of a file whose creation time belongs to the POSIX profile.
pub open spec fn posix_profiles() -> Seq<u8> {
    text(PORTABLE_PROFILE) + seq![crate::text::COMMA] + text(POSIX_PROFILE)
}

/// Adds a portable time stamp, unless native metadata already carries the same one.
pub open spec fn with_time<P: MetadataProfile>(
    profile: &P,
    records: Records,
    key: Seq<u8>,
    time: Option<ArchiveTimestamp>,
    names_posix: bool,
    native: Records,
) -> Result<Records, FormatError> {
    match time {
        None => Ok(records),
        Some(t) => match profile.timestamp_text(t) {
            Err(e) => Err(e),
            Ok(value) => if native.dom().contains(key) {
                if native[key] != value {
                    Err(
                        FormatError::WriterUnsupported(
                            "portable timestamp conflicts with native primary metadata",
                        ),
                    )
                } else {
                    Ok(records)
                }
            } else if names_posix {
                Ok(
                    records.insert(key, value).insert(
                        text("TZAP.metadata.required-profiles"),
                        posix_profiles(),
                    ),
                )
            } else {
                Ok(records.insert(key, value))
            },
        },
    }
}

pub open spec fn with_times<P: MetadataProfile>(profile: &P, records: Records, m: PortableValue) -> Result<
    Records,
    FormatError,
> {
    match with_time(
        profile,
        records,
        text("LIBARCHIVE.creationtime"),
        m.created,
        profile.posix_profile_needed(m.source_os),
        m.native.primary_pax_records,
    ) {
        Err(e) => Err(e),
        Ok(created) => with_time(
            profile,
            created,
            text("atime"),
            m.accessed,
            false,
            m.native.primary_pax_records,
        ),
    }
}

/// Records that mark a sparse member.
pub open spec fn with_sparse(records: Records, v: PrimaryValue) -> Records {
    if v.sparse_extents is Some {
        records.insert(text("GNU.sparse.major"), text("1")).insert(
            text("GNU.sparse.minor"),
            text("0"),
        ).insert(text("GNU.sparse.name"), v.path).insert(
            text("GNU.sparse.realsize"),
            decimal(v.file_size as nat),
        )
    } else {
        records
    }
}

/// Records that depend on the auxiliary records and on the link target.
pub open spec fn with_status_and_link(records: Records, v: PrimaryValue) -> Records {
    let status = if has_capture_report(v.metadata.native.auxiliary_records) {
        records.insert(text("TZAP.metadata.capture-status"), text("partial"))
    } else {
        records
    };
    match v.link_target {
        Some(target) => if target.len() > 100 {
            status.insert(text("linkpath"), target)
        } else {
            status
        },
        None => status,
    }
}

/// Puts the modification time into the header, or into the records where it does not fit.
pub open spec fn placed_mtime<P: MetadataProfile>(
    profile: &P,
    records: Records,
    mtime: ArchiveTimestamp,
) -> Result<(Records, u64), FormatError> {
    if mtime.nanoseconds == 0 && mtime.seconds >= 0 && octal_fits(12, mtime.seconds as int) {
        Ok((records, mtime.seconds as u64))
    } else {
        match profile.timestamp_text(mtime) {
            Err(e) => Err(e),
            Ok(value) => Ok((records.insert(text("mtime"), value), 0)),
        }
    }
}

/// All records of a primary member, and the header fields that go with them.
pub struct PrimaryRecords {
    pub records: Records,
    pub identity: IdentityValue,
    pub header_mtime: u64,
    pub header_size: u64,
}

pub open spec fn primary_records<P: MetadataProfile>(
    profile: &P,
    v: PrimaryValue,
    stored_size: u64,
) -> Result<PrimaryRecords, FormatError> {
    let m = v.metadata;
    match profile.base_records(v.path, v.mode, m.source_os, overrides_path(v)) {
        Err(e) => Err(e),
        Ok(base) => match with_times(profile, origin_records(base, m), m) {
            Err(e) => Err(e),
            Ok(timed) => match merged_native(with_sparse(timed, v), m.native) {
                Err(e) => Err(e),
                Ok(merged) => match placed_owner(with_status_and_link(merged, v), m.posix_owner) {
                    Err(e) => Err(e),
                    Ok((owned, identity)) => match placed_mtime(profile, owned, v.mtime) {
                        Err(e) => Err(e),
                        Ok((dated, header_mtime)) => {
                            let (records, header_size) = placed_number(
                                dated,
                                text("size"),
                                12,
                                stored_size,
                            );
                            Ok(PrimaryRecords { records, identity, header_mtime, header_size })
                        },
                    },
                },
            },
        },
    }
}

pub open spec fn header_path(v: PrimaryValue) -> Seq<u8> {
    if v.sparse_extents is Some {
        text("GNUSparseFile.0/TZAP")
    } else if overrides_path(v) {
        text("TZAP-PRIMARY")
    } else {
        v.path
    }
}

pub open spec fn type_flag(kind: SourceEntryKind) -> u8 {
    match kind.spec_tar_kind() {
        TarEntryKind::Regular => 48,
        TarEntryKind::Hardlink => 49,
        TarEntryKind::Symlink => 50,
        TarEntryKind::CharacterDevice => 51,
        TarEntryKind::BlockDevice => 52,
        TarEntryKind::Directory => 53,
        TarEntryKind::Fifo => 54,
    }
}

pub open spec fn linked_header(header: Seq<u8>, v: PrimaryValue) -> Seq<u8> {
    match v.link_target {
        Some(target) => if target.len() > 100 {
            header
        } else {
            with_checksum(overlay(header, 157, target))
        },
        None => header,
    }
}

/// A device number as the records give it.
pub open spec fn device_number(records: Records, key: Seq<u8>) -> Result<u64, FormatError> {
    if !records.dom().contains(key) {
        Err(FormatError::WriterInvariant("device member lacks device-number metadata"))
    } else {
        match parsed_number(records[key], 10, u64::MAX as int) {
            Some(n) => Ok(n as u64),
            None => Err(FormatError::WriterUnsupported("device number is not canonical decimal")),
        }
    }
}

/// A number in a header field, where it fits.
pub open spec fn with_number_that_fits(header: Seq<u8>, at: int, value: u64) -> Seq<u8> {
    if octal_fits(8, value as int) {
        overlay(header, at, octal_field(8, value as int))
    } else {
        header
    }
}

pub open spec fn device_header(header: Seq<u8>, kind: SourceEntryKind, records: Records) -> Result<
    Seq<u8>,
    FormatError,
> {
    if kind == SourceEntryKind::CharacterDevice || kind == SourceEntryKind::BlockDevice {
        match device_number(records, text("TZAP.posix.device-major")) {
            Err(e) => Err(e),
            Ok(major) => match device_number(records, text("TZAP.posix.device-minor")) {
                Err(e) => Err(e),
                Ok(minor) => Ok(
                    with_checksum(
                        with_number_that_fits(
                            with_number_that_fits(header, 329, major),
                            337,
                            minor,
                        ),
                    ),
                ),
            },
        }
    } else {
        Ok(header)
    }
}

/// The header of the primary member.
pub open spec fn primary_header(v: PrimaryValue, p: PrimaryRecords) -> Result<
    Seq<u8>,
    FormatError,
> {
    match ustar_header_outcome(
        header_path(v),
        p.header_size as int,
        v.mode as int,
        p.header_mtime as int,
        type_flag(v.entry_kind),
    ) {
        Err(e) => Err(e),
        Ok(header) => device_header(
            owned_header(linked_header(header, v), p.identity),
            v.entry_kind,
            p.records,
        ),
    }
}

/// The bytes of the primary member in front of its data.
pub open spec fn primary_bytes<P: MetadataProfile>(
    profile: &P,
    v: PrimaryValue,
    p: PrimaryRecords,
    map: Option<Seq<u8>>,
) -> Result<Seq<u8>, FormatError> {
    match headed_by_records(profile, text("TZAP-PAX/PRIMARY"), p.records) {
        Err(e) => Err(e),
        Ok(head) => match primary_header(v, p) {
            Err(e) => Err(e),
            Ok(header) => Ok(
                match map {
                    Some(m) => head + header + m,
                    None => head + header,
                },
            ),
        },
    }
}

/// The members that stand for a file, or why it cannot be stored.
pub open spec fn layout_outcome<C: ArchiveCodec + MetadataProfile>(codec: &C, v: PrimaryValue) -> Result<
    LayoutValue,
    FormatError,
> {
    match shape_refusal(codec, v) {
        Some(e) => Err(e),
        None => match stored_size_outcome(v, codec.extent_limit()) {
            Err(e) => Err(e),
            Ok(stored_size) => match portable_refusal(codec, v.metadata) {
                Some(e) => Err(e),
                None => if is_reparse(v.entry_kind)
                    != v.metadata.native.primary_pax_records.dom().contains(
                    text("TZAP.windows.reparse-placeholder"),
                ) {
                    Err(
                        FormatError::WriterInvariant(
                            "Windows reparse source kind and placeholder metadata disagree",
                        ),
                    )
                } else {
                    match primary_records(codec, v, stored_size) {
                        Err(e) => Err(e),
                        Ok(p) => checked_layout(codec, v, p),
                    }
                },
            },
        },
    }
}

/// The members that stand for a file whose records are known.
pub open spec fn checked_layout<C: ArchiveCodec + MetadataProfile>(
    codec: &C,
    v: PrimaryValue,
    p: PrimaryRecords,
) -> Result<LayoutValue, FormatError> {
    let aux = v.metadata.native.auxiliary_records;
    if !codec.primary_declaration_valid(p.records) {
        Err(
            FormatError::WriterUnsupported(
                "native primary metadata is not a valid v45 declaration",
            ),
        )
    } else {
        match auxiliary_prefixes(codec, aux, aux.len()) {
            Err(e) => Err(e),
            Ok(prefixes) => if !codec.group_valid(p.records, declarations_of(prefixes)) {
                Err(
                    FormatError::WriterUnsupported(
                        "native auxiliary metadata is not a valid v45 declaration",
                    ),
                )
            } else {
                match primary_bytes(codec, v, p, sparse_head(v, codec.extent_limit())->Ok_0) {
                    Err(e) => Err(e),
                    Ok(primary) => Ok(LayoutValue { auxiliary: members_of(prefixes), primary }),
                }
            },
        }
    }
}

/// What the members of a file are made from.
pub struct PrimaryInput<'a> {
    pub path: &'a [u8],
    pub entry_kind: SourceEntryKind,
    pub link_target: Option<&'a [u8]>,
    pub file_size: u64,
    pub sparse_extents: Option<&'a [SparseExtent]>,
    pub mode: u32,
    pub mtime: ArchiveTimestamp,
    pub portable_metadata: &'a PortableFileMetadata,
}

pub open spec fn opt_extent_slice(e: Option<&[SparseExtent]>) -> Option<Seq<SparseExtent>> {
    match e {
        Some(v) => Some(v@),
        None => None,
    }
}

impl<'a> View for PrimaryInput<'a> {
    type V = PrimaryValue;

    open spec fn view(&self) -> PrimaryValue {
        PrimaryValue {
            path: self.path@,
            entry_kind: self.entry_kind,
            link_target: opt_bytes(self.link_target),
            file_size: self.file_size,
            sparse_extents: opt_extent_slice(self.sparse_extents),
            mode: self.mode,
            mtime: self.mtime,
            metadata: self.portable_metadata@,
        }
    }
}

fn check_shape<C: ArchiveCodec>(codec: &C, input: &PrimaryInput<'_>) -> (r: Result<(), FormatError>)
    requires
        input.portable_metadata.wf(),
    ensures
        r == (match shape_refusal(codec, input@) {
            Some(e) => Err(e),
            None => Ok(()),
        }),
{
    let is_regular: bool = match input.entry_kind {
        SourceEntryKind::Regular => true,
        _ => false,
    };
    if !is_regular && (input.file_size != 0 || input.sparse_extents.is_some()) {
        return Err(FormatError::WriterInvariant("non-regular member has non-zero file data size"));
    }
    match (input.entry_kind, input.link_target) {
        (SourceEntryKind::Symlink, Some(target)) => {
            codec.check_symlink(input.path, target)?;
        },
        (SourceEntryKind::Hardlink, Some(target)) => {
            codec.check_path(target, u32::MAX)?;
            if same_bytes(target, input.path) {
                return Err(FormatError::WriterInvariant("hardlink aliases itself"));
            }
            if !input.portable_metadata.native.is_default() {
                return Err(
                    FormatError::WriterInvariant(
                        "hardlink alias carries native file-object metadata",
                    ),
                );
            }
        },
        (SourceEntryKind::Symlink, None) => {
            return Err(FormatError::WriterInvariant("symlink member has no link target"));
        },
        (_, Some(_)) => {
            return Err(FormatError::WriterInvariant("non-link member has a link target"));
        },
        (_, None) => {},
    }
    Ok(())
}

/// Bytes of data that a source hands over for a member.
pub fn source_payload_size(
    file_size: u64,
    sparse_extents: Option<&[SparseExtent]>,
    max_extents: usize,
) -> (r: Result<u64, FormatError>)
    ensures
        r == source_payload_size_outcome(file_size, opt_extent_slice(sparse_extents), max_extents),
        r matches Ok(size) ==> size <= file_size,
{
    match sparse_extents {
        Some(extents) => sparse_extent_bytes(extents, file_size, max_extents),
        None => Ok(file_size),
    }
}

fn put_time<P: MetadataProfile>(
    profile: &P,
    records: &mut ByteMap<Vec<u8>>,
    key: &'static str,
    time: Option<ArchiveTimestamp>,
    names_posix: bool,
    native: &ByteMap<Vec<u8>>,
) -> (r: Result<(), FormatError>)
    requires
        old(records).wf(),
        native.wf(),
    ensures
        final(records).wf(),
        match (
            r,
            with_time(
                profile,
                pax_map(*old(records)),
                text(key),
                time,
                names_posix,
                pax_map(*native),
            ),
        ) {
            (Ok(_), Ok(m)) => pax_map(*final(records)) == m,
            (Err(e), Err(f)) => e == f,
            _ => false,
        },
{
    let time: ArchiveTimestamp = match time {
        Some(time) => time,
        None => {
            return Ok(());
        },
    };
    let value: Vec<u8> = profile.canonical_pax_value(time)?;
    match pax_get(native, key) {
        Some(native_value) => {
            if !same_bytes(native_value.as_slice(), value.as_slice()) {
                return Err(
                    FormatError::WriterUnsupported(
                        "portable timestamp conflicts with native primary metadata",
                    ),
                );
            }
        },
        None => {
            pax_put(records, key, value);
            if names_posix {
                let mut profiles: Vec<u8> = text_bytes(PORTABLE_PROFILE);
                profiles.push(crate::text::COMMA);
                append(&mut profiles, text_bytes(POSIX_PROFILE).as_slice());
                assert(profiles@ =~= posix_profiles());
                pax_put(records, "TZAP.metadata.required-profiles", profiles);
            }
        },
    }
    Ok(())
}

fn put_origin(records: &mut ByteMap<Vec<u8>>, metadata: &PortableFileMetadata)
    requires
        old(records).wf(),
    ensures
        final(records).wf(),
        pax_map(*final(records)) == origin_records(pax_map(*old(records)), metadata@),
{
    pax_put(
        records,
        "TZAP.metadata.source-filesystem",
        text_bytes(metadata.source_filesystem.as_str()),
    );
    let origin: Vec<u8> = match metadata.mode_origin {
        PortableModeOrigin::Native => text_bytes("native"),
        PortableModeOrigin::Projected => text_bytes("projected"),
    };
    pax_put(records, "TZAP.portable.mode-origin", origin);
    if let Some(attributes) = metadata.attributes {
        pax_put(
            records,
            "TZAP.portable.attributes",
            hex_encode(be_vec(attributes as u64, 4).as_slice()),
        );
    }
}

fn put_sparse(records: &mut ByteMap<Vec<u8>>, input: &PrimaryInput<'_>)
    requires
        old(records).wf(),
    ensures
        final(records).wf(),
        pax_map(*final(records)) == with_sparse(pax_map(*old(records)), input@),
{
    if input.sparse_extents.is_some() {
        pax_put(records, "GNU.sparse.major", text_bytes("1"));
        pax_put(records, "GNU.sparse.minor", text_bytes("0"));
        pax_put(records, "GNU.sparse.name", to_bytes(input.path));
        pax_put(records, "GNU.sparse.realsize", decimal_digits(input.file_size));
    }
}

fn put_status_and_link(records: &mut ByteMap<Vec<u8>>, input: &PrimaryInput<'_>)
    requires
        old(records).wf(),
    ensures
        final(records).wf(),
        pax_map(*final(records)) == with_status_and_link(pax_map(*old(records)), input@),
{
    if reports_capture(&input.portable_metadata.native.auxiliary_records) {
        pax_put(records, "TZAP.metadata.capture-status", text_bytes("partial"));
    }
    if let Some(target) = input.link_target {
        if target.len() > 100 {
            pax_put(records, "linkpath", to_bytes(target));
        }
    }
}

fn put_mtime<P: MetadataProfile>(
    profile: &P,
    records: &mut ByteMap<Vec<u8>>,
    mtime: ArchiveTimestamp,
) -> (r: Result<u64, FormatError>)
    requires
        old(records).wf(),
    ensures
        final(records).wf(),
        match (r, placed_mtime(profile, pax_map(*old(records)), mtime)) {
            (Ok(seconds), Ok((m, value))) => seconds == value && pax_map(*final(records)) == m,
            (Err(e), Err(f)) => e == f,
            _ => false,
        },
{
    if mtime.nanoseconds == 0 && mtime.seconds >= 0 && tar_octal_fits(12, mtime.seconds as u64) {
        return Ok(mtime.seconds as u64);
    }
    let value: Vec<u8> = profile.canonical_pax_value(mtime)?;
    pax_put(records, "mtime", value);
    Ok(0)
}

/// The records of a primary member and the header fields that go with them.
struct BuiltRecords {
    records: ByteMap<Vec<u8>>,
    identity: PrimaryTarIdentity,
    header_mtime: u64,
    header_size: u64,
}

impl BuiltRecords {
    spec fn value(self) -> PrimaryRecords {
        PrimaryRecords {
            records: pax_map(self.records),
            identity: self.identity@,
            header_mtime: self.header_mtime,
            header_size: self.header_size,
        }
    }
}

fn build_primary_records<P: MetadataProfile>(
    profile: &P,
    input: &PrimaryInput<'_>,
    stored_size: u64,
) -> (r: Result<BuiltRecords, FormatError>)
    requires
        input.portable_metadata.wf(),
    ensures
        match (r, primary_records(profile, input@, stored_size)) {
            (Ok(built), Ok(p)) => built.value() == p && built.records.wf() && built.identity.fits(),
            (Err(e), Err(f)) => e == f,
            _ => false,
        },
{
    let metadata: &PortableFileMetadata = input.portable_metadata;
    let path_override: bool = input.sparse_extents.is_none() && path_requires_pax(input.path);
    let mut records: ByteMap<Vec<u8>> = profile.portable_primary_pax(
        input.path,
        input.mode,
        &metadata.source_os,
        path_override,
    )?;
    put_origin(&mut records, metadata);
    let names_posix: bool = profile.source_os_requires_posix_profile(&metadata.source_os);
    put_time(
        profile,
        &mut records,
        "LIBARCHIVE.creationtime",
        metadata.created,
        names_posix,
        &metadata.native.primary_pax_records,
    )?;
    put_time(
        profile,
        &mut records,
        "atime",
        metadata.accessed,
        false,
        &metadata.native.primary_pax_records,
    )?;
    put_sparse(&mut records, input);
    merge_native_primary_metadata(&mut records, &metadata.native)?;
    put_status_and_link(&mut records, input);
    let identity: PrimaryTarIdentity = prepare_primary_tar_identity(&mut records, metadata)?;
    let header_mtime: u64 = put_mtime(profile, &mut records, input.mtime)?;
    let header_size: u64 = place_number(&mut records, "size", 12, stored_size);
    Ok(BuiltRecords { records, identity, header_mtime, header_size })
}

fn read_device_number(records: &ByteMap<Vec<u8>>, key: &'static str) -> (r: Result<
    u64,
    FormatError,
>)
    requires
        records.wf(),
    ensures
        r == device_number(pax_map(*records), text(key)),
{
    match pax_get(records, key) {
        None => Err(FormatError::WriterInvariant("device member lacks device-number metadata")),
        Some(value) => match parse_number(value.as_slice(), 10, u64::MAX) {
            Some(n) => Ok(n),
            None => Err(FormatError::WriterUnsupported("device number is not canonical decimal")),
        },
    }
}

fn choose_type_flag(kind: SourceEntryKind) -> (r: u8)
    ensures
        r == type_flag(kind),
{
    match kind.tar_kind() {
        TarEntryKind::Regular => 48,
        TarEntryKind::Hardlink => 49,
        TarEntryKind::Symlink => 50,
        TarEntryKind::CharacterDevice => 51,
        TarEntryKind::BlockDevice => 52,
        TarEntryKind::Directory => 53,
        TarEntryKind::Fifo => 54,
    }
}

fn build_primary_header(input: &PrimaryInput<'_>, built: &BuiltRecords) -> (r: Result<
    Vec<u8>,
    FormatError,
>)
    requires
        built.records.wf(),
        built.identity.fits(),
    ensures
        bytes_agree(r, primary_header(input@, built.value())),
{
    let path: Vec<u8> = if input.sparse_extents.is_some() {
        text_bytes("GNUSparseFile.0/TZAP")
    } else if path_requires_pax(input.path) {
        text_bytes("TZAP-PRIMARY")
    } else {
        to_bytes(input.path)
    };
    let mut header: Vec<u8> = build_ustar_header(
        path.as_slice(),
        built.header_size,
        input.mode,
        built.header_mtime,
        choose_type_flag(input.entry_kind),
    )?;
    if let Some(target) = input.link_target {
        if target.len() <= 100 {
            overwrite(&mut header, 157, target);
            finalize_tar_checksum(&mut header)?;
        }
    }
    apply_primary_tar_identity(&mut header, &built.identity)?;
    let is_device: bool = match input.entry_kind {
        SourceEntryKind::CharacterDevice => true,
        SourceEntryKind::BlockDevice => true,
        _ => false,
    };
    if is_device {
        let major: u64 = read_device_number(&built.records, "TZAP.posix.device-major")?;
        let minor: u64 = read_device_number(&built.records, "TZAP.posix.device-minor")?;
        if tar_octal_fits(8, major) {
            write_tar_octal(&mut header, 329, 8, major)?;
        }
        if tar_octal_fits(8, minor) {
            write_tar_octal(&mut header, 337, 8, minor)?;
        }
        finalize_tar_checksum(&mut header)?;
    }
    Ok(header)
}

/// Parts the prefixes of auxiliary members into what is written and what is checked.
fn part_prefixes<'a>(prefixes: Vec<NativeAuxiliaryMemberPrefix<'a>>) -> (r: (
    Vec<AuxiliaryMember>,
    Vec<AuxiliaryDeclaration<'a>>,
))
    requires
        forall|i: int| 0 <= i < prefixes@.len() ==> (#[trigger] prefixes@[i]).declaration.records.wf(),
    ensures
        member_values(r.0@) == members_of(prefix_values(prefixes@)),
        declaration_values(r.1@) == declarations_of(prefix_values(prefixes@)),
        forall|i: int| 0 <= i < r.1@.len() ==> (#[trigger] r.1@[i]).records.wf(),
{
    let ghost all = prefixes@;
    let mut prefixes = prefixes;
    let mut members: Vec<AuxiliaryMember> = Vec::new();
    let mut declarations: Vec<AuxiliaryDeclaration<'a>> = Vec::new();
    while prefixes.len() > 0
        invariant
            prefixes@.len() + members@.len() == all.len(),
            members@.len() == declarations@.len(),
            prefixes@ =~= all.skip(members@.len() as int),
            forall|i: int| 0 <= i < all.len() ==> (#[trigger] all[i]).declaration.records.wf(),
            forall|k: int|
                0 <= k < members@.len() ==> (#[trigger] members@[k])@ == members_of(
                    prefix_values(all),
                )[k],
            forall|k: int|
                0 <= k < declarations@.len() ==> (#[trigger] declarations@[k])@
                    == all[k].declaration@ && declarations@[k].records.wf(),
        decreases prefixes@.len(),
    {
        let ghost k = members@.len() as int;
        let prefix: NativeAuxiliaryMemberPrefix<'a> = prefixes.remove(0);
        assert(prefix == all[k]);
        let NativeAuxiliaryMemberPrefix { bytes, stored_size, sha256, declaration } = prefix;
        members.push(AuxiliaryMember { bytes, stored_size, sha256 });
        declarations.push(declaration);
    }
    assert(member_values(members@) =~= members_of(prefix_values(all)));
    assert(declaration_values(declarations@) =~= declarations_of(prefix_values(all)));
    (members, declarations)
}

pub open spec fn layout_agree(
    r: Result<PrimaryMemberLayout, FormatError>,
    s: Result<LayoutValue, FormatError>,
) -> bool {
    match (r, s) {
        (Ok(v), Ok(w)) => v@ == w,
        (Err(e), Err(f)) => e == f,
        _ => false,
    }
}

/// Builds the members that stand for one file, without the payloads.
#[verifier::rlimit(40)]
pub fn build_primary_member_layout<C: ArchiveCodec + MetadataProfile>(
    codec: &C,
    input: &PrimaryInput<'_>,
) -> (r: Result<PrimaryMemberLayout, FormatError>)
    requires
        input.portable_metadata.wf(),
    ensures
        layout_agree(r, layout_outcome(codec, input@)),
{
    let limit: usize = codec.max_sparse_extents();
    check_shape(codec, input)?;
    let sparse_map: Option<Vec<u8>> = match input.sparse_extents {
        Some(extents) => Some(encode_v45_sparse_map(extents, input.file_size, limit)?),
        None => None,
    };
    let stored_extent_bytes: u64 = source_payload_size(
        input.file_size,
        input.sparse_extents,
        limit,
    )?;
    let map_len: u64 = match &sparse_map {
        Some(map) => map.len() as u64,
        None => 0,
    };
    let stored_size: u64 = checked_u64_add(
        map_len,
        stored_extent_bytes,
        "sparse primary stored size",
    )?;
    validate_portable_file_metadata(codec, input.portable_metadata)?;
    let native: &NativeFileMetadata = &input.portable_metadata.native;
    let has_placeholder: bool = pax_get(
        &native.primary_pax_records,
        "TZAP.windows.reparse-placeholder",
    ).is_some();
    let is_reparse_kind: bool = match input.entry_kind {
        SourceEntryKind::ReparseDirectory => true,
        SourceEntryKind::ReparseRegular => true,
        _ => false,
    };
    if is_reparse_kind != has_placeholder {
        return Err(
            FormatError::WriterInvariant(
                "Windows reparse source kind and placeholder metadata disagree",
            ),
        );
    }
    let built: BuiltRecords = build_primary_records(codec, input, stored_size)?;
    if !codec.check_primary_declaration(&built.records) {
        return Err(
            FormatError::WriterUnsupported(
                "native primary metadata is not a valid v45 declaration",
            ),
        );
    }
    let prefixes = build_auxiliary_prefixes(codec, native)?;
    let (auxiliary, declarations) = part_prefixes(prefixes);
    if !codec.check_group(&built.records, &declarations) {
        return Err(
            FormatError::WriterUnsupported(
                "native auxiliary metadata is not a valid v45 declaration",
            ),
        );
    }
    let label: Vec<u8> = text_bytes("TZAP-PAX/PRIMARY");
    let mut primary: Vec<u8> = build_records_header(codec, label.as_slice(), &built.records)?;
    let header: Vec<u8> = build_primary_header(input, &built)?;
    append(&mut primary, header.as_slice());
    if let Some(map) = &sparse_map {
        append(&mut primary, map.as_slice());
    }
    Ok(PrimaryMemberLayout { auxiliary, primary })
}

// ---------------------------------------------------------------------------------------------
// Sizes and whole groups
// ---------------------------------------------------------------------------------------------

/// Bytes of the first `count` auxiliary members with their payloads.
pub open spec fn auxiliary_size(auxiliary: Seq<AuxiliaryMemberValue>, count: nat) -> int
    decreases count,
{
    if count == 0 {
        0
    } else {
        let member = auxiliary[count - 1];
        auxiliary_size(auxiliary, (count - 1) as nat) + member.bytes.len() + member.stored_size
            + tar_padding(member.stored_size as int)
    }
}

/// Bytes of all members of a file, given how much data its source hands over.
pub open spec fn group_size(layout: LayoutValue, payload_size: u64) -> int {
    auxiliary_size(layout.auxiliary, layout.auxiliary.len()) + layout.primary.len() + payload_size
        + tar_padding(payload_size as int)
}

pub open spec fn group_size_outcome(layout: LayoutValue, payload_size: u64) -> Result<
    u64,
    FormatError,
> {
    if auxiliary_size(layout.auxiliary, layout.auxiliary.len()) > u64::MAX {
        Err(FormatError::WriterUnsupported("auxiliary member"))
    } else {
        fit_u64(group_size(layout, payload_size), "primary member")
    }
}

pub proof fn auxiliary_size_grows(auxiliary: Seq<AuxiliaryMemberValue>, count: nat, total: nat)
    requires
        count <= total,
    ensures
        0 <= auxiliary_size(auxiliary, count) <= auxiliary_size(auxiliary, total),
    decreases total,
{
    if count < total {
        auxiliary_size_grows(auxiliary, count, (total - 1) as nat);
    } else if count > 0 {
        auxiliary_size_grows(auxiliary, (count - 1) as nat, (count - 1) as nat);
    }
}

pub fn primary_member_layout_size(layout: &PrimaryMemberLayout, primary_payload_size: u64) -> (r:
    Result<u64, FormatError>)
    ensures
        r == group_size_outcome(layout@, primary_payload_size),
        r matches Ok(size) ==> size == group_size(layout@, primary_payload_size),
{
    let ghost auxiliary = layout@.auxiliary;
    let mut size: u64 = 0;
    let mut i: usize = 0;
    while i < layout.auxiliary.len()
        invariant
            i <= layout.auxiliary@.len(),
            auxiliary == layout@.auxiliary,
            size == auxiliary_size(auxiliary, i as nat),
        decreases layout.auxiliary.len() - i,
    {
        let member: &AuxiliaryMember = &layout.auxiliary[i];
        proof {
            assert(auxiliary[i as int] == member@);
            auxiliary_size_grows(auxiliary, (i + 1) as nat, auxiliary.len());
        }
        size = checked_u64_add(size, member.bytes.len() as u64, "auxiliary member")?;
        size = checked_u64_add(size, member.stored_size, "auxiliary member")?;
        size = checked_u64_add(
            size,
            padding_to_512_u64(member.stored_size),
            "auxiliary member",
        )?;
        i = i + 1;
    }
    size = checked_u64_add(size, layout.primary.len() as u64, "primary member")?;
    size = checked_u64_add(size, primary_payload_size, "primary member")?;
    checked_u64_add(size, padding_to_512_u64(primary_payload_size), "primary member")
}

/// The first `count` auxiliary members with their inline payloads.
pub open spec fn inline_members(
    members: Seq<AuxiliaryMemberValue>,
    records: Seq<AuxiliaryValue>,
    count: nat,
) -> Seq<u8>
    decreases count,
{
    if count == 0 {
        Seq::empty()
    } else {
        inline_members(members, records, (count - 1) as nat) + members[count - 1].bytes
            + records[count - 1].payload + zeros(
            tar_padding(members[count - 1].stored_size as int),
        )
    }
}

pub open spec fn any_streamed(records: Seq<AuxiliaryValue>) -> bool {
    exists|i: int| 0 <= i < records.len() && (#[trigger] records[i]).streamed_payload is Some
}

/// Everything of a file's members in front of its data.
pub open spec fn member_prefix_outcome<C: ArchiveCodec + MetadataProfile>(
    codec: &C,
    v: PrimaryValue,
) -> Result<Seq<u8>, FormatError> {
    let records = v.metadata.native.auxiliary_records;
    match layout_outcome(codec, v) {
        Err(e) => Err(e),
        Ok(layout) => if any_streamed(records) {
            Err(
                FormatError::WriterUnsupported(
                    "this writer path does not accept streamed auxiliary payloads",
                ),
            )
        } else {
            Ok(inline_members(layout.auxiliary, records, records.len()) + layout.primary)
        },
    }
}

/// As many members as records.
proof fn prefixes_match_records<P: MetadataProfile>(
    profile: &P,
    records: Seq<AuxiliaryValue>,
    count: nat,
)
    requires
        count <= records.len(),
    ensures
        auxiliary_prefixes(profile, records, count) matches Ok(prefixes) ==> {
            &&& prefixes.len() == count
            &&& forall|i: int|
                0 <= i < count ==> {
                    &&& (#[trigger] prefixes[i]).stored_size == records[i].stored_size() as u64
                    &&& prefixes[i].sha256 == records[i].digest()
                    &&& prefixes[i].bytes.len() % 512 == 0
                }
        },
    decreases count,
{
    if count > 0 {
        prefixes_match_records(profile, records, (count - 1) as nat);
        if let Ok(prefixes) = auxiliary_prefixes(profile, records, count) {
            auxiliary_prefix_is_whole_records(profile, (count - 1) as u32, records[count - 1]);
        }
    }
}

proof fn headers_are_records(path: Seq<u8>, size: int, mode: int, mtime: int, typeflag: u8)
    ensures
        ustar_header_outcome(path, size, mode, mtime, typeflag) matches Ok(header) ==> header.len()
            == 512,
{
}

proof fn records_header_is_whole<P: MetadataProfile>(profile: &P, label: Seq<u8>, records: Records)
    ensures
        headed_by_records(profile, label, records) matches Ok(head) ==> head.len() % 512 == 0,
{
    if let Ok(payload) = profile.canonical_pax(records) {
        headers_are_records(label, payload.len() as int, 0, 0, 120);
        crate::arith::tar_padding_fills_the_last_record(payload.len() as int);
    }
}

proof fn auxiliary_prefix_is_whole_records<P: MetadataProfile>(
    profile: &P,
    ordinal: u32,
    record: AuxiliaryValue,
)
    ensures
        auxiliary_prefix_outcome(profile, ordinal, record) matches Ok(prefix) ==> prefix.bytes.len()
            % 512 == 0,
{
    let declared = auxiliary_records_of(profile, record);
    let (records, header_size) = placed_number(
        declared.union_prefer_right(record.meta),
        text("size"),
        12,
        record.stored_size() as u64,
    );
    records_header_is_whole(profile, numbered_label("TZAP-PAX/AUX/", ordinal), records);
    headers_are_records(numbered_label("TZAP-AUX/", ordinal), header_size as int, 0, 0, 90);
}

pub proof fn layout_matches_records<C: ArchiveCodec + MetadataProfile>(codec: &C, v: PrimaryValue)
    ensures
        layout_outcome(codec, v) matches Ok(layout) ==> {
            let records = v.metadata.native.auxiliary_records;
            &&& layout.auxiliary.len() == records.len()
            &&& forall|i: int|
                0 <= i < records.len() ==> {
                    &&& (#[trigger] layout.auxiliary[i]).stored_size
                        == records[i].stored_size() as u64
                    &&& layout.auxiliary[i].sha256 == records[i].digest()
                    &&& layout.auxiliary[i].bytes.len() % 512 == 0
                }
        },
{
    let records = v.metadata.native.auxiliary_records;
    prefixes_match_records(codec, records, records.len());
}

proof fn primary_header_is_a_record(v: PrimaryValue, p: PrimaryRecords)
    ensures
        primary_header(v, p) matches Ok(header) ==> header.len() == 512,
{
    headers_are_records(
        header_path(v),
        p.header_size as int,
        v.mode as int,
        p.header_mtime as int,
        type_flag(v.entry_kind),
    );
}

proof fn primary_is_whole_records<P: MetadataProfile>(
    profile: &P,
    v: PrimaryValue,
    p: PrimaryRecords,
    map: Option<Seq<u8>>,
)
    requires
        map matches Some(m) ==> m.len() % 512 == 0,
    ensures
        primary_bytes(profile, v, p, map) matches Ok(primary) ==> primary.len() % 512 == 0,
{
    records_header_is_whole(profile, text("TZAP-PAX/PRIMARY"), p.records);
    primary_header_is_a_record(v, p);
}

proof fn layout_primary_is_whole<C: ArchiveCodec + MetadataProfile>(codec: &C, v: PrimaryValue)
    ensures
        layout_outcome(codec, v) matches Ok(layout) ==> layout.primary.len() % 512 == 0,
{
    if let Ok(layout) = layout_outcome(codec, v) {
        let stored_size = stored_size_outcome(v, codec.extent_limit())->Ok_0;
        let p = primary_records(codec, v, stored_size)->Ok_0;
        let map = sparse_head(v, codec.extent_limit())->Ok_0;
        if let Some(extents) = v.sparse_extents {
            crate::sparse::sparse_map_is_whole_records(extents);
        }
        primary_is_whole_records(codec, v, p, map);
    }
}

proof fn group_is_whole(layout: LayoutValue, payload_size: u64)
    requires
        layout.primary.len() % 512 == 0,
        forall|i: int|
            0 <= i < layout.auxiliary.len() ==> (#[trigger] layout.auxiliary[i]).bytes.len() % 512
                == 0,
    ensures
        group_size(layout, payload_size) % 512 == 0,
{
    crate::arith::tar_padding_fills_the_last_record(payload_size as int);
    auxiliary_size_is_whole(layout.auxiliary, layout.auxiliary.len());
}

/// Every header that stands for a file takes whole tar records, so that payloads start on a
/// record boundary, and so does the group as a whole.
pub proof fn member_groups_are_whole_records<C: ArchiveCodec + MetadataProfile>(
    codec: &C,
    v: PrimaryValue,
    layout: LayoutValue,
    payload_size: u64,
)
    requires
        layout_outcome(codec, v) == Ok::<LayoutValue, FormatError>(layout),
    ensures
        layout.primary.len() % 512 == 0,
        forall|i: int|
            0 <= i < layout.auxiliary.len() ==> (#[trigger] layout.auxiliary[i]).bytes.len() % 512
                == 0,
        group_size(layout, payload_size) % 512 == 0,
{
    layout_matches_records(codec, v);
    layout_primary_is_whole(codec, v);
    group_is_whole(layout, payload_size);
}

proof fn auxiliary_size_is_whole(auxiliary: Seq<AuxiliaryMemberValue>, count: nat)
    requires
        count <= auxiliary.len(),
        forall|i: int|
            0 <= i < auxiliary.len() ==> (#[trigger] auxiliary[i]).bytes.len() % 512 == 0,
    ensures
        auxiliary_size(auxiliary, count) % 512 == 0,
    decreases count,
{
    if count > 0 {
        auxiliary_size_is_whole(auxiliary, (count - 1) as nat);
        let member = auxiliary[count - 1];
        crate::arith::tar_padding_fills_the_last_record(member.stored_size as int);
    }
}

pub fn build_primary_member_prefix<C: ArchiveCodec + MetadataProfile>(
    codec: &C,
    input: &PrimaryInput<'_>,
) -> (r: Result<Vec<u8>, FormatError>)
    requires
        input.portable_metadata.wf(),
    ensures
        bytes_agree(r, member_prefix_outcome(codec, input@)),
{
    let layout: PrimaryMemberLayout = build_primary_member_layout(codec, input)?;
    let records: &Vec<NativeAuxiliaryMetadata> = &input.portable_metadata.native.auxiliary_records;
    let ghost values = input@.metadata.native.auxiliary_records;
    let ghost members = layout@.auxiliary;
    proof {
        layout_matches_records(codec, input@);
        assert(members.len() == values.len());
    }
    let mut out: Vec<u8> = Vec::new();
    let mut i: usize = 0;
    assert(out@ =~= inline_members(members, values, 0));
    while i < layout.auxiliary.len()
        invariant
            i <= layout.auxiliary@.len(),
            layout.auxiliary@.len() == records@.len(),
            values == crate::metadata::auxiliary_values(records@),
            values == input@.metadata.native.auxiliary_records,
            members == layout@.auxiliary,
            layout_outcome(codec, input@) == Ok::<LayoutValue, FormatError>(layout@),
            out@ == inline_members(members, values, i as nat),
            forall|k: int| 0 <= k < i ==> (#[trigger] values[k]).streamed_payload is None,
        decreases layout.auxiliary.len() - i,
    {
        let record: &NativeAuxiliaryMetadata = &records[i];
        let member: &AuxiliaryMember = &layout.auxiliary[i];
        assert(values[i as int] == record@);
        assert(members[i as int] == member@);
        if record.is_streamed() {
            return Err(
                FormatError::WriterUnsupported(
                    "this writer path does not accept streamed auxiliary payloads",
                ),
            );
        }
        append(&mut out, member.bytes.as_slice());
        append(&mut out, record.payload.as_slice());
        let padding: Vec<u8> = zero_vec(padding_to_512_u64(member.stored_size) as usize);
        append(&mut out, padding.as_slice());
        i = i + 1;
    }
    append(&mut out, layout.primary.as_slice());
    Ok(out)
}

/// A regular file without link target or holes.
pub open spec fn regular_value(
    path: Seq<u8>,
    file_size: u64,
    mode: u32,
    mtime: ArchiveTimestamp,
    metadata: PortableValue,
) -> PrimaryValue {
    PrimaryValue {
        path,
        entry_kind: SourceEntryKind::Regular,
        link_target: None,
        file_size,
        sparse_extents: None,
        mode,
        mtime,
        metadata,
    }
}

pub fn build_regular_file_member_prefix<C: ArchiveCodec + MetadataProfile>(
    codec: &C,
    path: &[u8],
    file_size: u64,
    mode: u32,
    mtime: ArchiveTimestamp,
    portable_metadata: &PortableFileMetadata,
) -> (r: Result<Vec<u8>, FormatError>)
    requires
        portable_metadata.wf(),
    ensures
        bytes_agree(
            r,
            member_prefix_outcome(
                codec,
                regular_value(path@, file_size, mode, mtime, portable_metadata@),
            ),
        ),
{
    build_primary_member_prefix(
        codec,
        &PrimaryInput {
            path,
            entry_kind: SourceEntryKind::Regular,
            link_target: None,
            file_size,
            sparse_extents: None,
            mode,
            mtime,
            portable_metadata,
        },
    )
}

/// All members of a regular file with its data.
pub open spec fn member_group_outcome<C: ArchiveCodec + MetadataProfile>(
    codec: &C,
    path: Seq<u8>,
    contents: Seq<u8>,
    mode: u32,
    mtime: ArchiveTimestamp,
    metadata: PortableValue,
) -> Result<Seq<u8>, FormatError> {
    match member_prefix_outcome(
        codec,
        regular_value(path, contents.len() as u64, mode, mtime, metadata),
    ) {
        Err(e) => Err(e),
        Ok(prefix) => Ok(prefix + contents + zeros(tar_padding(contents.len() as int))),
    }
}

pub fn build_regular_file_member_group<C: ArchiveCodec + MetadataProfile>(
    codec: &C,
    path: &[u8],
    contents: &[u8],
    mode: u32,
    mtime: ArchiveTimestamp,
    portable_metadata: &PortableFileMetadata,
) -> (r: Result<Vec<u8>, FormatError>)
    requires
        portable_metadata.wf(),
    ensures
        bytes_agree(
            r,
            member_group_outcome(codec, path@, contents@, mode, mtime, portable_metadata@),
        ),
{
    let mut out: Vec<u8> = build_regular_file_member_prefix(
        codec,
        path,
        contents.len() as u64,
        mode,
        mtime,
        portable_metadata,
    )?;
    append(&mut out, contents);
    let padding: Vec<u8> = zero_vec(padding_to_512(contents.len()));
    append(&mut out, padding.as_slice());
    Ok(out)
}

} // verus!
