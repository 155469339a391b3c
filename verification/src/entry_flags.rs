//! What a file entry says about the metadata of its member.
use crate::byte_map::ByteMap;
use crate::errors::FormatError;
use crate::metadata::{
    AuxiliaryValue, NativeAuxiliaryMetadata, NativeFileMetadata, PortableFileMetadata,
    PortableValue, RestoreClass,
};
use crate::pax::pax_map;
use crate::profile::{CAPTURE_REPORT_KIND, EntryFlagBits, MetadataProfile, PORTABLE_PROFILE};
use crate::text::{
    any_token_of, has_prefix, has_token_among, is_text, is_utf8, parse_number, parsed_number,
    starts_with, text, texts,
};
use vstd::prelude::*;

verus! {

/// The set-user-ID and set-group-ID bits of a mode.
pub const SET_ID_BITS: u32 = 3072;

/// The bits that portable attributes may have.
pub const PORTABLE_ATTRIBUTE_LIMIT: u32 = 15;

pub const LINUX_SYSTEM_FLAGS: u64 = 48;

pub const BSD_SYSTEM_FLAGS: u64 = 393_222;

pub const MACOS_SYSTEM_FLAGS: u64 = 10_420_358;

pub const WINDOWS_SYSTEM_ATTRIBUTES: u64 = 2;

/// File flags that only the system may set.
pub open spec fn system_file_flags() -> Seq<&'static str> {
    seq!["append", "immutable", "sappnd", "schg", "uappnd", "uchg"]
}

/// Whether `value` is a hexadecimal number of at most `limit` that has one of the bits.
pub open spec fn hex_has_bits(value: Seq<u8>, limit: u64, bits: u64) -> bool {
    match parsed_number(value, 16, limit as int) {
        Some(n) => (n as u64) & bits != 0,
        None => false,
    }
}

/// Whether restoring a native record takes the rights of the system.
pub open spec fn is_system_record(key: Seq<u8>, value: Seq<u8>, source_os: Seq<char>) -> bool {
    ||| starts_with(key, text("TZAP.posix.device-"))
    ||| key == text("TZAP.linux.whiteout")
    ||| key == text("TZAP.linux.project-id")
    ||| key == text("TZAP.windows.reparse-placeholder")
    ||| key == text("TZAP.windows.directory-case-sensitive")
    ||| starts_with(key, text("LIBARCHIVE.xattr.security"))
    ||| starts_with(key, text("LIBARCHIVE.xattr.trusted"))
    ||| starts_with(key, text("LIBARCHIVE.xattr.system"))
    ||| source_os == "linux"@ && starts_with(key, text("LIBARCHIVE.xattr.")) && !starts_with(
        key,
        text("LIBARCHIVE.xattr.user."),
    ) && !starts_with(key, text("LIBARCHIVE.xattr.com.apple."))
    ||| key == text("TZAP.linux.fsflags") && hex_has_bits(value, u64::MAX, LINUX_SYSTEM_FLAGS)
    ||| key == text("TZAP.bsd.st-flags") && hex_has_bits(value, u64::MAX, BSD_SYSTEM_FLAGS)
    ||| key == text("TZAP.macos.st-flags") && hex_has_bits(value, u64::MAX, MACOS_SYSTEM_FLAGS)
    ||| key == text("TZAP.windows.data-stream-attributes") && hex_has_bits(
        value,
        u32::MAX as u64,
        WINDOWS_SYSTEM_ATTRIBUTES,
    )
    ||| key == text("SCHILY.fflags") && vstd::utf8::valid_utf8(value) && has_token_among(
        value,
        texts(system_file_flags()),
    )
}

/// Whether some native record takes the rights of the system.
pub open spec fn has_system_record(
    records: Map<Seq<u8>, Seq<u8>>,
    source_os: Seq<char>,
) -> bool {
    exists|key: Seq<u8>| #[trigger]
        records.dom().contains(key) && is_system_record(key, records[key], source_os)
}

fn value_has_bits(value: &[u8], limit: u64, bits: u64) -> (r: bool)
    ensures
        r == hex_has_bits(value@, limit, bits),
{
    match parse_number(value, 16, limit) {
        Some(n) => n & bits != 0,
        None => false,
    }
}

fn record_is_system(key: &[u8], value: &[u8], from_linux: bool, source_os: Ghost<Seq<char>>) -> (r:
    bool)
    requires
        from_linux == (source_os@ == "linux"@),
    ensures
        r == is_system_record(key@, value@, source_os@),
{
    if has_prefix(key, "TZAP.posix.device-") || is_text(key, "TZAP.linux.whiteout") || is_text(
        key,
        "TZAP.linux.project-id",
    ) || is_text(key, "TZAP.windows.reparse-placeholder") || is_text(
        key,
        "TZAP.windows.directory-case-sensitive",
    ) || has_prefix(key, "LIBARCHIVE.xattr.security") || has_prefix(
        key,
        "LIBARCHIVE.xattr.trusted",
    ) || has_prefix(key, "LIBARCHIVE.xattr.system") {
        return true;
    }
    if from_linux && has_prefix(key, "LIBARCHIVE.xattr.") && !has_prefix(
        key,
        "LIBARCHIVE.xattr.user.",
    ) && !has_prefix(key, "LIBARCHIVE.xattr.com.apple.") {
        return true;
    }
    if is_text(key, "TZAP.linux.fsflags") && value_has_bits(value, u64::MAX, LINUX_SYSTEM_FLAGS) {
        return true;
    }
    if is_text(key, "TZAP.bsd.st-flags") && value_has_bits(value, u64::MAX, BSD_SYSTEM_FLAGS) {
        return true;
    }
    if is_text(key, "TZAP.macos.st-flags") && value_has_bits(value, u64::MAX, MACOS_SYSTEM_FLAGS) {
        return true;
    }
    if is_text(key, "TZAP.windows.data-stream-attributes") && value_has_bits(
        value,
        u32::MAX as u64,
        WINDOWS_SYSTEM_ATTRIBUTES,
    ) {
        return true;
    }
    let flags: [&'static str; 6] = ["append", "immutable", "sappnd", "schg", "uappnd", "uchg"];
    assert(flags@ =~= system_file_flags());
    is_text(key, "SCHILY.fflags") && is_utf8(value) && any_token_of(value, flags.as_slice())
}

pub fn native_metadata_requires_system_restore(native: &NativeFileMetadata, source_os: &String) -> (r:
    bool)
    requires
        native.wf(),
    ensures
        r == has_system_record(native@.primary_pax_records, source_os@),
{
    let linux: String = "linux".to_owned();
    let from_linux: bool = *source_os == linux;
    let records: &ByteMap<Vec<u8>> = &native.primary_pax_records;
    let ghost map = pax_map(*records);
    let mut i: usize = 0;
    while i < records.entries().len()
        invariant
            i <= records.items().len(),
            records.wf(),
            map == pax_map(*records),
            map == native@.primary_pax_records,
            from_linux == (source_os@ == "linux"@),
            forall|k: int|
                0 <= k < i ==> !is_system_record(
                    (#[trigger] records.items()[k]).0@,
                    records.items()[k].1@,
                    source_os@,
                ),
        decreases records.items().len() - i,
    {
        let entry: &(Vec<u8>, Vec<u8>) = &records.entries()[i];
        if record_is_system(
            entry.0.as_slice(),
            entry.1.as_slice(),
            from_linux,
            Ghost(source_os@),
        ) {
            proof {
                records.place_is_unique(i as int);
                assert(map.dom().contains(entry.0@));
                assert(map[entry.0@] == entry.1@);
            }
            return true;
        }
        i = i + 1;
    }
    proof {
        assert forall|key: Seq<u8>| #[trigger] map.dom().contains(key) implies !is_system_record(
            key,
            map[key],
            source_os@,
        ) by {
            let p = records.place(key);
            assert(records.items()[p].0@ == key);
        }
    }
    false
}

// ---------------------------------------------------------------------------------------------
// Flags
// ---------------------------------------------------------------------------------------------

/// Whether a record reports what could not be captured.
pub open spec fn has_capture_report(records: Seq<AuxiliaryValue>) -> bool {
    exists|i: int| 0 <= i < records.len() && (#[trigger] records[i]).kind == CAPTURE_REPORT_KIND@
}

pub open spec fn any_native_auxiliary(records: Seq<AuxiliaryValue>) -> bool {
    exists|i: int| 0 <= i < records.len() && (#[trigger] records[i]).native
}

pub open spec fn any_sparse_auxiliary(records: Seq<AuxiliaryValue>) -> bool {
    exists|i: int| 0 <= i < records.len() && (#[trigger] records[i]).flags & 1 != 0
}

pub open spec fn any_system_auxiliary(records: Seq<AuxiliaryValue>) -> bool {
    exists|i: int|
        0 <= i < records.len() && (#[trigger] records[i]).restore_class == RestoreClass::System
}

/// Whether a profile other than the portable one is named.
pub open spec fn any_other_profile(profiles: Seq<Seq<char>>) -> bool {
    exists|i: int| 0 <= i < profiles.len() && #[trigger] profiles[i] != PORTABLE_PROFILE@
}

/// Whether the creation time of a file makes it carry native metadata.
pub open spec fn creation_time_is_native<P: MetadataProfile>(profile: &P, m: PortableValue) -> bool {
    m.created is Some && !m.native.primary_pax_records.dom().contains(
        text("LIBARCHIVE.creationtime"),
    ) && profile.posix_profile_needed(m.source_os)
}

pub open spec fn carries_native_metadata<P: MetadataProfile>(profile: &P, m: PortableValue) -> bool {
    ||| any_other_profile(m.native.required_profiles)
    ||| any_other_profile(m.native.optional_profiles)
    ||| m.native.primary_pax_records != Map::<Seq<u8>, Seq<u8>>::empty()
    ||| any_native_auxiliary(m.native.auxiliary_records)
    ||| creation_time_is_native(profile, m)
}

/// Whether restoring the file takes the rights of the system.
pub open spec fn needs_system_restore(mode: u32, m: PortableValue) -> bool {
    ||| mode & SET_ID_BITS != 0
    ||| m.posix_owner is Some
    ||| has_system_record(m.native.primary_pax_records, m.source_os)
    ||| any_system_auxiliary(m.native.auxiliary_records)
}

pub open spec fn bit_if(condition: bool, bit: u32) -> u32 {
    if condition {
        bit
    } else {
        0
    }
}

/// The flags of a file entry.
pub open spec fn entry_flags<P: MetadataProfile>(
    profile: &P,
    mode: u32,
    primary_sparse: bool,
    m: PortableValue,
) -> u32 {
    let bits = profile.flag_bits();
    let aux = m.native.auxiliary_records;
    bits.extended_metadata_v1 | bit_if(has_capture_report(aux), bits.capture_partial) | bit_if(
        aux.len() != 0,
        bits.has_auxiliary_streams,
    ) | bit_if(carries_native_metadata(profile, m), bits.has_native_metadata) | bit_if(
        primary_sparse || any_sparse_auxiliary(aux),
        bits.has_sparse_extents,
    ) | bit_if(needs_system_restore(mode, m), bits.requires_system_restore)
}

fn choose_bit(condition: bool, bit: u32) -> (r: u32)
    ensures
        r == bit_if(condition, bit),
{
    if condition {
        bit
    } else {
        0
    }
}

/// Whether a record reports what could not be captured.
pub fn reports_capture(records: &Vec<NativeAuxiliaryMetadata>) -> (r: bool)
    ensures
        r == has_capture_report(crate::metadata::auxiliary_values(records@)),
{
    let ghost values = crate::metadata::auxiliary_values(records@);
    let kind: String = CAPTURE_REPORT_KIND.to_owned();
    let mut i: usize = 0;
    while i < records.len()
        invariant
            i <= records@.len(),
            kind@ == CAPTURE_REPORT_KIND@,
            values == crate::metadata::auxiliary_values(records@),
            forall|k: int| 0 <= k < i ==> (#[trigger] values[k]).kind != CAPTURE_REPORT_KIND@,
        decreases records.len() - i,
    {
        if records[i].kind == kind {
            assert(values[i as int].kind == CAPTURE_REPORT_KIND@);
            return true;
        }
        i = i + 1;
    }
    false
}

fn names_other_profile(profiles: &Vec<String>) -> (r: bool)
    ensures
        r == any_other_profile(crate::metadata::strings(profiles@)),
{
    let ghost values = crate::metadata::strings(profiles@);
    let portable: String = PORTABLE_PROFILE.to_owned();
    let mut i: usize = 0;
    while i < profiles.len()
        invariant
            i <= profiles@.len(),
            portable@ == PORTABLE_PROFILE@,
            values == crate::metadata::strings(profiles@),
            forall|k: int| 0 <= k < i ==> #[trigger] values[k] == PORTABLE_PROFILE@,
        decreases profiles.len() - i,
    {
        let same: bool = profiles[i] == portable;
        if !same {
            assert(values[i as int] != PORTABLE_PROFILE@);
            return true;
        }
        i = i + 1;
    }
    false
}

/// What the auxiliary records of a file have among them.
struct AuxiliarySurvey {
    native: bool,
    sparse: bool,
    system: bool,
}

fn survey_auxiliary(records: &Vec<NativeAuxiliaryMetadata>) -> (r: AuxiliarySurvey)
    ensures
        r.native == any_native_auxiliary(crate::metadata::auxiliary_values(records@)),
        r.sparse == any_sparse_auxiliary(crate::metadata::auxiliary_values(records@)),
        r.system == any_system_auxiliary(crate::metadata::auxiliary_values(records@)),
{
    let ghost values = crate::metadata::auxiliary_values(records@);
    let mut survey: AuxiliarySurvey = AuxiliarySurvey {
        native: false,
        sparse: false,
        system: false,
    };
    let mut i: usize = 0;
    while i < records.len()
        invariant
            i <= records@.len(),
            values == crate::metadata::auxiliary_values(records@),
            survey.native <==> exists|k: int| 0 <= k < i && (#[trigger] values[k]).native,
            survey.sparse <==> exists|k: int| 0 <= k < i && (#[trigger] values[k]).flags & 1 != 0,
            survey.system <==> exists|k: int|
                0 <= k < i && (#[trigger] values[k]).restore_class == RestoreClass::System,
        decreases records.len() - i,
    {
        let ghost before = survey;
        let record: &NativeAuxiliaryMetadata = &records[i];
        assert(values[i as int] == record@);
        if record.native {
            survey.native = true;
        }
        if record.flags & 1 != 0 {
            survey.sparse = true;
        }
        match record.restore_class {
            RestoreClass::System => {
                survey.system = true;
            },
            _ => {},
        }
        i = i + 1;
    }
    survey
}

pub fn v45_portable_file_entry_flags<P: MetadataProfile>(
    profile: &P,
    mode: u32,
    primary_sparse: bool,
    metadata: &PortableFileMetadata,
) -> (r: u32)
    requires
        metadata.wf(),
    ensures
        r == entry_flags(profile, mode, primary_sparse, metadata@),
{
    let bits: EntryFlagBits = profile.entry_flag_bits();
    let native: &NativeFileMetadata = &metadata.native;
    let survey: AuxiliarySurvey = survey_auxiliary(&native.auxiliary_records);
    let empty: ByteMap<Vec<u8>> = crate::pax::pax_empty();
    let has_primary: bool = !crate::pax::pax_same(&native.primary_pax_records, &empty);
    let creation_key: bool = crate::pax::pax_get(
        &native.primary_pax_records,
        "LIBARCHIVE.creationtime",
    ).is_some();
    let creation_is_native: bool = metadata.created.is_some() && !creation_key
        && profile.source_os_requires_posix_profile(&metadata.source_os);
    let has_native: bool = names_other_profile(&native.required_profiles) || names_other_profile(
        &native.optional_profiles,
    ) || has_primary || survey.native || creation_is_native;
    let needs_system: bool = mode & SET_ID_BITS != 0 || metadata.posix_owner.is_some()
        || native_metadata_requires_system_restore(native, &metadata.source_os) || survey.system;
    bits.extended_metadata_v1 | choose_bit(
        reports_capture(&native.auxiliary_records),
        bits.capture_partial,
    ) | choose_bit(native.auxiliary_records.len() != 0, bits.has_auxiliary_streams) | choose_bit(
        has_native,
        bits.has_native_metadata,
    ) | choose_bit(primary_sparse || survey.sparse, bits.has_sparse_extents) | choose_bit(
        needs_system,
        bits.requires_system_restore,
    )
}

// ---------------------------------------------------------------------------------------------
// Validity
// ---------------------------------------------------------------------------------------------

/// Why the metadata of a file is refused.
pub open spec fn portable_refusal<P: MetadataProfile>(profile: &P, m: PortableValue) -> Option<
    FormatError,
> {
    if !profile.known_source_os(m.source_os) {
        Some(FormatError::WriterUnsupported("invalid metadata source OS"))
    } else if !profile.known_filesystem(m.source_filesystem) {
        Some(FormatError::WriterUnsupported("invalid metadata source filesystem"))
    } else if m.attributes matches Some(a) && a > PORTABLE_ATTRIBUTE_LIMIT {
        Some(FormatError::WriterUnsupported("portable attributes contain reserved bits"))
    } else {
        None
    }
}

pub fn validate_portable_file_metadata<P: MetadataProfile>(
    profile: &P,
    metadata: &PortableFileMetadata,
) -> (r: Result<(), FormatError>)
    ensures
        r == (match portable_refusal(profile, metadata@) {
            Some(e) => Err(e),
            None => Ok(()),
        }),
{
    if !profile.is_source_os(&metadata.source_os) {
        return Err(FormatError::WriterUnsupported("invalid metadata source OS"));
    }
    if !profile.valid_filesystem_token(&metadata.source_filesystem) {
        return Err(FormatError::WriterUnsupported("invalid metadata source filesystem"));
    }
    if let Some(attributes) = metadata.attributes {
        if attributes > PORTABLE_ATTRIBUTE_LIMIT {
            return Err(
                FormatError::WriterUnsupported("portable attributes contain reserved bits"),
            );
        }
    }
    Ok(())
}

} // verus!
