//! The rules that a metadata profile fixes.
use crate::byte_map::ByteMap;
use crate::errors::{bytes_agree, FormatError};
use crate::metadata::{ArchiveTimestamp, TarEntryKind};
use crate::options::opt_bytes;
use crate::pax::pax_map;
use vstd::pervasive::arbitrary;
use vstd::prelude::*;

verus! {

/// The profile that every file carries.
pub const PORTABLE_PROFILE: &'static str = "portable-v1";

/// The profile of a backup of a POSIX system.
pub const POSIX_PROFILE: &'static str = "posix-backup-v1";

/// The auxiliary record that reports what could not be captured.
pub const CAPTURE_REPORT_KIND: &'static str = "tzap.capture-report";

/// The bits of the flags in a file entry.
#[derive(Debug, Clone, Copy, PartialEq, Eq, Structural)]
pub struct EntryFlagBits {
    pub extended_metadata_v1: u32,
    pub capture_partial: u32,
    pub has_auxiliary_streams: u32,
    pub has_native_metadata: u32,
    pub has_sparse_extents: u32,
    pub requires_system_restore: u32,
}

/// The extended header of an auxiliary member, and the payload that it declares where that is
/// inline.
pub struct AuxiliaryDeclaration<'a> {
    pub records: ByteMap<Vec<u8>>,
    pub ordinal: u32,
    pub stored_size: u64,
    pub payload: Option<&'a [u8]>,
}

/// An auxiliary declaration by content.
pub struct DeclarationValue {
    pub records: Map<Seq<u8>, Seq<u8>>,
    pub ordinal: u32,
    pub stored_size: u64,
    pub payload: Option<Seq<u8>>,
}

impl<'a> View for AuxiliaryDeclaration<'a> {
    type V = DeclarationValue;

    open spec fn view(&self) -> DeclarationValue {
        DeclarationValue {
            records: pax_map(self.records),
            ordinal: self.ordinal,
            stored_size: self.stored_size,
            payload: opt_bytes(self.payload),
        }
    }
}

pub open spec fn declaration_values(list: Seq<AuxiliaryDeclaration>) -> Seq<DeclarationValue> {
    Seq::new(list.len(), |i: int| list[i]@)
}

/// Whether `r` and `s` are the same outcome, record sets compared by content.
pub open spec fn records_agree(
    r: Result<ByteMap<Vec<u8>>, FormatError>,
    s: Result<Map<Seq<u8>, Seq<u8>>, FormatError>,
) -> bool {
    match (r, s) {
        (Ok(v), Ok(w)) => v.wf() && pax_map(v) == w,
        (Err(e), Err(f)) => e == f,
        _ => false,
    }
}

/// What the metadata profiles of a format revision allow and how they write it.
///
/// Each executable method computes the specification function before it. A profile outside verified
/// code leaves those functions out: they then stand for what its methods compute, and nothing more
/// is known of them.
pub trait MetadataProfile {
    closed spec fn known_source_os(&self, os: Seq<char>) -> bool {
        arbitrary()
    }

    fn is_source_os(&self, os: &String) -> (r: bool)
        ensures
            r == self.known_source_os(os@),
    ;

    closed spec fn known_filesystem(&self, token: Seq<char>) -> bool {
        arbitrary()
    }

    fn valid_filesystem_token(&self, token: &String) -> (r: bool)
        ensures
            r == self.known_filesystem(token@),
    ;

    /// Whether a creation time on this system belongs to the POSIX profile.
    closed spec fn posix_profile_needed(&self, os: Seq<char>) -> bool {
        arbitrary()
    }

    fn source_os_requires_posix_profile(&self, os: &String) -> (r: bool)
        ensures
            r == self.posix_profile_needed(os@),
    ;

    closed spec fn timestamp_text(&self, time: ArchiveTimestamp) -> Result<Seq<u8>, FormatError> {
        arbitrary()
    }

    /// A point in time as an extended header writes it.
    fn canonical_pax_value(&self, time: ArchiveTimestamp) -> (r: Result<Vec<u8>, FormatError>)
        ensures
            bytes_agree(r, self.timestamp_text(time)),
    ;

    closed spec fn base_records(
        &self,
        path: Seq<u8>,
        mode: u32,
        source_os: Seq<char>,
        path_override: bool,
    ) -> Result<Map<Seq<u8>, Seq<u8>>, FormatError> {
        arbitrary()
    }

    /// The records that every primary member declares.
    fn portable_primary_pax(
        &self,
        path: &[u8],
        mode: u32,
        source_os: &String,
        path_override: bool,
    ) -> (r: Result<ByteMap<Vec<u8>>, FormatError>)
        ensures
            records_agree(r, self.base_records(path@, mode, source_os@, path_override)),
    ;

    closed spec fn base64_text(&self, bytes: Seq<u8>) -> Seq<u8> {
        arbitrary()
    }

    fn canonical_base64_encode(&self, bytes: &[u8]) -> (r: Vec<u8>)
        ensures
            r@ == self.base64_text(bytes@),
    ;

    closed spec fn primary_declaration_valid(&self, records: Map<Seq<u8>, Seq<u8>>) -> bool {
        arbitrary()
    }

    /// Whether the records of a primary member are a valid declaration.
    fn check_primary_declaration(&self, records: &ByteMap<Vec<u8>>) -> (r: bool)
        requires
            records.wf(),
        ensures
            r == self.primary_declaration_valid(pax_map(*records)),
    ;

    closed spec fn auxiliary_check(&self, declaration: DeclarationValue) -> Result<(), FormatError> {
        arbitrary()
    }

    /// Whether the records of an auxiliary member are a valid declaration of its payload.
    fn check_auxiliary_declaration(&self, declaration: &AuxiliaryDeclaration<'_>) -> (r: Result<
        (),
        FormatError,
    >)
        requires
            declaration.records.wf(),
        ensures
            r == self.auxiliary_check(declaration@),
    ;

    closed spec fn group_valid(
        &self,
        primary: Map<Seq<u8>, Seq<u8>>,
        auxiliary: Seq<DeclarationValue>,
    ) -> bool {
        arbitrary()
    }

    /// Whether a primary member and its auxiliary members go together.
    fn check_group(
        &self,
        primary: &ByteMap<Vec<u8>>,
        auxiliary: &Vec<AuxiliaryDeclaration<'_>>,
    ) -> (r: bool)
        requires
            primary.wf(),
            forall|i: int| 0 <= i < auxiliary@.len() ==> (#[trigger] auxiliary@[i]).records.wf(),
        ensures
            r == self.group_valid(pax_map(*primary), declaration_values(auxiliary@)),
    ;

    closed spec fn canonical_pax(&self, records: Map<Seq<u8>, Seq<u8>>) -> Result<Seq<u8>, FormatError> {
        arbitrary()
    }

    /// Records as the payload of an extended header.
    fn encode_canonical_pax(&self, records: &ByteMap<Vec<u8>>) -> (r: Result<Vec<u8>, FormatError>)
        requires
            records.wf(),
        ensures
            bytes_agree(r, self.canonical_pax(pax_map(*records))),
    ;

    closed spec fn kind_code(&self, kind: TarEntryKind) -> u8 {
        arbitrary()
    }

    /// The number that stands for a kind of member.
    fn encode_kind(&self, kind: TarEntryKind) -> (r: u8)
        ensures
            r == self.kind_code(kind),
    ;

    closed spec fn flag_bits(&self) -> EntryFlagBits {
        arbitrary()
    }

    /// The bits of the flags in a file entry.
    fn entry_flag_bits(&self) -> (r: EntryFlagBits)
        ensures
            r == self.flag_bits(),
    ;

    closed spec fn extent_limit(&self) -> usize {
        arbitrary()
    }

    /// How many extents a sparse map may have.
    fn max_sparse_extents(&self) -> (r: usize)
        ensures
            r == self.extent_limit(),
    ;
}

} // verus!
