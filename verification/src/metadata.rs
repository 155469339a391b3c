//! What an archive records of a file beside its bytes.
use crate::arith::{checked_u64_add, fit_u64};
use crate::byte_map::ByteMap;
use crate::bytes::{same_bytes, to_bytes};
use crate::digest::{sha256, sha256_bytes};
use crate::errors::FormatError;
use crate::pax::{pax_duplicate, pax_empty, pax_map, pax_same};
use crate::sparse::{
    encode_v45_sparse_map, extent_bytes_outcome, sparse_extent_bytes, sparse_map_outcome,
    SparseExtent,
};
use vstd::prelude::*;

verus! {

/// A point in time.
#[derive(Debug, Clone, Copy, PartialEq, Eq, Structural)]
pub struct ArchiveTimestamp {
    pub seconds: i64,
    pub nanoseconds: u32,
}

impl ArchiveTimestamp {
    /// The first second of 1970.
    pub fn unix_epoch() -> (r: ArchiveTimestamp)
        ensures
            r == (ArchiveTimestamp { seconds: 0, nanoseconds: 0 }),
    {
        ArchiveTimestamp { seconds: 0, nanoseconds: 0 }
    }

    pub fn from_seconds(seconds: i64) -> (r: ArchiveTimestamp)
        ensures
            r == (ArchiveTimestamp { seconds, nanoseconds: 0 }),
    {
        ArchiveTimestamp { seconds, nanoseconds: 0 }
    }
}

/// Who may restore a piece of metadata.
#[derive(Debug, Clone, Copy, PartialEq, Eq, Structural)]
pub enum RestoreClass {
    Never,
    Portable,
    SameOs,
    System,
}

/// Where a file mode comes from.
#[derive(Debug, Clone, Copy, PartialEq, Eq, Structural)]
pub enum PortableModeOrigin {
    Native,
    Projected,
}

/// How the name of an auxiliary record is written.
#[derive(Debug, Clone, Copy, PartialEq, Eq, Structural)]
pub enum NativeAuxiliaryNameEncoding {
    Unnamed,
    Utf8,
    Utf16Le,
    Bytes,
}

/// What kind of file-system object a member is.
#[derive(Debug, Clone, Copy, PartialEq, Eq, Structural)]
pub enum SourceEntryKind {
    Regular,
    Directory,
    Symlink,
    Hardlink,
    CharacterDevice,
    BlockDevice,
    Fifo,
    ReparseDirectory,
    ReparseRegular,
}

/// The kind of a member as the tar format knows it.
#[derive(Debug, Clone, Copy, PartialEq, Eq, Structural)]
pub enum TarEntryKind {
    Regular,
    Directory,
    Symlink,
    Hardlink,
    CharacterDevice,
    BlockDevice,
    Fifo,
}

impl SourceEntryKind {
    pub open spec fn spec_tar_kind(self) -> TarEntryKind {
        match self {
            SourceEntryKind::Regular => TarEntryKind::Regular,
            SourceEntryKind::ReparseRegular => TarEntryKind::Regular,
            SourceEntryKind::Directory => TarEntryKind::Directory,
            SourceEntryKind::ReparseDirectory => TarEntryKind::Directory,
            SourceEntryKind::Symlink => TarEntryKind::Symlink,
            SourceEntryKind::Hardlink => TarEntryKind::Hardlink,
            SourceEntryKind::CharacterDevice => TarEntryKind::CharacterDevice,
            SourceEntryKind::BlockDevice => TarEntryKind::BlockDevice,
            SourceEntryKind::Fifo => TarEntryKind::Fifo,
        }
    }

    /// The kind as the tar format knows it; reparse points count as what they stand in for.
    pub fn tar_kind(self) -> (r: TarEntryKind)
        ensures
            r == self.spec_tar_kind(),
    {
        match self {
            SourceEntryKind::Regular => TarEntryKind::Regular,
            SourceEntryKind::ReparseRegular => TarEntryKind::Regular,
            SourceEntryKind::Directory => TarEntryKind::Directory,
            SourceEntryKind::ReparseDirectory => TarEntryKind::Directory,
            SourceEntryKind::Symlink => TarEntryKind::Symlink,
            SourceEntryKind::Hardlink => TarEntryKind::Hardlink,
            SourceEntryKind::CharacterDevice => TarEntryKind::CharacterDevice,
            SourceEntryKind::BlockDevice => TarEntryKind::BlockDevice,
            SourceEntryKind::Fifo => TarEntryKind::Fifo,
        }
    }
}

// ---------------------------------------------------------------------------------------------
// Types
// ---------------------------------------------------------------------------------------------

/// The owner of a file on a POSIX system.
#[derive(Debug, Clone, PartialEq, Eq)]
pub struct PortablePosixOwner {
    pub uid: u64,
    pub gid: u64,
    pub uname: Option<String>,
    pub gname: Option<String>,
}

/// An auxiliary payload that its source hands over while the archive is written.
#[derive(Debug, Clone, PartialEq, Eq)]
pub struct StreamedAuxiliaryPayload {
    pub stored_size: u64,
    pub sha256: [u8; 32],
    pub sparse_extents: Option<Vec<SparseExtent>>,
}

/// A piece of native metadata with a payload of its own.
#[derive(Debug, Clone, PartialEq, Eq)]
pub struct NativeAuxiliaryMetadata {
    pub kind: String,
    pub profile: String,
    pub restore_class: RestoreClass,
    pub native: bool,
    pub name_encoding: NativeAuxiliaryNameEncoding,
    /// The decoded name. UTF-16 names are little-endian code units.
    pub name: Vec<u8>,
    pub flags: u64,
    pub logical_size: u64,
    pub payload: Vec<u8>,
    pub meta: ByteMap<Vec<u8>>,
    pub streamed_payload: Option<StreamedAuxiliaryPayload>,
}

/// The native metadata of a file.
#[derive(Debug, Clone, PartialEq, Eq)]
pub struct NativeFileMetadata {
    pub required_profiles: Vec<String>,
    pub optional_profiles: Vec<String>,
    pub primary_pax_records: ByteMap<Vec<u8>>,
    pub auxiliary_records: Vec<NativeAuxiliaryMetadata>,
}

/// All metadata of a file.
#[derive(Debug, Clone, PartialEq, Eq)]
pub struct PortableFileMetadata {
    pub source_os: String,
    pub source_filesystem: String,
    pub mode_origin: PortableModeOrigin,
    pub posix_owner: Option<PortablePosixOwner>,
    pub attributes: Option<u32>,
    /// Creation time, where the source file system has one.
    pub created: Option<ArchiveTimestamp>,
    /// Last access time, where the source file system has one.
    pub accessed: Option<ArchiveTimestamp>,
    pub native: NativeFileMetadata,
}

// ---------------------------------------------------------------------------------------------
// The types by content
// ---------------------------------------------------------------------------------------------

/// An owner by content.
pub struct OwnerValue {
    pub uid: u64,
    pub gid: u64,
    pub uname: Option<Seq<char>>,
    pub gname: Option<Seq<char>>,
}

/// A streamed payload by content.
pub struct StreamedValue {
    pub stored_size: u64,
    pub sha256: [u8; 32],
    pub sparse_extents: Option<Seq<SparseExtent>>,
}

/// An auxiliary record by content.
pub struct AuxiliaryValue {
    pub kind: Seq<char>,
    pub profile: Seq<char>,
    pub restore_class: RestoreClass,
    pub native: bool,
    pub name_encoding: NativeAuxiliaryNameEncoding,
    pub name: Seq<u8>,
    pub flags: u64,
    pub logical_size: u64,
    pub payload: Seq<u8>,
    pub meta: Map<Seq<u8>, Seq<u8>>,
    pub streamed_payload: Option<StreamedValue>,
}

/// Native metadata by content.
pub struct NativeValue {
    pub required_profiles: Seq<Seq<char>>,
    pub optional_profiles: Seq<Seq<char>>,
    pub primary_pax_records: Map<Seq<u8>, Seq<u8>>,
    pub auxiliary_records: Seq<AuxiliaryValue>,
}

/// All metadata by content.
pub struct PortableValue {
    pub source_os: Seq<char>,
    pub source_filesystem: Seq<char>,
    pub mode_origin: PortableModeOrigin,
    pub posix_owner: Option<OwnerValue>,
    pub attributes: Option<u32>,
    pub created: Option<ArchiveTimestamp>,
    pub accessed: Option<ArchiveTimestamp>,
    pub native: NativeValue,
}

pub open spec fn opt_string(s: Option<String>) -> Option<Seq<char>> {
    match s {
        Some(t) => Some(t@),
        None => None,
    }
}

pub open spec fn opt_extents(e: Option<Vec<SparseExtent>>) -> Option<Seq<SparseExtent>> {
    match e {
        Some(v) => Some(v@),
        None => None,
    }
}

pub open spec fn strings(list: Seq<String>) -> Seq<Seq<char>> {
    Seq::new(list.len(), |i: int| list[i]@)
}

impl View for PortablePosixOwner {
    type V = OwnerValue;

    open spec fn view(&self) -> OwnerValue {
        OwnerValue {
            uid: self.uid,
            gid: self.gid,
            uname: opt_string(self.uname),
            gname: opt_string(self.gname),
        }
    }
}

impl View for StreamedAuxiliaryPayload {
    type V = StreamedValue;

    open spec fn view(&self) -> StreamedValue {
        StreamedValue {
            stored_size: self.stored_size,
            sha256: self.sha256,
            sparse_extents: opt_extents(self.sparse_extents),
        }
    }
}

pub open spec fn opt_streamed(s: Option<StreamedAuxiliaryPayload>) -> Option<StreamedValue> {
    match s {
        Some(p) => Some(p@),
        None => None,
    }
}

impl View for NativeAuxiliaryMetadata {
    type V = AuxiliaryValue;

    open spec fn view(&self) -> AuxiliaryValue {
        AuxiliaryValue {
            kind: self.kind@,
            profile: self.profile@,
            restore_class: self.restore_class,
            native: self.native,
            name_encoding: self.name_encoding,
            name: self.name@,
            flags: self.flags,
            logical_size: self.logical_size,
            payload: self.payload@,
            meta: pax_map(self.meta),
            streamed_payload: opt_streamed(self.streamed_payload),
        }
    }
}

pub open spec fn auxiliary_values(records: Seq<NativeAuxiliaryMetadata>) -> Seq<AuxiliaryValue> {
    Seq::new(records.len(), |i: int| records[i]@)
}

impl View for NativeFileMetadata {
    type V = NativeValue;

    open spec fn view(&self) -> NativeValue {
        NativeValue {
            required_profiles: strings(self.required_profiles@),
            optional_profiles: strings(self.optional_profiles@),
            primary_pax_records: pax_map(self.primary_pax_records),
            auxiliary_records: auxiliary_values(self.auxiliary_records@),
        }
    }
}

pub open spec fn opt_owner(o: Option<PortablePosixOwner>) -> Option<OwnerValue> {
    match o {
        Some(owner) => Some(owner@),
        None => None,
    }
}

impl View for PortableFileMetadata {
    type V = PortableValue;

    open spec fn view(&self) -> PortableValue {
        PortableValue {
            source_os: self.source_os@,
            source_filesystem: self.source_filesystem@,
            mode_origin: self.mode_origin,
            posix_owner: opt_owner(self.posix_owner),
            attributes: self.attributes,
            created: self.created,
            accessed: self.accessed,
            native: self.native@,
        }
    }
}

impl NativeAuxiliaryMetadata {
    pub open spec fn wf(self) -> bool {
        self.meta.wf()
    }
}

impl NativeFileMetadata {
    pub open spec fn wf(self) -> bool {
        &&& self.primary_pax_records.wf()
        &&& forall|i: int|
            0 <= i < self.auxiliary_records@.len() ==> (#[trigger] self.auxiliary_records@[i]).wf()
    }
}

impl PortableFileMetadata {
    pub open spec fn wf(self) -> bool {
        self.native.wf()
    }
}

// ---------------------------------------------------------------------------------------------
// Construction
// ---------------------------------------------------------------------------------------------

/// A record that is inline or streamed, with everything else left open.
pub open spec fn plain_auxiliary(
    kind: Seq<char>,
    profile: Seq<char>,
    restore_class: RestoreClass,
    flags: u64,
    logical_size: u64,
    payload: Seq<u8>,
    streamed_payload: Option<StreamedValue>,
) -> AuxiliaryValue {
    AuxiliaryValue {
        kind,
        profile,
        restore_class,
        native: true,
        name_encoding: NativeAuxiliaryNameEncoding::Unnamed,
        name: Seq::empty(),
        flags,
        logical_size,
        payload,
        meta: Map::empty(),
        streamed_payload,
    }
}

impl AuxiliaryValue {
    /// Bytes that the payload takes in the archive.
    pub open spec fn stored_size(self) -> int {
        match self.streamed_payload {
            Some(streamed) => streamed.stored_size as int,
            None => self.payload.len() as int,
        }
    }

    /// The digest of the payload: declared where it is streamed, computed where it is inline.
    pub open spec fn digest(self) -> [u8; 32] {
        match self.streamed_payload {
            Some(streamed) => streamed.sha256,
            None => sha256(self.payload),
        }
    }
}

/// Set on an auxiliary record whose payload is sparse.
pub const AUXILIARY_SPARSE_FLAG: u64 = 1;

/// The bytes that a sparse payload takes: its map and its extents.
pub open spec fn sparse_stored_size(
    extents: Seq<SparseExtent>,
    logical_size: u64,
    max_extents: int,
) -> Result<u64, FormatError> {
    match sparse_map_outcome(extents, logical_size as int, max_extents) {
        Err(e) => Err(e),
        Ok(map) => match extent_bytes_outcome(extents, logical_size as int, max_extents) {
            Err(e) => Err(e),
            Ok(bytes) => fit_u64(map.len() + bytes, "sparse auxiliary"),
        },
    }
}

impl NativeAuxiliaryMetadata {
    /// A record with its payload inline.
    pub fn new(kind: String, profile: String, restore_class: RestoreClass, payload: Vec<u8>) -> (r:
        Self)
        ensures
            r.wf(),
            r@ == plain_auxiliary(
                kind@,
                profile@,
                restore_class,
                0,
                payload@.len() as u64,
                payload@,
                None,
            ),
    {
        let logical_size: u64 = payload.len() as u64;
        let r: NativeAuxiliaryMetadata = NativeAuxiliaryMetadata {
            kind,
            profile,
            restore_class,
            native: true,
            name_encoding: NativeAuxiliaryNameEncoding::Unnamed,
            name: Vec::new(),
            flags: 0,
            logical_size,
            payload,
            meta: pax_empty(),
            streamed_payload: None,
        };
        assert(r@.name =~= Seq::empty());
        r
    }

    /// A record whose payload its source hands over on demand.
    pub fn new_streamed(
        kind: String,
        profile: String,
        restore_class: RestoreClass,
        stored_size: u64,
        sha256: [u8; 32],
    ) -> (r: Self)
        ensures
            r.wf(),
            r@ == plain_auxiliary(
                kind@,
                profile@,
                restore_class,
                0,
                stored_size,
                Seq::empty(),
                Some(StreamedValue { stored_size, sha256, sparse_extents: None }),
            ),
    {
        let r: NativeAuxiliaryMetadata = NativeAuxiliaryMetadata {
            kind,
            profile,
            restore_class,
            native: true,
            name_encoding: NativeAuxiliaryNameEncoding::Unnamed,
            name: Vec::new(),
            flags: 0,
            logical_size: stored_size,
            payload: Vec::new(),
            meta: pax_empty(),
            streamed_payload: Some(
                StreamedAuxiliaryPayload { stored_size, sha256, sparse_extents: None },
            ),
        };
        assert(r@.name =~= Seq::empty());
        assert(r@.payload =~= Seq::empty());
        r
    }

    /// A streamed record whose payload is sparse.
    pub fn new_streamed_sparse(
        kind: String,
        profile: String,
        restore_class: RestoreClass,
        logical_size: u64,
        sparse_extents: Vec<SparseExtent>,
        sha256: [u8; 32],
        max_extents: usize,
    ) -> (r: Result<Self, FormatError>)
        ensures
            match r {
                Ok(record) => {
                    &&& record.wf()
                    &&& sparse_stored_size(
                        sparse_extents@,
                        logical_size,
                        max_extents as int,
                    ) matches Ok(stored_size)
                    &&& record@ == plain_auxiliary(
                        kind@,
                        profile@,
                        restore_class,
                        AUXILIARY_SPARSE_FLAG,
                        logical_size,
                        Seq::empty(),
                        Some(
                            StreamedValue {
                                stored_size,
                                sha256,
                                sparse_extents: Some(sparse_extents@),
                            },
                        ),
                    )
                },
                Err(e) => sparse_stored_size(sparse_extents@, logical_size, max_extents as int)
                    == Err::<u64, FormatError>(e),
            },
    {
        let map: Vec<u8> = encode_v45_sparse_map(
            sparse_extents.as_slice(),
            logical_size,
            max_extents,
        )?;
        let extent_bytes: u64 = sparse_extent_bytes(
            sparse_extents.as_slice(),
            logical_size,
            max_extents,
        )?;
        let stored_size: u64 = checked_u64_add(
            map.len() as u64,
            extent_bytes,
            "sparse auxiliary",
        )?;
        let r: NativeAuxiliaryMetadata = NativeAuxiliaryMetadata {
            kind,
            profile,
            restore_class,
            native: true,
            name_encoding: NativeAuxiliaryNameEncoding::Unnamed,
            name: Vec::new(),
            flags: AUXILIARY_SPARSE_FLAG,
            logical_size,
            payload: Vec::new(),
            meta: pax_empty(),
            streamed_payload: Some(
                StreamedAuxiliaryPayload {
                    stored_size,
                    sha256,
                    sparse_extents: Some(sparse_extents),
                },
            ),
        };
        assert(r@.name =~= Seq::empty());
        assert(r@.payload =~= Seq::empty());
        Ok(r)
    }

    pub fn is_streamed(&self) -> (r: bool)
        ensures
            r == self@.streamed_payload is Some,
    {
        self.streamed_payload.is_some()
    }

    pub fn streamed_sparse_extents(&self) -> (r: Option<&[SparseExtent]>)
        ensures
            match r {
                Some(extents) => self@.streamed_payload matches Some(s) && s.sparse_extents == Some(
                    extents@,
                ),
                None => self@.streamed_payload matches Some(s) ==> s.sparse_extents is None,
            },
    {
        match &self.streamed_payload {
            Some(payload) => match &payload.sparse_extents {
                Some(extents) => Some(extents.as_slice()),
                None => None,
            },
            None => None,
        }
    }

    pub fn stored_payload_size(&self) -> (r: u64)
        ensures
            r == self@.stored_size(),
    {
        match &self.streamed_payload {
            Some(payload) => payload.stored_size,
            None => self.payload.len() as u64,
        }
    }

    pub fn sha256(&self) -> (r: [u8; 32])
        ensures
            r == self@.digest(),
    {
        match &self.streamed_payload {
            Some(payload) => payload.sha256,
            None => sha256_bytes(self.payload.as_slice()),
        }
    }
}

/// No native metadata.
pub open spec fn no_native() -> NativeValue {
    NativeValue {
        required_profiles: Seq::empty(),
        optional_profiles: Seq::empty(),
        primary_pax_records: Map::empty(),
        auxiliary_records: Seq::empty(),
    }
}

impl Default for NativeFileMetadata {
    fn default() -> (r: Self)
        ensures
            r.wf(),
            r@ == no_native(),
    {
        let r: NativeFileMetadata = NativeFileMetadata {
            required_profiles: Vec::new(),
            optional_profiles: Vec::new(),
            primary_pax_records: pax_empty(),
            auxiliary_records: Vec::new(),
        };
        assert(r@.required_profiles =~= Seq::empty());
        assert(r@.optional_profiles =~= Seq::empty());
        assert(r@.auxiliary_records =~= Seq::empty());
        r
    }
}

impl NativeFileMetadata {
    /// Whether there is none.
    pub fn is_default(&self) -> (r: bool)
        requires
            self.wf(),
        ensures
            r == (self@ == no_native()),
    {
        let empty: ByteMap<Vec<u8>> = pax_empty();
        let r: bool = self.required_profiles.len() == 0 && self.optional_profiles.len() == 0
            && self.auxiliary_records.len() == 0 && pax_same(&self.primary_pax_records, &empty);
        proof {
            if r {
                assert(self@.required_profiles =~= Seq::empty());
                assert(self@.optional_profiles =~= Seq::empty());
                assert(self@.auxiliary_records =~= Seq::empty());
            } else if self@ == no_native() {
                assert(self@.required_profiles.len() == 0);
                assert(self@.optional_profiles.len() == 0);
                assert(self@.auxiliary_records.len() == 0);
            }
        }
        r
    }
}

/// Metadata of a file of unknown origin.
pub open spec fn unknown_origin() -> PortableValue {
    PortableValue {
        source_os: "other"@,
        source_filesystem: "unknown"@,
        mode_origin: PortableModeOrigin::Projected,
        posix_owner: None,
        attributes: None,
        created: None,
        accessed: None,
        native: no_native(),
    }
}

impl Default for PortableFileMetadata {
    fn default() -> (r: Self)
        ensures
            r.wf(),
            r@ == unknown_origin(),
    {
        PortableFileMetadata {
            source_os: "other".to_owned(),
            source_filesystem: "unknown".to_owned(),
            mode_origin: PortableModeOrigin::Projected,
            posix_owner: None,
            attributes: None,
            created: None,
            accessed: None,
            native: NativeFileMetadata::default(),
        }
    }
}

// ---------------------------------------------------------------------------------------------
// Copies and comparison
// ---------------------------------------------------------------------------------------------

pub fn duplicate_extents(extents: &[SparseExtent]) -> (r: Vec<SparseExtent>)
    ensures
        r@ == extents@,
{
    let mut copy: Vec<SparseExtent> = Vec::new();
    let mut i: usize = 0;
    while i < extents.len()
        invariant
            i <= extents@.len(),
            copy@ =~= extents@.take(i as int),
        decreases extents.len() - i,
    {
        copy.push(extents[i]);
        i = i + 1;
    }
    assert(copy@ =~= extents@);
    copy
}

pub fn same_extents(a: &[SparseExtent], b: &[SparseExtent]) -> (r: bool)
    ensures
        r == (a@ == b@),
{
    if a.len() != b.len() {
        return false;
    }
    let mut i: usize = 0;
    while i < a.len()
        invariant
            i <= a@.len(),
            a@.len() == b@.len(),
            forall|k: int| 0 <= k < i ==> a@[k] == b@[k],
        decreases a.len() - i,
    {
        if a[i].offset != b[i].offset || a[i].length != b[i].length {
            return false;
        }
        i = i + 1;
    }
    assert(a@ =~= b@);
    true
}

fn duplicate_strings(list: &Vec<String>) -> (r: Vec<String>)
    ensures
        strings(r@) == strings(list@),
{
    let mut copy: Vec<String> = Vec::new();
    let mut i: usize = 0;
    while i < list.len()
        invariant
            i <= list@.len(),
            copy@.len() == i,
            forall|k: int| 0 <= k < i ==> (#[trigger] copy@[k])@ == list@[k]@,
        decreases list.len() - i,
    {
        copy.push(list[i].as_str().to_owned());
        i = i + 1;
    }
    assert(strings(copy@) =~= strings(list@));
    copy
}

fn same_string(a: &String, b: &String) -> (r: bool)
    ensures
        r == (a@ == b@),
{
    *a == *b
}

fn same_strings(a: &Vec<String>, b: &Vec<String>) -> (r: bool)
    ensures
        r == (strings(a@) == strings(b@)),
{
    if a.len() != b.len() {
        assert(strings(a@).len() != strings(b@).len());
        return false;
    }
    let mut i: usize = 0;
    while i < a.len()
        invariant
            i <= a@.len(),
            a@.len() == b@.len(),
            forall|k: int| 0 <= k < i ==> (#[trigger] a@[k])@ == b@[k]@,
        decreases a.len() - i,
    {
        if !same_string(&a[i], &b[i]) {
            assert(strings(a@)[i as int] != strings(b@)[i as int]);
            return false;
        }
        i = i + 1;
    }
    assert(strings(a@) =~= strings(b@));
    true
}

fn same_opt_string(a: &Option<String>, b: &Option<String>) -> (r: bool)
    ensures
        r == (opt_string(*a) == opt_string(*b)),
{
    match (a, b) {
        (Some(x), Some(y)) => same_string(x, y),
        (None, None) => true,
        _ => false,
    }
}

fn duplicate_opt_string(s: &Option<String>) -> (r: Option<String>)
    ensures
        opt_string(r) == opt_string(*s),
{
    match s {
        Some(t) => Some(t.as_str().to_owned()),
        None => None,
    }
}

impl StreamedAuxiliaryPayload {
    pub fn duplicate(&self) -> (r: Self)
        ensures
            r@ == self@,
    {
        StreamedAuxiliaryPayload {
            stored_size: self.stored_size,
            sha256: self.sha256,
            sparse_extents: match &self.sparse_extents {
                Some(extents) => Some(duplicate_extents(extents.as_slice())),
                None => None,
            },
        }
    }

    pub fn same_as(&self, other: &Self) -> (r: bool)
        ensures
            r == (self@ == other@),
    {
        let same_layout: bool = match (&self.sparse_extents, &other.sparse_extents) {
            (Some(a), Some(b)) => same_extents(a.as_slice(), b.as_slice()),
            (None, None) => true,
            _ => false,
        };
        self.stored_size == other.stored_size && same_digest(&self.sha256, &other.sha256)
            && same_layout
    }
}

/// Whether two digests agree.
pub fn same_digest(a: &[u8; 32], b: &[u8; 32]) -> (r: bool)
    ensures
        r == (*a == *b),
{
    let r: bool = same_bytes(a.as_slice(), b.as_slice());
    proof {
        if r {
            assert(*a =~= *b);
        }
    }
    r
}

impl NativeAuxiliaryMetadata {
    pub fn duplicate(&self) -> (r: Self)
        requires
            self.wf(),
        ensures
            r.wf(),
            r@ == self@,
    {
        NativeAuxiliaryMetadata {
            kind: self.kind.as_str().to_owned(),
            profile: self.profile.as_str().to_owned(),
            restore_class: self.restore_class,
            native: self.native,
            name_encoding: self.name_encoding,
            name: to_bytes(self.name.as_slice()),
            flags: self.flags,
            logical_size: self.logical_size,
            payload: to_bytes(self.payload.as_slice()),
            meta: pax_duplicate(&self.meta),
            streamed_payload: match &self.streamed_payload {
                Some(payload) => Some(payload.duplicate()),
                None => None,
            },
        }
    }

    pub fn same_as(&self, other: &Self) -> (r: bool)
        requires
            self.wf(),
            other.wf(),
        ensures
            r == (self@ == other@),
    {
        let same_streamed: bool = match (&self.streamed_payload, &other.streamed_payload) {
            (Some(a), Some(b)) => a.same_as(b),
            (None, None) => true,
            _ => false,
        };
        same_string(&self.kind, &other.kind) && same_string(&self.profile, &other.profile)
            && self.restore_class == other.restore_class && self.native == other.native
            && self.name_encoding == other.name_encoding && same_bytes(
            self.name.as_slice(),
            other.name.as_slice(),
        ) && self.flags == other.flags && self.logical_size == other.logical_size && same_bytes(
            self.payload.as_slice(),
            other.payload.as_slice(),
        ) && pax_same(&self.meta, &other.meta) && same_streamed
    }
}

impl NativeFileMetadata {
    pub fn duplicate(&self) -> (r: Self)
        requires
            self.wf(),
        ensures
            r.wf(),
            r@ == self@,
    {
        let mut auxiliary_records: Vec<NativeAuxiliaryMetadata> = Vec::new();
        let mut i: usize = 0;
        while i < self.auxiliary_records.len()
            invariant
                self.wf(),
                i <= self.auxiliary_records@.len(),
                auxiliary_records@.len() == i,
                forall|k: int|
                    0 <= k < i ==> (#[trigger] auxiliary_records@[k])@ == self.auxiliary_records@[k]@
                        && auxiliary_records@[k].wf(),
            decreases self.auxiliary_records.len() - i,
        {
            auxiliary_records.push(self.auxiliary_records[i].duplicate());
            i = i + 1;
        }
        assert(auxiliary_values(auxiliary_records@) =~= auxiliary_values(self.auxiliary_records@));
        NativeFileMetadata {
            required_profiles: duplicate_strings(&self.required_profiles),
            optional_profiles: duplicate_strings(&self.optional_profiles),
            primary_pax_records: pax_duplicate(&self.primary_pax_records),
            auxiliary_records,
        }
    }

    pub fn same_as(&self, other: &Self) -> (r: bool)
        requires
            self.wf(),
            other.wf(),
        ensures
            r == (self@ == other@),
    {
        if !same_strings(&self.required_profiles, &other.required_profiles) || !same_strings(
            &self.optional_profiles,
            &other.optional_profiles,
        ) || !pax_same(&self.primary_pax_records, &other.primary_pax_records) {
            return false;
        }
        if self.auxiliary_records.len() != other.auxiliary_records.len() {
            assert(self@.auxiliary_records.len() != other@.auxiliary_records.len());
            return false;
        }
        let mut i: usize = 0;
        while i < self.auxiliary_records.len()
            invariant
                self.wf(),
                other.wf(),
                i <= self.auxiliary_records@.len(),
                self.auxiliary_records@.len() == other.auxiliary_records@.len(),
                forall|k: int|
                    0 <= k < i ==> (#[trigger] self.auxiliary_records@[k])@
                        == other.auxiliary_records@[k]@,
            decreases self.auxiliary_records.len() - i,
        {
            if !self.auxiliary_records[i].same_as(&other.auxiliary_records[i]) {
                assert(self@.auxiliary_records[i as int] != other@.auxiliary_records[i as int]);
                return false;
            }
            i = i + 1;
        }
        assert(self@.auxiliary_records =~= other@.auxiliary_records);
        true
    }
}

fn same_opt_time(a: &Option<ArchiveTimestamp>, b: &Option<ArchiveTimestamp>) -> (r: bool)
    ensures
        r == (*a == *b),
{
    match (a, b) {
        (Some(x), Some(y)) => *x == *y,
        (None, None) => true,
        _ => false,
    }
}

impl PortablePosixOwner {
    pub fn duplicate(&self) -> (r: Self)
        ensures
            r@ == self@,
    {
        PortablePosixOwner {
            uid: self.uid,
            gid: self.gid,
            uname: duplicate_opt_string(&self.uname),
            gname: duplicate_opt_string(&self.gname),
        }
    }

    pub fn same_as(&self, other: &Self) -> (r: bool)
        ensures
            r == (self@ == other@),
    {
        self.uid == other.uid && self.gid == other.gid && same_opt_string(
            &self.uname,
            &other.uname,
        ) && same_opt_string(&self.gname, &other.gname)
    }
}

impl PortableFileMetadata {
    /// Every map of the metadata is in order.
    pub fn in_order(&self)
        ensures
            self.wf(),
    {
        let _ = self.native.primary_pax_records.entries();
        let mut i: usize = 0;
        while i < self.native.auxiliary_records.len()
            invariant
                i <= self.native.auxiliary_records@.len(),
                forall|k: int| 0 <= k < i ==> (#[trigger] self.native.auxiliary_records@[k]).wf(),
            decreases self.native.auxiliary_records.len() - i,
        {
            let _ = self.native.auxiliary_records[i].meta.entries();
            i = i + 1;
        }
    }

    pub fn duplicate(&self) -> (r: Self)
        requires
            self.wf(),
        ensures
            r.wf(),
            r@ == self@,
    {
        PortableFileMetadata {
            source_os: self.source_os.as_str().to_owned(),
            source_filesystem: self.source_filesystem.as_str().to_owned(),
            mode_origin: self.mode_origin,
            posix_owner: match &self.posix_owner {
                Some(owner) => Some(owner.duplicate()),
                None => None,
            },
            attributes: self.attributes,
            created: self.created,
            accessed: self.accessed,
            native: self.native.duplicate(),
        }
    }

    pub fn same_as(&self, other: &Self) -> (r: bool)
        requires
            self.wf(),
            other.wf(),
        ensures
            r == (self@ == other@),
    {
        let same_owner: bool = match (&self.posix_owner, &other.posix_owner) {
            (Some(a), Some(b)) => a.same_as(b),
            (None, None) => true,
            _ => false,
        };
        let same_attributes: bool = match (self.attributes, other.attributes) {
            (Some(a), Some(b)) => a == b,
            (None, None) => true,
            _ => false,
        };
        same_string(&self.source_os, &other.source_os) && same_string(
            &self.source_filesystem,
            &other.source_filesystem,
        ) && self.mode_origin == other.mode_origin && same_owner && same_attributes
            && same_opt_time(&self.created, &other.created) && same_opt_time(
            &self.accessed,
            &other.accessed,
        ) && self.native.same_as(&other.native)
    }
}

} // verus!
