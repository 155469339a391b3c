//! Index shards: the tables that lead from a path to the frames and blocks of its member.
use crate::arith::{checked_u64_add, checked_usize_add, table_offset, table_offset_outcome, u32_len};
use crate::bytes::append;
use crate::codec::{ArchiveCodec, WireLayout};
use crate::entry_flags::{entry_flags, v45_portable_file_entry_flags};
use crate::errors::{bytes_agree, FormatError};
use crate::metadata::{ArchiveTimestamp, PortableValue};
use crate::object_plan::{index_fit, index_object_can_fit};
use crate::options::WriterOptions;
use crate::profile::MetadataProfile;
use crate::root_auth::PayloadObject;
use crate::rows::{
    duplicate_rows, members_wf, row_values, shard_row_values, split_point,
    split_sorted_file_rows_for_object_limit, tar_member_values, FileRow, MemberValue, RowValue,
    TarMember,
};
use crate::wire::{EnvelopeEntry, FileEntry, FrameEntry, IndexShardHeader, Record};
use std::collections::BTreeSet;
use vstd::prelude::*;
use vstd::utf8::encode_utf8;

verus! {

/// A compressed piece of a member and its place in the payload.
#[derive(Debug, Clone, Copy, PartialEq, Eq)]
pub struct PayloadFrame {
    pub frame_index: u64,
    pub envelope_index: u64,
    pub member_index: usize,
    pub offset_in_envelope: u32,
    pub compressed_size: u32,
    pub decompressed_size: u32,
    pub flags: u32,
    pub tar_stream_offset: u64,
}

/// An index shard before it is sealed.
#[derive(Debug, Clone, PartialEq, Eq)]
pub struct PlannedIndexShard {
    pub shard_index: u64,
    pub plaintext: Vec<u8>,
    pub file_count: u32,
    pub first_path_hash: [u8; 8],
    pub last_path_hash: [u8; 8],
}

/// An index shard by content.
pub struct IndexShardValue {
    pub shard_index: u64,
    pub plaintext: Seq<u8>,
    pub file_count: u32,
    pub first_path_hash: [u8; 8],
    pub last_path_hash: [u8; 8],
}

impl View for PlannedIndexShard {
    type V = IndexShardValue;

    open spec fn view(&self) -> IndexShardValue {
        IndexShardValue {
            shard_index: self.shard_index,
            plaintext: self.plaintext@,
            file_count: self.file_count,
            first_path_hash: self.first_path_hash,
            last_path_hash: self.last_path_hash,
        }
    }
}

pub open spec fn index_shard_values(shards: Seq<PlannedIndexShard>) -> Seq<IndexShardValue> {
    Seq::new(shards.len(), |i: int| shards[i]@)
}

// ---------------------------------------------------------------------------------------------
// Frame ranges
// ---------------------------------------------------------------------------------------------

/// The frames of a member.
pub open spec fn frames_of_member(frames: Seq<PayloadFrame>, member_index: usize) -> Seq<
    PayloadFrame,
> {
    frames.filter(|f: PayloadFrame| f.member_index == member_index)
}

/// The frames in an envelope.
pub open spec fn frames_of_envelope(frames: Seq<PayloadFrame>, envelope_index: u64) -> Seq<
    PayloadFrame,
> {
    frames.filter(|f: PayloadFrame| f.envelope_index == envelope_index)
}

/// The number of the first of some frames, and how many they are.
pub open spec fn range_outcome(
    found: Seq<PayloadFrame>,
    missing: &'static str,
    field: &'static str,
) -> Result<(u64, u32), FormatError> {
    if found.len() == 0 {
        Err(FormatError::WriterInvariant(missing))
    } else if found.len() > u32::MAX {
        Err(FormatError::WriterUnsupported(field))
    } else {
        Ok((found[0].frame_index, found.len() as u32))
    }
}

pub open spec fn member_range(frames: Seq<PayloadFrame>, member_index: usize) -> Result<
    (u64, u32),
    FormatError,
> {
    range_outcome(
        frames_of_member(frames, member_index),
        "member frame is missing",
        "FileEntry.frame_count",
    )
}

pub open spec fn envelope_range(frames: Seq<PayloadFrame>, envelope_index: u64) -> Result<
    (u64, u32),
    FormatError,
> {
    range_outcome(
        frames_of_envelope(frames, envelope_index),
        "envelope frame is missing",
        "EnvelopeEntry.frame_count",
    )
}

pub fn member_frame_range(member_index: usize, frames: &Vec<PayloadFrame>) -> (r: Result<
    (u64, u32),
    FormatError,
>)
    ensures
        r == member_range(frames@, member_index),
{
    let ghost wanted = |f: PayloadFrame| f.member_index == member_index;
    let mut first: Option<u64> = None;
    let mut count: usize = 0;
    let mut i: usize = 0;
    proof {
        reveal(Seq::filter);
    }
    while i < frames.len()
        invariant
            i <= frames@.len(),
            count <= i,
            wanted == |f: PayloadFrame| f.member_index == member_index,
            count == frames@.take(i as int).filter(wanted).len(),
            first == (if count == 0 {
                None
            } else {
                Some(frames@.take(i as int).filter(wanted)[0].frame_index)
            }),
        decreases frames.len() - i,
    {
        proof {
            reveal(Seq::filter);
            assert(frames@.take(i + 1).drop_last() =~= frames@.take(i as int));
        }
        if frames[i].member_index == member_index {
            if count == 0 {
                first = Some(frames[i].frame_index);
            }
            count = count + 1;
        }
        i = i + 1;
    }
    assert(frames@.take(i as int) =~= frames@);
    match first {
        None => Err(FormatError::WriterInvariant("member frame is missing")),
        Some(first) => Ok((first, u32_len(count, "FileEntry.frame_count")?)),
    }
}

pub fn envelope_frame_range(envelope_index: u64, frames: &Vec<PayloadFrame>) -> (r: Result<
    (u64, u32),
    FormatError,
>)
    ensures
        r == envelope_range(frames@, envelope_index),
{
    let ghost wanted = |f: PayloadFrame| f.envelope_index == envelope_index;
    let mut first: Option<u64> = None;
    let mut count: usize = 0;
    let mut i: usize = 0;
    proof {
        reveal(Seq::filter);
    }
    while i < frames.len()
        invariant
            i <= frames@.len(),
            count <= i,
            wanted == |f: PayloadFrame| f.envelope_index == envelope_index,
            count == frames@.take(i as int).filter(wanted).len(),
            first == (if count == 0 {
                None
            } else {
                Some(frames@.take(i as int).filter(wanted)[0].frame_index)
            }),
        decreases frames.len() - i,
    {
        proof {
            reveal(Seq::filter);
            assert(frames@.take(i + 1).drop_last() =~= frames@.take(i as int));
        }
        if frames[i].envelope_index == envelope_index {
            if count == 0 {
                first = Some(frames[i].frame_index);
            }
            count = count + 1;
        }
        i = i + 1;
    }
    assert(frames@.take(i as int) =~= frames@);
    match first {
        None => Err(FormatError::WriterInvariant("envelope frame is missing")),
        Some(first) => Ok((first, u32_len(count, "EnvelopeEntry.frame_count")?)),
    }
}

// ---------------------------------------------------------------------------------------------
// File entries
// ---------------------------------------------------------------------------------------------

/// A text in the string pool.
pub struct PooledText {
    pub pool: Seq<u8>,
    pub offset: u32,
    pub length: u32,
}

/// Adds an optional text to the pool. An empty one takes no room.
pub open spec fn pooled(pool: Seq<u8>, text: Option<Seq<u8>>) -> Result<PooledText, FormatError> {
    match text {
        None => Ok(PooledText { pool, offset: 0, length: 0 }),
        Some(t) => if t.len() == 0 {
            Ok(PooledText { pool, offset: 0, length: 0 })
        } else if pool.len() > u32::MAX {
            Err(FormatError::WriterUnsupported("FileEntry.string_offset"))
        } else if t.len() > u32::MAX {
            Err(FormatError::WriterUnsupported("FileEntry.string_length"))
        } else {
            Ok(
                PooledText {
                    pool: pool + t,
                    offset: pool.len() as u32,
                    length: t.len() as u32,
                },
            )
        },
    }
}

fn add_pooled(pool: &mut Vec<u8>, text: Option<&[u8]>) -> (r: Result<(u32, u32), FormatError>)
    ensures
        match (r, pooled(old(pool)@, crate::options::opt_bytes(text))) {
            (Ok((offset, length)), Ok(p)) => {
                &&& offset == p.offset
                &&& length == p.length
                &&& final(pool)@ == p.pool
            },
            (Err(e), Err(f)) => e == f,
            _ => false,
        },
{
    match text {
        Some(t) => {
            if t.len() == 0 {
                return Ok((0, 0));
            }
            let offset: u32 = u32_len(pool.len(), "FileEntry.string_offset")?;
            let length: u32 = u32_len(t.len(), "FileEntry.string_length")?;
            append(pool, t);
            Ok((offset, length))
        },
        None => Ok((0, 0)),
    }
}

/// The name of the owner or group, as bytes.
pub open spec fn name_bytes(name: Option<Seq<char>>) -> Option<Seq<u8>> {
    match name {
        Some(n) => Some(encode_utf8(n)),
        None => None,
    }
}

pub open spec fn owner_name(m: PortableValue, user: bool) -> Option<Seq<u8>> {
    match m.posix_owner {
        Some(o) => if user {
            name_bytes(o.uname)
        } else {
            name_bytes(o.gname)
        },
        None => None,
    }
}

/// Which optional facts a file entry holds.
pub open spec fn metadata_presence(m: PortableValue) -> u8 {
    let created = if m.created is Some {
        1u8
    } else {
        0u8
    };
    let accessed = if m.accessed is Some {
        2u8
    } else {
        0u8
    };
    let attributes = if m.attributes is Some {
        4u8
    } else {
        0u8
    };
    (created + accessed + attributes) as u8
}

pub open spec fn time_or_zero(time: Option<ArchiveTimestamp>) -> ArchiveTimestamp {
    match time {
        Some(t) => t,
        None => ArchiveTimestamp { seconds: 0, nanoseconds: 0 },
    }
}

/// A row in the making: the pool behind it, its entry, and the frames it needs.
pub struct RowEntry {
    pub pool: Seq<u8>,
    pub entry: FileEntry,
}

pub open spec fn file_entry<P: MetadataProfile>(
    profile: &P,
    row: RowValue,
    member: MemberValue,
    path_offset: u32,
    range: (u64, u32),
    uname: PooledText,
    gname: PooledText,
    link: PooledText,
) -> FileEntry {
    let v = member.primary;
    let m = v.metadata;
    FileEntry {
        path_hash: row.path_hash,
        path_offset,
        path_length: row.path.len() as u32,
        first_frame_index: range.0,
        frame_count: range.1,
        offset_in_first_frame_plaintext: 0,
        tar_member_group_size: member.tar_member_group_size,
        file_data_size: v.file_size,
        flags: entry_flags(profile, v.mode, v.sparse_extents is Some, m),
        mtime_nsec: v.mtime.nanoseconds,
        mtime_sec: v.mtime.seconds,
        created_nsec: time_or_zero(m.created).nanoseconds,
        created_sec: time_or_zero(m.created).seconds,
        accessed_nsec: time_or_zero(m.accessed).nanoseconds,
        accessed_sec: time_or_zero(m.accessed).seconds,
        uid: match m.posix_owner {
            Some(o) => o.uid,
            None => u64::MAX,
        },
        gid: match m.posix_owner {
            Some(o) => o.gid,
            None => u64::MAX,
        },
        mode: v.mode,
        attributes: match m.attributes {
            Some(a) => a,
            None => 0,
        },
        uname_offset: uname.offset,
        uname_length: uname.length,
        gname_offset: gname.offset,
        gname_length: gname.length,
        link_target_offset: link.offset,
        link_target_length: link.length,
        kind: profile.kind_code(v.entry_kind.spec_tar_kind()),
        metadata_flags: metadata_presence(m),
    }
}

/// The entry of a row, with its texts added to the pool.
pub open spec fn row_entry_outcome<P: MetadataProfile>(
    profile: &P,
    member: MemberValue,
    frames: Seq<PayloadFrame>,
    row: RowValue,
    pool: Seq<u8>,
) -> Result<RowEntry, FormatError> {
    let m = member.primary.metadata;
    if pool.len() > u32::MAX {
        Err(FormatError::WriterUnsupported("FileEntry.path_offset"))
    } else {
        match member_range(frames, row.member_index) {
            Err(e) => Err(e),
            Ok(range) => if range.0 + range.1 - 1 > u64::MAX {
                Err(FormatError::WriterUnsupported("FileEntry.frame_count"))
            } else {
                match pooled(pool + row.path, owner_name(m, true)) {
                    Err(e) => Err(e),
                    Ok(uname) => match pooled(uname.pool, owner_name(m, false)) {
                        Err(e) => Err(e),
                        Ok(gname) => match pooled(gname.pool, member.primary.link_target) {
                            Err(e) => Err(e),
                            Ok(link) => if row.path.len() > u32::MAX {
                                Err(FormatError::WriterUnsupported("FileEntry.path_length"))
                            } else {
                                Ok(
                                    RowEntry {
                                        pool: link.pool,
                                        entry: file_entry(
                                            profile,
                                            row,
                                            member,
                                            pool.len() as u32,
                                            range,
                                            uname,
                                            gname,
                                            link,
                                        ),
                                    },
                                )
                            },
                        },
                    },
                }
            },
        }
    }
}

fn build_row_entry<P: MetadataProfile>(
    profile: &P,
    member: &TarMember,
    frames: &Vec<PayloadFrame>,
    row: &FileRow,
    pool: &mut Vec<u8>,
) -> (r: Result<FileEntry, FormatError>)
    requires
        member.portable_metadata.wf(),
    ensures
        match (r, row_entry_outcome(profile, member@, frames@, row@, old(pool)@)) {
            (Ok(entry), Ok(e)) => entry == e.entry && final(pool)@ == e.pool,
            (Err(e), Err(f)) => e == f,
            _ => false,
        },
        r matches Ok(entry) ==> entry.first_frame_index + entry.frame_count <= u64::MAX + 1
            && member_range(frames@, row.member_index) == Ok::<(u64, u32), FormatError>(
            (entry.first_frame_index, entry.frame_count),
        ),
{
    let metadata = &member.portable_metadata;
    let path_offset: u32 = u32_len(pool.len(), "FileEntry.path_offset")?;
    append(pool, row.path.as_slice());
    let (first_frame_index, frame_count): (u64, u32) = member_frame_range(
        row.member_index,
        frames,
    )?;
    if frame_count > 0 {
        checked_u64_add(first_frame_index, frame_count as u64 - 1, "FileEntry.frame_count")?;
    }
    let (uname, gname): (Option<&[u8]>, Option<&[u8]>) = match &metadata.posix_owner {
        Some(owner) => (
            match &owner.uname {
                Some(name) => Some(name.as_str().as_bytes()),
                None => None,
            },
            match &owner.gname {
                Some(name) => Some(name.as_str().as_bytes()),
                None => None,
            },
        ),
        None => (None, None),
    };
    assert(crate::options::opt_bytes(uname) == owner_name(member@.primary.metadata, true));
    assert(crate::options::opt_bytes(gname) == owner_name(member@.primary.metadata, false));
    let (uname_offset, uname_length): (u32, u32) = add_pooled(pool, uname)?;
    let (gname_offset, gname_length): (u32, u32) = add_pooled(pool, gname)?;
    let target: Option<&[u8]> = match &member.link_target {
        Some(target) => Some(target.as_slice()),
        None => None,
    };
    assert(crate::options::opt_bytes(target) == member@.primary.link_target);
    let (link_target_offset, link_target_length): (u32, u32) = add_pooled(pool, target)?;
    let path_length: u32 = u32_len(row.path.len(), "FileEntry.path_length")?;
    let (uid, gid): (u64, u64) = match &metadata.posix_owner {
        Some(owner) => (owner.uid, owner.gid),
        None => (u64::MAX, u64::MAX),
    };
    let created: ArchiveTimestamp = match metadata.created {
        Some(time) => time,
        None => ArchiveTimestamp { seconds: 0, nanoseconds: 0 },
    };
    let accessed: ArchiveTimestamp = match metadata.accessed {
        Some(time) => time,
        None => ArchiveTimestamp { seconds: 0, nanoseconds: 0 },
    };
    let mut metadata_flags: u8 = 0;
    if metadata.created.is_some() {
        metadata_flags = metadata_flags + 1;
    }
    if metadata.accessed.is_some() {
        metadata_flags = metadata_flags + 2;
    }
    if metadata.attributes.is_some() {
        metadata_flags = metadata_flags + 4;
    }
    Ok(
        FileEntry {
            path_hash: row.path_hash,
            path_offset,
            path_length,
            first_frame_index,
            frame_count,
            offset_in_first_frame_plaintext: 0,
            tar_member_group_size: member.tar_member_group_size,
            file_data_size: member.file_data_size,
            flags: v45_portable_file_entry_flags(
                profile,
                member.mode,
                member.sparse_extents.is_some(),
                metadata,
            ),
            mtime_nsec: member.mtime.nanoseconds,
            mtime_sec: member.mtime.seconds,
            created_nsec: created.nanoseconds,
            created_sec: created.seconds,
            accessed_nsec: accessed.nanoseconds,
            accessed_sec: accessed.seconds,
            uid,
            gid,
            mode: member.mode,
            attributes: match metadata.attributes {
                Some(attributes) => attributes,
                None => 0,
            },
            uname_offset,
            uname_length,
            gname_offset,
            gname_length,
            link_target_offset,
            link_target_length,
            kind: profile.encode_kind(member.entry_kind.tar_kind()),
            metadata_flags,
        },
    )
}

/// The string pool and the file entries of rows.
pub struct FileTable {
    pub pool: Seq<u8>,
    pub entries: Seq<FileEntry>,
}

/// The entries of the first `count` rows, or the first error among them.
pub open spec fn file_table<P: MetadataProfile>(
    profile: &P,
    members: Seq<MemberValue>,
    frames: Seq<PayloadFrame>,
    rows: Seq<RowValue>,
    count: nat,
) -> Result<FileTable, FormatError>
    decreases count,
{
    if count == 0 {
        Ok(FileTable { pool: Seq::empty(), entries: Seq::empty() })
    } else {
        match file_table(profile, members, frames, rows, (count - 1) as nat) {
            Err(e) => Err(e),
            Ok(before) => {
                let row = rows[count - 1];
                match row_entry_outcome(
                    profile,
                    members[row.member_index as int],
                    frames,
                    row,
                    before.pool,
                ) {
                    Err(e) => Err(e),
                    Ok(added) => Ok(
                        FileTable { pool: added.pool, entries: before.entries.push(added.entry) },
                    ),
                }
            },
        }
    }
}

proof fn first_row_error_stays<P: MetadataProfile>(
    profile: &P,
    members: Seq<MemberValue>,
    frames: Seq<PayloadFrame>,
    rows: Seq<RowValue>,
    count: nat,
    total: nat,
)
    requires
        count <= total,
        file_table(profile, members, frames, rows, count) is Err,
    ensures
        file_table(profile, members, frames, rows, total) == file_table(
            profile,
            members,
            frames,
            rows,
            count,
        ),
    decreases total,
{
    if count < total {
        first_row_error_stays(profile, members, frames, rows, count, (total - 1) as nat);
    }
}

/// The frames that file entries need.
pub open spec fn required_frames(entries: Seq<FileEntry>) -> Set<u64> {
    Set::new(
        |f: u64|
            exists|i: int|
                0 <= i < entries.len() && (#[trigger] entries[i]).first_frame_index <= f
                    < entries[i].first_frame_index + entries[i].frame_count,
    )
}

fn require_frames(required: &mut BTreeSet<u64>, entry: &FileEntry)
    requires
        entry.first_frame_index + entry.frame_count <= u64::MAX + 1,
    ensures
        final(required)@ == old(required)@.union(
            Set::new(
                |f: u64|
                    entry.first_frame_index <= f < entry.first_frame_index + entry.frame_count,
            ),
        ),
{
    broadcast use vstd::std_specs::btree::group_btree_axioms;

    let ghost start = required@;
    let mut i: u32 = 0;
    while i < entry.frame_count
        invariant
            i <= entry.frame_count,
            entry.first_frame_index + entry.frame_count <= u64::MAX + 1,
            required@ =~= start.union(
                Set::new(
                    |f: u64| entry.first_frame_index <= f < entry.first_frame_index + i,
                ),
            ),
        decreases entry.frame_count - i,
    {
        required.insert(entry.first_frame_index + i as u64);
        i = i + 1;
    }
}

/// The file entries of a shard, its string pool and the frames that it needs.
struct BuiltFiles {
    pool: Vec<u8>,
    entries: Vec<FileEntry>,
    required: BTreeSet<u64>,
}

#[verifier::loop_isolation(false)]
fn build_file_table<P: MetadataProfile>(
    profile: &P,
    members: &Vec<TarMember>,
    frames: &Vec<PayloadFrame>,
    rows: &Vec<FileRow>,
) -> (r: Result<BuiltFiles, FormatError>)
    requires
        members_wf(members@),
        forall|i: int| 0 <= i < rows@.len() ==> (#[trigger] rows@[i]).member_index < members@.len(),
    ensures
        match (
            r,
            file_table(
                profile,
                tar_member_values(members@),
                frames@,
                row_values(rows@),
                rows@.len(),
            ),
        ) {
            (Ok(built), Ok(table)) => built.pool@ == table.pool && built.entries@ == table.entries
                && built.required@ == required_frames(table.entries),
            (Err(e), Err(f)) => e == f,
            _ => false,
        },
{
    broadcast use vstd::std_specs::btree::group_btree_axioms;

    let ghost values = tar_member_values(members@);
    let ghost all = row_values(rows@);
    let mut pool: Vec<u8> = Vec::new();
    let mut entries: Vec<FileEntry> = Vec::new();
    let mut required: BTreeSet<u64> = BTreeSet::new();
    let mut i: usize = 0;
    assert(pool@ =~= Seq::empty());
    assert(entries@ =~= Seq::empty());
    assert(required@ =~= required_frames(entries@));
    while i < rows.len()
        invariant
            i <= rows@.len(),
            file_table(profile, values, frames@, all, i as nat) == Ok::<FileTable, FormatError>(
                FileTable { pool: pool@, entries: entries@ },
            ),
            required@ == required_frames(entries@),
        decreases rows.len() - i,
    {
        let row: &FileRow = &rows[i];
        let member: &TarMember = &members[row.member_index];
        proof {
            assert(all[i as int] == row@);
            assert(values[row.member_index as int] == member@);
            if file_table(profile, values, frames@, all, (i + 1) as nat) is Err {
                first_row_error_stays(
                    profile,
                    values,
                    frames@,
                    all,
                    (i + 1) as nat,
                    rows@.len(),
                );
            }
        }
        let entry: FileEntry = build_row_entry(profile, member, frames, row, &mut pool)?;
        let ghost before = entries@;
        require_frames(&mut required, &entry);
        entries.push(entry);
        proof {
            assert forall|f: u64| required@.contains(f) <==> required_frames(
                entries@,
            ).contains(f) by {
                if required_frames(before).contains(f) {
                    let k = choose|k: int|
                        0 <= k < before.len() && (#[trigger] before[k]).first_frame_index <= f
                            < before[k].first_frame_index + before[k].frame_count;
                    assert(entries@[k] == before[k]);
                }
                if entry.first_frame_index <= f < entry.first_frame_index + entry.frame_count {
                    assert(entries@[before.len() as int] == entry);
                }
                if required_frames(entries@).contains(f) {
                    let k = choose|k: int|
                        0 <= k < entries@.len() && (#[trigger] entries@[k]).first_frame_index <= f
                            < entries@[k].first_frame_index + entries@[k].frame_count;
                    if k < before.len() {
                        assert(before[k] == entries@[k]);
                    }
                }
            }
            assert(required@ =~= required_frames(entries@));
        }
        i = i + 1;
    }
    Ok(BuiltFiles { pool, entries, required })
}

// ---------------------------------------------------------------------------------------------
// Frame and envelope entries
// ---------------------------------------------------------------------------------------------

pub open spec fn frame_entry(frame: PayloadFrame) -> FrameEntry {
    FrameEntry {
        frame_index: frame.frame_index,
        envelope_index: frame.envelope_index,
        offset_in_envelope: frame.offset_in_envelope,
        compressed_size: frame.compressed_size,
        decompressed_size: frame.decompressed_size,
        flags: frame.flags,
        tar_stream_offset: frame.tar_stream_offset,
    }
}

/// The frames among the required ones.
pub open spec fn frame_table(frames: Seq<PayloadFrame>, required: Set<u64>) -> Seq<FrameEntry> {
    frames.filter(|f: PayloadFrame| required.contains(f.frame_index)).map_values(
        |f: PayloadFrame| frame_entry(f),
    )
}

/// The envelopes that frames lie in.
pub open spec fn required_envelopes(frames: Seq<FrameEntry>) -> Set<u64> {
    frames.map_values(|f: FrameEntry| f.envelope_index).to_set()
}

pub open spec fn envelope_entry(payload: PayloadObject, range: (u64, u32)) -> EnvelopeEntry {
    EnvelopeEntry {
        envelope_index: payload.envelope_index,
        first_block_index: payload.object.first_block_index,
        data_block_count: payload.object.data_block_count,
        parity_block_count: payload.object.parity_block_count,
        encrypted_size: payload.object.encrypted_size,
        plaintext_size: payload.plaintext_size,
        first_frame_index: range.0,
        frame_count: range.1,
    }
}

/// The entries of envelopes, or the first error among them.
pub open spec fn envelope_table(frames: Seq<PayloadFrame>, payloads: Seq<PayloadObject>) -> Result<
    Seq<EnvelopeEntry>,
    FormatError,
>
    decreases payloads.len(),
{
    if payloads.len() == 0 {
        Ok(Seq::empty())
    } else {
        match envelope_table(frames, payloads.drop_last()) {
            Err(e) => Err(e),
            Ok(before) => match envelope_range(frames, payloads.last().envelope_index) {
                Err(e) => Err(e),
                Ok(range) => Ok(before.push(envelope_entry(payloads.last(), range))),
            },
        }
    }
}

pub open spec fn wanted_payloads(payloads: Seq<PayloadObject>, wanted: Set<u64>) -> Seq<
    PayloadObject,
> {
    payloads.filter(|p: PayloadObject| wanted.contains(p.envelope_index))
}

proof fn filter_takes_prefix<T>(s: Seq<T>, keep: spec_fn(T) -> bool, n: int)
    requires
        0 <= n <= s.len(),
    ensures
        s.take(n).filter(keep).len() <= s.filter(keep).len(),
        s.filter(keep).take(s.take(n).filter(keep).len() as int) == s.take(n).filter(keep),
    decreases s.len(),
{
    reveal(Seq::filter);
    if n == s.len() {
        assert(s.take(n) =~= s);
        assert(s.filter(keep).take(s.filter(keep).len() as int) =~= s.filter(keep));
    } else {
        filter_takes_prefix(s.drop_last(), keep, n);
        assert(s.drop_last().take(n) =~= s.take(n));
        let part = s.take(n).filter(keep);
        let less = s.drop_last().filter(keep);
        assert(s.filter(keep).take(part.len() as int) =~= less.take(part.len() as int));
    }
}

proof fn first_envelope_error_stays(
    frames: Seq<PayloadFrame>,
    payloads: Seq<PayloadObject>,
    n: int,
)
    requires
        0 <= n <= payloads.len(),
        envelope_table(frames, payloads.take(n)) is Err,
    ensures
        envelope_table(frames, payloads) == envelope_table(frames, payloads.take(n)),
    decreases payloads.len(),
{
    if n == payloads.len() {
        assert(payloads.take(n) =~= payloads);
    } else {
        assert(payloads.drop_last().take(n) =~= payloads.take(n));
        first_envelope_error_stays(frames, payloads.drop_last(), n);
    }
}

/// The frames that a shard needs, and the envelopes that they lie in.
struct BuiltFrames {
    entries: Vec<FrameEntry>,
    envelopes: BTreeSet<u64>,
}

fn build_frame_table(frames: &Vec<PayloadFrame>, required: &BTreeSet<u64>) -> (r: BuiltFrames)
    ensures
        r.entries@ == frame_table(frames@, required@),
        r.envelopes@ == required_envelopes(r.entries@),
{
    broadcast use vstd::std_specs::btree::group_btree_axioms;

    let ghost keep = |f: PayloadFrame| required@.contains(f.frame_index);
    let ghost to_entry = |f: PayloadFrame| frame_entry(f);
    let mut entries: Vec<FrameEntry> = Vec::new();
    let mut envelopes: BTreeSet<u64> = BTreeSet::new();
    let mut i: usize = 0;
    proof {
        reveal(Seq::filter);
        assert(entries@ =~= frames@.take(0).filter(keep).map_values(to_entry));
        assert(envelopes@ =~= required_envelopes(entries@));
    }
    while i < frames.len()
        invariant
            i <= frames@.len(),
            keep == |f: PayloadFrame| required@.contains(f.frame_index),
            to_entry == |f: PayloadFrame| frame_entry(f),
            entries@ == frames@.take(i as int).filter(keep).map_values(to_entry),
            envelopes@ == required_envelopes(entries@),
        decreases frames.len() - i,
    {
        broadcast use vstd::std_specs::btree::group_btree_axioms;

        proof {
            reveal(Seq::filter);
            assert(frames@.take(i + 1).drop_last() =~= frames@.take(i as int));
        }
        let frame: PayloadFrame = frames[i];
        if required.contains(&frame.frame_index) {
            let ghost before = entries@;
            entries.push(
                FrameEntry {
                    frame_index: frame.frame_index,
                    envelope_index: frame.envelope_index,
                    offset_in_envelope: frame.offset_in_envelope,
                    compressed_size: frame.compressed_size,
                    decompressed_size: frame.decompressed_size,
                    flags: frame.flags,
                    tar_stream_offset: frame.tar_stream_offset,
                },
            );
            envelopes.insert(frame.envelope_index);
            proof {
                assert(entries@ =~= frames@.take(i + 1).filter(keep).map_values(to_entry));
                let old_list = before.map_values(|f: FrameEntry| f.envelope_index);
                let new_list = entries@.map_values(|f: FrameEntry| f.envelope_index);
                assert(new_list =~= old_list.push(frame.envelope_index));
                assert forall|x: u64| new_list.to_set().contains(x) <==> old_list.to_set().insert(
                    frame.envelope_index,
                ).contains(x) by {
                    if old_list.contains(x) {
                        let k = choose|k: int| 0 <= k < old_list.len() && old_list[k] == x;
                        assert(new_list[k] == x);
                    }
                    if x == frame.envelope_index {
                        assert(new_list[old_list.len() as int] == x);
                    }
                    if new_list.contains(x) && x != frame.envelope_index {
                        let k = choose|k: int| 0 <= k < new_list.len() && new_list[k] == x;
                        assert(old_list[k] == x);
                    }
                }
                assert(envelopes@ =~= required_envelopes(entries@));
            }
        } else {
            assert(entries@ =~= frames@.take(i + 1).filter(keep).map_values(to_entry));
        }
        i = i + 1;
    }
    assert(frames@.take(i as int) =~= frames@);
    BuiltFrames { entries, envelopes }
}

#[verifier::loop_isolation(false)]
fn build_envelope_table(
    frames: &Vec<PayloadFrame>,
    payloads: &Vec<PayloadObject>,
    wanted: &BTreeSet<u64>,
) -> (r: Result<Vec<EnvelopeEntry>, FormatError>)
    ensures
        match (r, envelope_table(frames@, wanted_payloads(payloads@, wanted@))) {
            (Ok(v), Ok(w)) => v@ == w,
            (Err(e), Err(f)) => e == f,
            _ => false,
        },
{
    broadcast use vstd::std_specs::btree::group_btree_axioms;

    let ghost keep = |p: PayloadObject| wanted@.contains(p.envelope_index);
    let mut entries: Vec<EnvelopeEntry> = Vec::new();
    let mut i: usize = 0;
    proof {
        reveal(Seq::filter);
        assert(payloads@.take(0).filter(keep) =~= Seq::empty());
        assert(entries@ =~= Seq::empty());
    }
    while i < payloads.len()
        invariant
            i <= payloads@.len(),
            envelope_table(frames@, payloads@.take(i as int).filter(keep)) == Ok::<
                Seq<EnvelopeEntry>,
                FormatError,
            >(entries@),
        decreases payloads.len() - i,
    {
        proof {
            reveal(Seq::filter);
            assert(payloads@.take(i + 1).drop_last() =~= payloads@.take(i as int));
        }
        let payload: PayloadObject = payloads[i];
        if wanted.contains(&payload.envelope_index) {
            proof {
                let now = payloads@.take(i + 1).filter(keep);
                assert(now =~= payloads@.take(i as int).filter(keep).push(payload));
                assert(now.drop_last() =~= payloads@.take(i as int).filter(keep));
                filter_takes_prefix(payloads@, keep, i + 1);
                if envelope_table(frames@, now) is Err {
                    first_envelope_error_stays(
                        frames@,
                        payloads@.filter(keep),
                        now.len() as int,
                    );
                }
            }
            let (first_frame_index, frame_count): (u64, u32) = envelope_frame_range(
                payload.envelope_index,
                frames,
            )?;
            entries.push(
                EnvelopeEntry {
                    envelope_index: payload.envelope_index,
                    first_block_index: payload.object.first_block_index,
                    data_block_count: payload.object.data_block_count,
                    parity_block_count: payload.object.parity_block_count,
                    encrypted_size: payload.object.encrypted_size,
                    plaintext_size: payload.plaintext_size,
                    first_frame_index,
                    frame_count,
                },
            );
        } else {
            assert(payloads@.take(i + 1).filter(keep) =~= payloads@.take(i as int).filter(keep));
        }
        i = i + 1;
    }
    assert(payloads@.take(i as int) =~= payloads@);
    Ok(entries)
}

// ---------------------------------------------------------------------------------------------
// Serialization
// ---------------------------------------------------------------------------------------------

/// Records one behind the other.
pub open spec fn joined_records<C: ArchiveCodec>(codec: &C, records: Seq<Record>) -> Seq<u8>
    decreases records.len(),
{
    if records.len() == 0 {
        Seq::empty()
    } else {
        joined_records(codec, records.drop_last()) + codec.encoded(records.last())
    }
}

/// Appends one record.
pub(crate) fn append_record<C: ArchiveCodec>(
    codec: &C,
    out: &mut Vec<u8>,
    record: &Record,
    done: Ghost<Seq<Record>>,
)
    requires
        old(out)@ == joined_records(codec, done@),
    ensures
        final(out)@ == joined_records(codec, done@.push(*record)),
{
    let bytes: Vec<u8> = codec.encode(record);
    append(out, bytes.as_slice());
    assert(done@.push(*record).drop_last() =~= done@);
}

pub open spec fn file_records(files: Seq<FileEntry>) -> Seq<Record> {
    files.map_values(|f: FileEntry| Record::FileEntry(f))
}

pub open spec fn frame_records(frames: Seq<FrameEntry>) -> Seq<Record> {
    frames.map_values(|f: FrameEntry| Record::FrameEntry(f))
}

pub open spec fn envelope_records(envelopes: Seq<EnvelopeEntry>) -> Seq<Record> {
    envelopes.map_values(|e: EnvelopeEntry| Record::EnvelopeEntry(e))
}

/// Where the tables of a shard lie.
pub struct ShardOffsets {
    pub files: u32,
    pub frames: u32,
    pub envelopes: u32,
    pub pool: u32,
}

/// The places of the tables, each right behind the one before.
pub open spec fn shard_offsets(
    layout: WireLayout,
    files: int,
    frames: int,
    envelopes: int,
    pool: int,
) -> Result<ShardOffsets, FormatError> {
    let file_start = layout.index_shard_header as int;
    let frame_start = file_start + files * layout.file_entry;
    let envelope_start = frame_start + frames * layout.frame_entry;
    let pool_start = envelope_start + envelopes * layout.envelope_entry;
    match table_offset_outcome(files, file_start) {
        Err(e) => Err(e),
        Ok(file_offset) => if frame_start > usize::MAX {
            Err(FormatError::WriterUnsupported("IndexShard"))
        } else {
            match table_offset_outcome(frames, frame_start) {
                Err(e) => Err(e),
                Ok(frame_offset) => if envelope_start > usize::MAX {
                    Err(FormatError::WriterUnsupported("IndexShard"))
                } else {
                    match table_offset_outcome(envelopes, envelope_start) {
                        Err(e) => Err(e),
                        Ok(envelope_offset) => if pool_start > usize::MAX {
                            Err(FormatError::WriterUnsupported("IndexShard"))
                        } else {
                            match table_offset_outcome(pool, pool_start) {
                                Err(e) => Err(e),
                                Ok(pool_offset) => Ok(
                                    ShardOffsets {
                                        files: file_offset,
                                        frames: frame_offset,
                                        envelopes: envelope_offset,
                                        pool: pool_offset,
                                    },
                                ),
                            }
                        },
                    }
                },
            }
        },
    }
}

/// Why the tables of a shard are too long to be counted.
pub open spec fn shard_count_refusal(files: int, frames: int, envelopes: int, pool: int) -> Option<
    &'static str,
> {
    if files > u32::MAX {
        Some("IndexShard.file_count")
    } else if frames > u32::MAX {
        Some("IndexShard.frame_count")
    } else if envelopes > u32::MAX {
        Some("IndexShard.envelope_count")
    } else if pool > u32::MAX {
        Some("IndexShard.string_pool_size")
    } else {
        None
    }
}

pub open spec fn shard_header(
    shard_index: u64,
    files: int,
    frames: int,
    envelopes: int,
    pool: int,
    offsets: ShardOffsets,
) -> IndexShardHeader {
    IndexShardHeader {
        version: 1,
        shard_index,
        file_count: files as u32,
        frame_count: frames as u32,
        envelope_count: envelopes as u32,
        file_table_offset: offsets.files,
        frame_table_offset: offsets.frames,
        envelope_table_offset: offsets.envelopes,
        string_pool_offset: offsets.pool,
        string_pool_size: pool as u32,
    }
}

/// A shard as it is written: its header, its three tables and the string pool.
pub open spec fn serialized_shard<C: ArchiveCodec>(
    codec: &C,
    shard_index: u64,
    files: Seq<FileEntry>,
    frames: Seq<FrameEntry>,
    envelopes: Seq<EnvelopeEntry>,
    pool: Seq<u8>,
) -> Result<Seq<u8>, FormatError> {
    let (nf, nr, ne, np) = (
        files.len() as int,
        frames.len() as int,
        envelopes.len() as int,
        pool.len() as int,
    );
    match shard_offsets(codec.spec_layout(), nf, nr, ne, np) {
        Err(e) => Err(e),
        Ok(offsets) => match shard_count_refusal(nf, nr, ne, np) {
            Some(field) => Err(FormatError::WriterUnsupported(field)),
            None => Ok(
                joined_records(
                    codec,
                    seq![Record::IndexShardHeader(
                        shard_header(shard_index, nf, nr, ne, np, offsets),
                    )] + file_records(files) + frame_records(frames) + envelope_records(envelopes),
                ) + pool,
            ),
        },
    }
}

/// `count * len` behind `cursor`, where that can be held.
fn behind_table(cursor: usize, count: usize, len: u16, field: &'static str) -> (r: Result<
    usize,
    FormatError,
>)
    ensures
        r == (if cursor + count * len > usize::MAX {
            Err(FormatError::WriterUnsupported(field))
        } else {
            Ok((cursor + count * len) as usize)
        }),
{
    proof {
        assert(count * len >= 0) by (nonlinear_arith);
    }
    match count.checked_mul(len as usize) {
        Some(size) => checked_usize_add(cursor, size, field),
        None => Err(FormatError::WriterUnsupported(field)),
    }
}

pub fn serialize_index_shard<C: ArchiveCodec>(
    codec: &C,
    shard_index: u64,
    files: &Vec<FileEntry>,
    frames: &Vec<FrameEntry>,
    envelopes: &Vec<EnvelopeEntry>,
    string_pool: &[u8],
) -> (r: Result<Vec<u8>, FormatError>)
    ensures
        bytes_agree(
            r,
            serialized_shard(
                codec,
                shard_index,
                files@,
                frames@,
                envelopes@,
                string_pool@,
            ),
        ),
{
    let layout: WireLayout = codec.layout();
    let mut cursor: usize = layout.index_shard_header as usize;
    let file_table_offset: u32 = table_offset(files.len(), cursor)?;
    cursor = behind_table(cursor, files.len(), layout.file_entry, "IndexShard")?;
    let frame_table_offset: u32 = table_offset(frames.len(), cursor)?;
    cursor = behind_table(cursor, frames.len(), layout.frame_entry, "IndexShard")?;
    let envelope_table_offset: u32 = table_offset(envelopes.len(), cursor)?;
    cursor = behind_table(cursor, envelopes.len(), layout.envelope_entry, "IndexShard")?;
    let string_pool_offset: u32 = table_offset(string_pool.len(), cursor)?;
    let header: IndexShardHeader = IndexShardHeader {
        version: 1,
        shard_index,
        file_count: u32_len(files.len(), "IndexShard.file_count")?,
        frame_count: u32_len(frames.len(), "IndexShard.frame_count")?,
        envelope_count: u32_len(envelopes.len(), "IndexShard.envelope_count")?,
        file_table_offset,
        frame_table_offset,
        envelope_table_offset,
        string_pool_offset,
        string_pool_size: u32_len(string_pool.len(), "IndexShard.string_pool_size")?,
    };
    let ghost head = seq![Record::IndexShardHeader(header)];
    let ghost mut done: Seq<Record> = Seq::empty();
    let mut bytes: Vec<u8> = Vec::new();
    assert(bytes@ =~= joined_records(codec, done));
    append_record(codec, &mut bytes, &Record::IndexShardHeader(header), Ghost(done));
    proof {
        done = done.push(Record::IndexShardHeader(header));
        assert(done =~= head);
    }
    let mut i: usize = 0;
    assert(done =~= head + file_records(files@.take(0)));
    while i < files.len()
        invariant
            i <= files@.len(),
            bytes@ == joined_records(codec, done),
            done == head + file_records(files@.take(i as int)),
        decreases files.len() - i,
    {
        append_record(codec, &mut bytes, &Record::FileEntry(files[i]), Ghost(done));
        proof {
            done = done.push(Record::FileEntry(files@[i as int]));
            assert(done =~= head + file_records(files@.take(i + 1)));
        }
        i = i + 1;
    }
    assert(files@.take(i as int) =~= files@);
    let ghost with_files = head + file_records(files@);
    let mut i: usize = 0;
    assert(done =~= with_files + frame_records(frames@.take(0)));
    while i < frames.len()
        invariant
            i <= frames@.len(),
            bytes@ == joined_records(codec, done),
            done == with_files + frame_records(frames@.take(i as int)),
        decreases frames.len() - i,
    {
        append_record(codec, &mut bytes, &Record::FrameEntry(frames[i]), Ghost(done));
        proof {
            done = done.push(Record::FrameEntry(frames@[i as int]));
            assert(done =~= with_files + frame_records(frames@.take(i + 1)));
        }
        i = i + 1;
    }
    assert(frames@.take(i as int) =~= frames@);
    let ghost with_frames = with_files + frame_records(frames@);
    let mut i: usize = 0;
    assert(done =~= with_frames + envelope_records(envelopes@.take(0)));
    while i < envelopes.len()
        invariant
            i <= envelopes@.len(),
            bytes@ == joined_records(codec, done),
            done == with_frames + envelope_records(envelopes@.take(i as int)),
        decreases envelopes.len() - i,
    {
        append_record(codec, &mut bytes, &Record::EnvelopeEntry(envelopes[i]), Ghost(done));
        proof {
            done = done.push(Record::EnvelopeEntry(envelopes@[i as int]));
            assert(done =~= with_frames + envelope_records(envelopes@.take(i + 1)));
        }
        i = i + 1;
    }
    assert(envelopes@.take(i as int) =~= envelopes@);
    append(&mut bytes, string_pool);
    Ok(bytes)
}

// ---------------------------------------------------------------------------------------------
// Plaintexts
// ---------------------------------------------------------------------------------------------

/// The tables of a shard over given rows.
pub open spec fn shard_plaintext<C: ArchiveCodec + MetadataProfile>(
    codec: &C,
    shard_index: u64,
    members: Seq<MemberValue>,
    rows: Seq<RowValue>,
    frames: Seq<PayloadFrame>,
    payloads: Seq<PayloadObject>,
) -> Result<IndexShardValue, FormatError> {
    match file_table(codec, members, frames, rows, rows.len()) {
        Err(e) => Err(e),
        Ok(files) => {
            let frame_entries = frame_table(frames, required_frames(files.entries));
            let wanted = wanted_payloads(payloads, required_envelopes(frame_entries));
            match envelope_table(frames, wanted) {
                Err(e) => Err(e),
                Ok(envelopes) => match serialized_shard(
                    codec,
                    shard_index,
                    files.entries,
                    frame_entries,
                    envelopes,
                    files.pool,
                ) {
                    Err(e) => Err(e),
                    Ok(plaintext) => if rows.len() == 0 {
                        Err(FormatError::WriterInvariant("empty planned IndexShard"))
                    } else {
                        Ok(
                            IndexShardValue {
                                shard_index,
                                plaintext,
                                file_count: rows.len() as u32,
                                first_path_hash: rows[0].path_hash,
                                last_path_hash: rows.last().path_hash,
                            },
                        )
                    },
                },
            }
        },
    }
}

proof fn one_entry_per_row<P: MetadataProfile>(
    profile: &P,
    members: Seq<MemberValue>,
    frames: Seq<PayloadFrame>,
    rows: Seq<RowValue>,
    count: nat,
)
    ensures
        file_table(profile, members, frames, rows, count) matches Ok(table) ==> table.entries.len()
            == count,
    decreases count,
{
    if count > 0 {
        one_entry_per_row(profile, members, frames, rows, (count - 1) as nat);
    }
}

pub open spec fn index_shard_agree(
    r: Result<PlannedIndexShard, FormatError>,
    s: Result<IndexShardValue, FormatError>,
) -> bool {
    match (r, s) {
        (Ok(v), Ok(w)) => v@ == w,
        (Err(e), Err(f)) => e == f,
        _ => false,
    }
}

pub fn build_index_shard_plaintext<C: ArchiveCodec + MetadataProfile>(
    codec: &C,
    shard_index: u64,
    members: &Vec<TarMember>,
    file_rows: &Vec<FileRow>,
    frames: &Vec<PayloadFrame>,
    payloads: &Vec<PayloadObject>,
) -> (r: Result<PlannedIndexShard, FormatError>)
    requires
        members_wf(members@),
        forall|i: int|
            0 <= i < file_rows@.len() ==> (#[trigger] file_rows@[i]).member_index < members@.len(),
    ensures
        index_shard_agree(
            r,
            shard_plaintext(
                codec,
                shard_index,
                tar_member_values(members@),
                row_values(file_rows@),
                frames@,
                payloads@,
            ),
        ),
{
    let files: BuiltFiles = build_file_table(codec, members, frames, file_rows)?;
    proof {
        one_entry_per_row(
            codec,
            tar_member_values(members@),
            frames@,
            row_values(file_rows@),
            file_rows@.len(),
        );
    }
    let frame_entries: BuiltFrames = build_frame_table(frames, &files.required);
    let envelope_entries: Vec<EnvelopeEntry> = build_envelope_table(
        frames,
        payloads,
        &frame_entries.envelopes,
    )?;
    let plaintext: Vec<u8> = serialize_index_shard(
        codec,
        shard_index,
        &files.entries,
        &frame_entries.entries,
        &envelope_entries,
        files.pool.as_slice(),
    )?;
    if file_rows.len() == 0 {
        return Err(FormatError::WriterInvariant("empty planned IndexShard"));
    }
    let first_path_hash: [u8; 8] = file_rows[0].path_hash;
    let last_path_hash: [u8; 8] = file_rows[file_rows.len() - 1].path_hash;
    Ok(
        PlannedIndexShard {
            shard_index,
            plaintext,
            file_count: u32_len(file_rows.len(), "IndexShard.file_count")?,
            first_path_hash,
            last_path_hash,
        },
    )
}

/// The one shard over given rows, if it fits its class.
#[verifier::opaque]
pub open spec fn single_shard<C: ArchiveCodec + MetadataProfile>(
    codec: &C,
    index: nat,
    members: Seq<MemberValue>,
    rows: Seq<RowValue>,
    frames: Seq<PayloadFrame>,
    payloads: Seq<PayloadObject>,
    o: WriterOptions,
) -> Result<Option<IndexShardValue>, FormatError> {
    match shard_plaintext(codec, index as u64, members, rows, frames, payloads) {
        Err(e) => Err(e),
        Ok(candidate) => match codec.compressed(candidate.plaintext, o.zstd_level, None, o.jobs) {
            Err(e) => Err(e),
            Ok(compressed) => match index_fit(compressed.len() as int, o) {
                Err(e) => Err(e),
                Ok(true) => Ok(Some(candidate)),
                Ok(false) => Ok(None),
            },
        },
    }
}

/// The shards over given rows: one if it fits its class, else those of two parts.
pub open spec fn shards_for_rows<C: ArchiveCodec + MetadataProfile>(
    codec: &C,
    first_index: nat,
    members: Seq<MemberValue>,
    rows: Seq<RowValue>,
    frames: Seq<PayloadFrame>,
    payloads: Seq<PayloadObject>,
    o: WriterOptions,
) -> Result<Seq<IndexShardValue>, FormatError>
    decreases rows.len(),
{
    match single_shard(codec, first_index, members, rows, frames, payloads, o) {
        Err(e) => Err(e),
        Ok(Some(shard)) => Ok(seq![shard]),
        Ok(None) => if rows.len() == 1 {
            Err(
                FormatError::WriterUnsupported("single-file IndexShard exceeds index object limits"),
            )
        } else {
            let split = split_point(rows);
            if 0 < split < rows.len() {
                match shards_for_rows(
                    codec,
                    first_index,
                    members,
                    rows.take(split),
                    frames,
                    payloads,
                    o,
                ) {
                    Err(e) => Err(e),
                    Ok(left) => match shards_for_rows(
                        codec,
                        first_index + left.len(),
                        members,
                        rows.skip(split),
                        frames,
                        payloads,
                        o,
                    ) {
                        Err(e) => Err(e),
                        Ok(right) => Ok(left + right),
                    },
                }
            } else {
                Ok(Seq::empty())
            }
        },
    }
}

/// Builds the one shard over given rows, if it fits its class.
fn build_single_shard<C: ArchiveCodec + MetadataProfile>(
    codec: &C,
    shard_index: u64,
    members: &Vec<TarMember>,
    rows: &Vec<FileRow>,
    frames: &Vec<PayloadFrame>,
    payloads: &Vec<PayloadObject>,
    options: WriterOptions,
) -> (r: Result<Option<PlannedIndexShard>, FormatError>)
    requires
        options.block_size > 0,
        members_wf(members@),
        forall|i: int| 0 <= i < rows@.len() ==> (#[trigger] rows@[i]).member_index < members@.len(),
    ensures
        match (
            r,
            single_shard(
                codec,
                shard_index as nat,
                tar_member_values(members@),
                row_values(rows@),
                frames@,
                payloads@,
                options,
            ),
        ) {
            (Ok(Some(shard)), Ok(Some(value))) => shard@ == value,
            (Ok(None), Ok(None)) => true,
            (Err(e), Err(f)) => e == f,
            _ => false,
        },
        r == Ok::<Option<PlannedIndexShard>, FormatError>(None) ==> rows@.len() > 0,
{
    reveal(single_shard);
    let candidate: PlannedIndexShard = build_index_shard_plaintext(
        codec,
        shard_index,
        members,
        rows,
        frames,
        payloads,
    )?;
    let compressed: Vec<u8> = codec.compress(
        candidate.plaintext.as_slice(),
        options.zstd_level,
        None,
        options.jobs,
    )?;
    if index_object_can_fit(compressed.len(), options)? {
        return Ok(Some(candidate));
    }
    Ok(None)
}

/// The parts of rows that are split.
proof fn split_rows_are_parts(
    rows: Seq<FileRow>,
    left: Seq<FileRow>,
    right: Seq<FileRow>,
    split_at: int,
    member_count: int,
)
    requires
        0 <= split_at <= rows.len(),
        forall|i: int| 0 <= i < rows.len() ==> (#[trigger] rows[i]).member_index < member_count,
        row_values(left) == row_values(rows).take(split_at),
        row_values(right) == row_values(rows).skip(split_at),
    ensures
        left.len() == split_at,
        right.len() == rows.len() - split_at,
        forall|i: int| 0 <= i < left.len() ==> (#[trigger] left[i]).member_index < member_count,
        forall|i: int| 0 <= i < right.len() ==> (#[trigger] right[i]).member_index < member_count,
{
    assert(row_values(left).len() == left.len());
    assert(row_values(right).len() == right.len());
    assert forall|i: int| 0 <= i < left.len() implies (#[trigger] left[i]).member_index
        < member_count by {
        assert(row_values(left)[i] == row_values(rows)[i]);
        assert(row_values(left)[i] == left[i]@);
        assert(row_values(rows)[i] == rows[i]@);
    }
    assert forall|i: int| 0 <= i < right.len() implies (#[trigger] right[i]).member_index
        < member_count by {
        assert(row_values(right)[i] == row_values(rows)[split_at + i]);
        assert(row_values(right)[i] == right[i]@);
        assert(row_values(rows)[split_at + i] == rows[split_at + i]@);
    }
}

pub fn append_index_shards_for_rows<C: ArchiveCodec + MetadataProfile>(
    codec: &C,
    planned: &mut Vec<PlannedIndexShard>,
    members: &Vec<TarMember>,
    rows: &Vec<FileRow>,
    frames: &Vec<PayloadFrame>,
    payloads: &Vec<PayloadObject>,
    options: WriterOptions,
) -> (r: Result<(), FormatError>)
    requires
        options.block_size > 0,
        members_wf(members@),
        forall|i: int| 0 <= i < rows@.len() ==> (#[trigger] rows@[i]).member_index < members@.len(),
    ensures
        match (
            r,
            shards_for_rows(
                codec,
                old(planned)@.len(),
                tar_member_values(members@),
                row_values(rows@),
                frames@,
                payloads@,
                options,
            ),
        ) {
            (Ok(_), Ok(added)) => index_shard_values(final(planned)@) == index_shard_values(
                old(planned)@,
            ) + added,
            (Err(e), Err(f)) => e == f,
            _ => false,
        },
    decreases rows@.len(),
{
    let ghost values = tar_member_values(members@);
    let ghost all = row_values(rows@);
    let ghost start = index_shard_values(planned@);
    let shard_index: u64 = planned.len() as u64;
    let single: Option<PlannedIndexShard> = build_single_shard(
        codec,
        shard_index,
        members,
        rows,
        frames,
        payloads,
        options,
    )?;
    if let Some(shard) = single {
        let ghost value = shard@;
        planned.push(shard);
        assert(index_shard_values(planned@) =~= start + seq![value]);
        return Ok(());
    }
    if rows.len() == 1 {
        return Err(
            FormatError::WriterUnsupported("single-file IndexShard exceeds index object limits"),
        );
    }
    let split_at: usize = split_sorted_file_rows_for_object_limit(rows);
    let left: Vec<FileRow> = duplicate_rows(rows, 0, split_at);
    let right: Vec<FileRow> = duplicate_rows(rows, split_at, rows.len());
    proof {
        assert(row_values(left@) =~= all.take(split_at as int));
        assert(row_values(right@) =~= all.skip(split_at as int));
        split_rows_are_parts(rows@, left@, right@, split_at as int, members@.len() as int);
    }
    append_index_shards_for_rows(codec, planned, members, &left, frames, payloads, options)?;
    let ghost middle = index_shard_values(planned@);
    proof {
        let added_left = shards_for_rows(
            codec,
            start.len(),
            values,
            all.take(split_at as int),
            frames@,
            payloads@,
            options,
        )->Ok_0;
        assert(middle == start + added_left);
        assert(middle.len() == planned@.len());
        assert(start.len() == old(planned)@.len());
    }
    append_index_shards_for_rows(codec, planned, members, &right, frames, payloads, options)?;
    proof {
        let added_left = shards_for_rows(
            codec,
            start.len(),
            values,
            all.take(split_at as int),
            frames@,
            payloads@,
            options,
        )->Ok_0;
        let added_right = shards_for_rows(
            codec,
            (start.len() + added_left.len()) as nat,
            values,
            all.skip(split_at as int),
            frames@,
            payloads@,
            options,
        )->Ok_0;
        assert(middle == start + added_left);
        assert(start + (added_left + added_right) =~= middle + added_right);
    }
    Ok(())
}

/// The shards over the first `count` groups of rows, or the first error among them.
pub open spec fn shards_for_groups<C: ArchiveCodec + MetadataProfile>(
    codec: &C,
    members: Seq<MemberValue>,
    groups: Seq<Seq<RowValue>>,
    count: nat,
    frames: Seq<PayloadFrame>,
    payloads: Seq<PayloadObject>,
    o: WriterOptions,
) -> Result<Seq<IndexShardValue>, FormatError>
    decreases count,
{
    if count == 0 {
        Ok(Seq::empty())
    } else {
        match shards_for_groups(
            codec,
            members,
            groups,
            (count - 1) as nat,
            frames,
            payloads,
            o,
        ) {
            Err(e) => Err(e),
            Ok(before) => match shards_for_rows(
                codec,
                before.len(),
                members,
                groups[count - 1],
                frames,
                payloads,
                o,
            ) {
                Err(e) => Err(e),
                Ok(added) => Ok(before + added),
            },
        }
    }
}

proof fn first_group_error_stays<C: ArchiveCodec + MetadataProfile>(
    codec: &C,
    members: Seq<MemberValue>,
    groups: Seq<Seq<RowValue>>,
    count: nat,
    total: nat,
    frames: Seq<PayloadFrame>,
    payloads: Seq<PayloadObject>,
    o: WriterOptions,
)
    requires
        count <= total,
        shards_for_groups(codec, members, groups, count, frames, payloads, o) is Err,
    ensures
        shards_for_groups(codec, members, groups, total, frames, payloads, o) == shards_for_groups(
            codec,
            members,
            groups,
            count,
            frames,
            payloads,
            o,
        ),
    decreases total,
{
    if count < total {
        first_group_error_stays(
            codec,
            members,
            groups,
            count,
            (total - 1) as nat,
            frames,
            payloads,
            o,
        );
    }
}

/// Whether every row of every group names a member.
pub open spec fn groups_name_members(groups: Seq<Vec<FileRow>>, member_count: int) -> bool {
    forall|g: int, i: int|
        0 <= g < groups.len() && 0 <= i < (#[trigger] groups[g])@.len() ==> (
        #[trigger] groups[g]@[i]).member_index < member_count
}

#[verifier::loop_isolation(false)]
pub fn build_index_shard_plaintexts<C: ArchiveCodec + MetadataProfile>(
    codec: &C,
    members: &Vec<TarMember>,
    shard_rows: &Vec<Vec<FileRow>>,
    frames: &Vec<PayloadFrame>,
    payloads: &Vec<PayloadObject>,
    options: WriterOptions,
) -> (r: Result<Vec<PlannedIndexShard>, FormatError>)
    requires
        options.block_size > 0,
        members_wf(members@),
        groups_name_members(shard_rows@, members@.len() as int),
    ensures
        match (
            r,
            shards_for_groups(
                codec,
                tar_member_values(members@),
                shard_row_values(shard_rows@),
                shard_rows@.len(),
                frames@,
                payloads@,
                options,
            ),
        ) {
            (Ok(v), Ok(w)) => index_shard_values(v@) == w,
            (Err(e), Err(f)) => e == f,
            _ => false,
        },
{
    let ghost values = tar_member_values(members@);
    let ghost groups = shard_row_values(shard_rows@);
    let mut planned: Vec<PlannedIndexShard> = Vec::new();
    let mut i: usize = 0;
    assert(index_shard_values(planned@) =~= Seq::empty());
    while i < shard_rows.len()
        invariant
            i <= shard_rows@.len(),
            shards_for_groups(codec, values, groups, i as nat, frames@, payloads@, options)
                == Ok::<Seq<IndexShardValue>, FormatError>(index_shard_values(planned@)),
        decreases shard_rows.len() - i,
    {
        proof {
            assert(groups[i as int] == row_values(shard_rows@[i as int]@));
            if shards_for_groups(
                codec,
                values,
                groups,
                (i + 1) as nat,
                frames@,
                payloads@,
                options,
            ) is Err {
                first_group_error_stays(
                    codec,
                    values,
                    groups,
                    (i + 1) as nat,
                    shard_rows@.len(),
                    frames@,
                    payloads@,
                    options,
                );
            }
        }
        append_index_shards_for_rows(
            codec,
            &mut planned,
            members,
            &shard_rows[i],
            frames,
            payloads,
            options,
        )?;
        i = i + 1;
    }
    Ok(planned)
}

// ---------------------------------------------------------------------------------------------
// Laws
// ---------------------------------------------------------------------------------------------

/// Shards are numbered without a gap, and every shard fits the index class.
pub proof fn shards_are_numbered_and_fit<C: ArchiveCodec + MetadataProfile>(
    codec: &C,
    first_index: nat,
    members: Seq<MemberValue>,
    rows: Seq<RowValue>,
    frames: Seq<PayloadFrame>,
    payloads: Seq<PayloadObject>,
    o: WriterOptions,
)
    ensures
        shards_for_rows(codec, first_index, members, rows, frames, payloads, o) matches Ok(shards)
            ==> forall|i: int|
            0 <= i < shards.len() ==> {
                &&& (#[trigger] shards[i]).shard_index == (first_index + i) as u64
                &&& codec.compressed(
                    shards[i].plaintext,
                    o.zstd_level,
                    None,
                    o.jobs,
                ) matches Ok(compressed)
                &&& index_fit(compressed.len() as int, o) == Ok::<bool, FormatError>(true)
            },
    decreases rows.len(),
{
    reveal(single_shard);
    if let Ok(shards) = shards_for_rows(codec, first_index, members, rows, frames, payloads, o) {
        let split = split_point(rows);
        if rows.len() >= 2 && 0 < split < rows.len() {
            shards_are_numbered_and_fit(
                codec,
                first_index,
                members,
                rows.take(split),
                frames,
                payloads,
                o,
            );
            if let Ok(left) = shards_for_rows(
                codec,
                first_index,
                members,
                rows.take(split),
                frames,
                payloads,
                o,
            ) {
                shards_are_numbered_and_fit(
                    codec,
                    first_index + left.len(),
                    members,
                    rows.skip(split),
                    frames,
                    payloads,
                    o,
                );
            }
        }
    }
}

} // verus!
