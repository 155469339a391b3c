//! Archive members in index order, and how they are shared out among index shards.
use crate::bytes::{lex_lt, lex_lt_is_total, lex_lt_is_transitive, order_bytes, to_bytes, Order};
use crate::codec::ArchiveCodec;
use crate::errors::FormatError;
use crate::member::PrimaryValue;
use crate::metadata::{ArchiveTimestamp, PortableFileMetadata, SourceEntryKind};
use crate::sorting::{stable_sort, stably_sorted, Ranked};
use crate::sparse::SparseExtent;
use core::cmp::Ordering;
use vstd::prelude::*;

verus! {

/// Rows that an index shard is meant to hold.
pub const DEFAULT_FILES_PER_INDEX_SHARD: usize = 10_000;

/// Rows that an index shard may hold at most.
pub const MAX_FILES_PER_INDEX_SHARD: usize = 1_000_000;

/// Rows of one hash that a shard takes beyond its size to keep them together.
pub const MAX_HASH_PREFIX_RUN_FILES: usize = 50_000;

/// A member of the archive: what it was made from, and its place in the tar stream.
#[derive(Debug, Clone)]
pub struct TarMember {
    pub path: Vec<u8>,
    pub entry_kind: SourceEntryKind,
    pub link_target: Option<Vec<u8>>,
    pub tar_member_group_start: u64,
    pub tar_member_group_size: u64,
    pub file_data_size: u64,
    pub sparse_extents: Option<Vec<SparseExtent>>,
    pub mode: u32,
    pub mtime: ArchiveTimestamp,
    pub portable_metadata: PortableFileMetadata,
}

/// A member by content.
pub struct MemberValue {
    pub primary: PrimaryValue,
    pub tar_member_group_start: u64,
    pub tar_member_group_size: u64,
}

impl View for TarMember {
    type V = MemberValue;

    open spec fn view(&self) -> MemberValue {
        MemberValue {
            primary: PrimaryValue {
                path: self.path@,
                entry_kind: self.entry_kind,
                link_target: crate::key_wrap::opt_vec(self.link_target),
                file_size: self.file_data_size,
                sparse_extents: crate::metadata::opt_extents(self.sparse_extents),
                mode: self.mode,
                mtime: self.mtime,
                metadata: self.portable_metadata@,
            },
            tar_member_group_start: self.tar_member_group_start,
            tar_member_group_size: self.tar_member_group_size,
        }
    }
}

pub open spec fn tar_member_values(members: Seq<TarMember>) -> Seq<MemberValue> {
    Seq::new(members.len(), |i: int| members[i]@)
}

/// Whether the metadata of every member is well formed.
pub open spec fn members_wf(members: Seq<TarMember>) -> bool {
    forall|i: int| 0 <= i < members.len() ==> (#[trigger] members[i]).portable_metadata.wf()
}

/// A member in index order.
#[derive(Debug, Clone, PartialEq, Eq)]
pub struct FileRow {
    pub path_hash: [u8; 8],
    pub path: Vec<u8>,
    pub member_index: usize,
    pub entry_kind: SourceEntryKind,
    pub tar_member_group_start: u64,
}

/// A row by content.
pub struct RowValue {
    pub path_hash: [u8; 8],
    pub path: Seq<u8>,
    pub member_index: usize,
    pub entry_kind: SourceEntryKind,
    pub tar_member_group_start: u64,
}

impl View for FileRow {
    type V = RowValue;

    open spec fn view(&self) -> RowValue {
        RowValue {
            path_hash: self.path_hash,
            path: self.path@,
            member_index: self.member_index,
            entry_kind: self.entry_kind,
            tar_member_group_start: self.tar_member_group_start,
        }
    }
}

pub open spec fn row_values(rows: Seq<FileRow>) -> Seq<RowValue> {
    Seq::new(rows.len(), |i: int| rows[i]@)
}

impl FileRow {
    pub fn duplicate(&self) -> (r: FileRow)
        ensures
            r@ == self@,
    {
        FileRow {
            path_hash: self.path_hash,
            path: to_bytes(self.path.as_slice()),
            member_index: self.member_index,
            entry_kind: self.entry_kind,
            tar_member_group_start: self.tar_member_group_start,
        }
    }
}

// ---------------------------------------------------------------------------------------------
// Order
// ---------------------------------------------------------------------------------------------

impl Ranked for FileRow {
    /// Rows go by hash, then by path, then by place in the tar stream.
    open spec fn ranks_below(&self, other: &Self) -> bool {
        ||| lex_lt(self.path_hash@, other.path_hash@)
        ||| self.path_hash@ == other.path_hash@ && lex_lt(self.path@, other.path@)
        ||| self.path_hash@ == other.path_hash@ && self.path@ == other.path@
            && self.tar_member_group_start < other.tar_member_group_start
    }

    proof fn rank_is_irreflexive(a: &Self) {
        lex_lt_is_total(a.path_hash@, a.path_hash@);
        lex_lt_is_total(a.path@, a.path@);
    }

    proof fn rank_is_transitive(a: &Self, b: &Self, c: &Self) {
        if lex_lt(a.path_hash@, b.path_hash@) && lex_lt(b.path_hash@, c.path_hash@) {
            lex_lt_is_transitive(a.path_hash@, b.path_hash@, c.path_hash@);
        }
        if lex_lt(a.path@, b.path@) && lex_lt(b.path@, c.path@) {
            lex_lt_is_transitive(a.path@, b.path@, c.path@);
        }
    }

    proof fn rank_ties_are_transitive(a: &Self, b: &Self, c: &Self) {
        lex_lt_is_total(a.path_hash@, b.path_hash@);
        lex_lt_is_total(b.path_hash@, c.path_hash@);
        lex_lt_is_total(a.path_hash@, c.path_hash@);
        lex_lt_is_total(a.path@, b.path@);
        lex_lt_is_total(b.path@, c.path@);
        lex_lt_is_total(a.path@, c.path@);
    }

    fn compare_rank(&self, other: &Self) -> (r: Ordering) {
        proof {
            lex_lt_is_total(self.path_hash@, other.path_hash@);
            lex_lt_is_total(self.path@, other.path@);
        }
        match order_bytes(self.path_hash.as_slice(), other.path_hash.as_slice()) {
            Order::Before => Ordering::Less,
            Order::After => Ordering::Greater,
            Order::Same => match order_bytes(self.path.as_slice(), other.path.as_slice()) {
                Order::Before => Ordering::Less,
                Order::After => Ordering::Greater,
                Order::Same => if self.tar_member_group_start < other.tar_member_group_start {
                    Ordering::Less
                } else if other.tar_member_group_start < self.tar_member_group_start {
                    Ordering::Greater
                } else {
                    Ordering::Equal
                },
            },
        }
    }
}

/// The row of a member.
pub open spec fn row_of<C: ArchiveCodec>(codec: &C, member: MemberValue, member_index: usize) -> RowValue {
    RowValue {
        path_hash: codec.path_hash(member.primary.path),
        path: member.primary.path,
        member_index,
        entry_kind: member.primary.entry_kind,
        tar_member_group_start: member.tar_member_group_start,
    }
}

/// Whether `rows` are the rows of the members in archive order.
pub open spec fn lists_members<C: ArchiveCodec>(
    codec: &C,
    members: Seq<MemberValue>,
    rows: Seq<FileRow>,
) -> bool {
    &&& rows.len() == members.len()
    &&& forall|i: int|
        0 <= i < rows.len() ==> (#[trigger] rows[i])@ == row_of(codec, members[i], i as usize)
}

/// Whether `rows` are the rows of the members in index order.
pub open spec fn is_sorted_index<C: ArchiveCodec>(
    codec: &C,
    members: Seq<MemberValue>,
    rows: Seq<FileRow>,
) -> bool {
    exists|listed: Seq<FileRow>| #[trigger]
        lists_members(codec, members, listed) && stably_sorted(listed, rows)
}

/// Whether every row names a member and agrees with it.
pub open spec fn rows_name_members<C: ArchiveCodec>(
    codec: &C,
    members: Seq<MemberValue>,
    rows: Seq<RowValue>,
) -> bool {
    forall|i: int|
        0 <= i < rows.len() ==> {
            &&& (#[trigger] rows[i]).member_index < members.len()
            &&& rows[i] == row_of(codec, members[rows[i].member_index as int], rows[i].member_index)
        }
}

proof fn sorted_rows_name_members<C: ArchiveCodec>(
    codec: &C,
    members: Seq<MemberValue>,
    listed: Seq<FileRow>,
    rows: Seq<FileRow>,
)
    requires
        members.len() <= usize::MAX,
        lists_members(codec, members, listed),
        stably_sorted(listed, rows),
    ensures
        rows.len() == members.len(),
        rows_name_members(codec, members, row_values(rows)),
{
    broadcast use vstd::seq_lib::group_to_multiset_ensures;

    assert(rows.len() == rows.to_multiset().len());
    assert(listed.len() == listed.to_multiset().len());
    assert forall|i: int| 0 <= i < rows.len() implies {
        &&& (#[trigger] row_values(rows)[i]).member_index < members.len()
        &&& row_values(rows)[i] == row_of(
            codec,
            members[row_values(rows)[i].member_index as int],
            row_values(rows)[i].member_index,
        )
    } by {
        assert(rows.to_multiset().count(rows[i]) > 0);
        assert(listed.to_multiset().count(rows[i]) > 0);
        assert(listed.contains(rows[i]));
        let k = choose|k: int| 0 <= k < listed.len() && listed[k] == rows[i];
        assert(listed[k]@ == row_of(codec, members[k], k as usize));
    }
}

/// The members in index order.
pub fn sorted_file_rows<C: ArchiveCodec>(codec: &C, members: &Vec<TarMember>) -> (r: Vec<FileRow>)
    ensures
        is_sorted_index(codec, tar_member_values(members@), r@),
        r@.len() == members@.len(),
        rows_name_members(codec, tar_member_values(members@), row_values(r@)),
{
    let ghost values = tar_member_values(members@);
    let mut rows: Vec<FileRow> = Vec::new();
    let mut i: usize = 0;
    while i < members.len()
        invariant
            i <= members@.len(),
            values == tar_member_values(members@),
            rows@.len() == i,
            forall|k: int|
                0 <= k < i ==> (#[trigger] rows@[k])@ == row_of(codec, values[k], k as usize),
        decreases members.len() - i,
    {
        let member: &TarMember = &members[i];
        rows.push(
            FileRow {
                path_hash: codec.hash_prefix(member.path.as_slice()),
                path: to_bytes(member.path.as_slice()),
                member_index: i,
                entry_kind: member.entry_kind,
                tar_member_group_start: member.tar_member_group_start,
            },
        );
        i = i + 1;
    }
    let ghost listed = rows@;
    assert(lists_members(codec, values, listed));
    stable_sort(&mut rows);
    proof {
        assert(members.len() == values.len());
        sorted_rows_name_members(codec, values, listed, rows@);
    }
    rows
}

// ---------------------------------------------------------------------------------------------
// Shards
// ---------------------------------------------------------------------------------------------

/// Where the run of one hash that holds row `i` starts.
pub open spec fn run_start(rows: Seq<RowValue>, i: int) -> int
    decreases i,
{
    if 0 < i && rows[i - 1].path_hash == rows[i].path_hash {
        run_start(rows, i - 1)
    } else {
        i
    }
}

/// Where the run of the hash `hash` that reaches up to `i` ends.
pub open spec fn run_end(rows: Seq<RowValue>, i: int, hash: [u8; 8]) -> int
    decreases rows.len() - i,
{
    if 0 <= i < rows.len() && rows[i].path_hash == hash {
        run_end(rows, i + 1, hash)
    } else {
        i
    }
}

/// The run of one hash that holds row `i`.
pub open spec fn run_len(rows: Seq<RowValue>, i: int) -> int {
    run_end(rows, i, rows[i].path_hash) - run_start(rows, i)
}

/// Where the shard that starts at `start` ends: after its regular number of rows, or later so
/// that a run of one hash stays together.
pub open spec fn shard_end(rows: Seq<RowValue>, start: int) -> int {
    let end = if start + DEFAULT_FILES_PER_INDEX_SHARD < rows.len() {
        start + DEFAULT_FILES_PER_INDEX_SHARD
    } else {
        rows.len() as int
    };
    if end < rows.len() && rows[end - 1].path_hash == rows[end].path_hash {
        let full_start = run_start(rows, end - 1);
        let start_in_shard = if full_start < start {
            start
        } else {
            full_start
        };
        let full_end = run_end(rows, end + 1, rows[end].path_hash);
        if full_end - full_start <= MAX_HASH_PREFIX_RUN_FILES {
            full_end
        } else if start_in_shard + MAX_HASH_PREFIX_RUN_FILES < full_end {
            start_in_shard + MAX_HASH_PREFIX_RUN_FILES
        } else {
            full_end
        }
    } else {
        end
    }
}

proof fn run_start_is_first(rows: Seq<RowValue>, i: int)
    requires
        0 <= i < rows.len(),
    ensures
        0 <= run_start(rows, i) <= i,
        forall|k: int|
            run_start(rows, i) <= k <= i ==> (#[trigger] rows[k]).path_hash == rows[i].path_hash,
        run_start(rows, i) > 0 ==> rows[run_start(rows, i) - 1].path_hash != rows[i].path_hash,
    decreases i,
{
    if 0 < i && rows[i - 1].path_hash == rows[i].path_hash {
        run_start_is_first(rows, i - 1);
    }
}

proof fn run_end_is_first_other(rows: Seq<RowValue>, i: int, hash: [u8; 8])
    requires
        0 <= i <= rows.len(),
    ensures
        i <= run_end(rows, i, hash) <= rows.len(),
        forall|k: int|
            i <= k < run_end(rows, i, hash) ==> (#[trigger] rows[k]).path_hash == hash,
        run_end(rows, i, hash) < rows.len() ==> rows[run_end(rows, i, hash)].path_hash != hash,
    decreases rows.len() - i,
{
    if i < rows.len() && rows[i].path_hash == hash {
        run_end_is_first_other(rows, i + 1, hash);
    }
}

proof fn run_start_within_run(rows: Seq<RowValue>, i: int, j: int)
    requires
        0 <= i <= j < rows.len(),
        forall|k: int| i <= k <= j ==> (#[trigger] rows[k]).path_hash == rows[j].path_hash,
    ensures
        run_start(rows, i) == run_start(rows, j),
    decreases j,
{
    if i < j {
        assert(rows[j - 1].path_hash == rows[j].path_hash);
        run_start_within_run(rows, i, j - 1);
    }
}

proof fn run_end_within_run(rows: Seq<RowValue>, i: int, j: int, hash: [u8; 8])
    requires
        0 <= i <= j <= rows.len(),
        forall|k: int| i <= k < j ==> (#[trigger] rows[k]).path_hash == hash,
    ensures
        run_end(rows, i, hash) == run_end(rows, j, hash),
    decreases j - i,
{
    if i < j {
        assert(rows[i].path_hash == hash);
        run_end_within_run(rows, i + 1, j, hash);
    }
}

/// A shard takes at least one row and never ends beyond the rows.
pub proof fn shards_make_progress(rows: Seq<RowValue>, start: int)
    requires
        0 <= start < rows.len(),
    ensures
        start < shard_end(rows, start) <= rows.len(),
{
    let end = if start + DEFAULT_FILES_PER_INDEX_SHARD < rows.len() {
        start + DEFAULT_FILES_PER_INDEX_SHARD
    } else {
        rows.len() as int
    };
    if end < rows.len() {
        run_end_is_first_other(rows, end + 1, rows[end].path_hash);
        run_start_is_first(rows, end - 1);
    }
}

/// A shard boundary parts a run of one hash only where the run is too long to stay together.
pub proof fn only_long_runs_are_parted(rows: Seq<RowValue>, start: int)
    requires
        0 <= start < rows.len(),
    ensures
        ({
            let end = shard_end(rows, start);
            end < rows.len() && rows[end - 1].path_hash == rows[end].path_hash ==> run_len(rows, end)
                > MAX_HASH_PREFIX_RUN_FILES
        }),
{
    let cut = if start + DEFAULT_FILES_PER_INDEX_SHARD < rows.len() {
        start + DEFAULT_FILES_PER_INDEX_SHARD
    } else {
        rows.len() as int
    };
    if cut < rows.len() && rows[cut - 1].path_hash == rows[cut].path_hash {
        let hash = rows[cut].path_hash;
        run_end_is_first_other(rows, cut + 1, hash);
        run_start_is_first(rows, cut - 1);
        let full_start = run_start(rows, cut - 1);
        let full_end = run_end(rows, cut + 1, hash);
        assert forall|k: int| full_start <= k < full_end implies (#[trigger] rows[k]).path_hash
            == hash by {}
        let end = shard_end(rows, start);
        if end < rows.len() && rows[end - 1].path_hash == rows[end].path_hash && end < full_end {
            assert(rows[end].path_hash == hash);
            run_start_within_run(rows, full_start, end);
            run_start_within_run(rows, full_start, cut - 1);
            run_end_within_run(rows, end, full_end, hash);
            run_end_within_run(rows, cut + 1, full_end, hash);
        }
    }
}

/// The shards from row `start` on, as ranges, or why one is too large.
pub open spec fn shard_ranges(rows: Seq<RowValue>, start: int) -> Result<
    Seq<(int, int)>,
    FormatError,
>
    decreases rows.len() - start,
    when 0 <= start <= rows.len()
    via shard_ranges_end
{
    if start >= rows.len() {
        Ok(Seq::empty())
    } else {
        let end = shard_end(rows, start);
        if end - start > MAX_FILES_PER_INDEX_SHARD {
            Err(
                FormatError::WriterUnsupported(
                    "hash-prefix collision run exceeds max_files_per_index_shard",
                ),
            )
        } else {
            match shard_ranges(rows, end) {
                Err(e) => Err(e),
                Ok(rest) => Ok(seq![(start, end)] + rest),
            }
        }
    }
}

#[via_fn]
proof fn shard_ranges_end(rows: Seq<RowValue>, start: int) {
    if start < rows.len() {
        shards_make_progress(rows, start);
    }
}

/// Rows shared out among shards.
pub open spec fn shared_rows(rows: Seq<RowValue>, ranges: Seq<(int, int)>) -> Seq<Seq<RowValue>> {
    ranges.map_values(|r: (int, int)| rows.subrange(r.0, r.1))
}

pub open spec fn shard_row_values(shards: Seq<Vec<FileRow>>) -> Seq<Seq<RowValue>> {
    Seq::new(shards.len(), |i: int| row_values(shards[i]@))
}

pub open spec fn partition_outcome(rows: Seq<RowValue>) -> Result<Seq<Seq<RowValue>>, FormatError> {
    match shard_ranges(rows, 0) {
        Err(e) => Err(e),
        Ok(ranges) => Ok(shared_rows(rows, ranges)),
    }
}

/// Whether two hashes are the same.
pub fn same_hash(a: &[u8; 8], b: &[u8; 8]) -> (r: bool)
    ensures
        r == (*a == *b),
{
    let r: bool = crate::bytes::same_bytes(a.as_slice(), b.as_slice());
    proof {
        if r {
            assert(*a =~= *b);
        }
    }
    r
}

fn find_shard_end(rows: &Vec<FileRow>, start: usize) -> (r: usize)
    requires
        start < rows@.len(),
    ensures
        r == shard_end(row_values(rows@), start as int),
        start < r <= rows@.len(),
{
    let ghost values = row_values(rows@);
    proof {
        shards_make_progress(values, start as int);
    }
    let total: usize = rows.len();
    let end: usize = if total - start > DEFAULT_FILES_PER_INDEX_SHARD {
        start + DEFAULT_FILES_PER_INDEX_SHARD
    } else {
        total
    };
    if end == total || !same_hash(&rows[end - 1].path_hash, &rows[end].path_hash) {
        return end;
    }
    let hash: [u8; 8] = rows[end].path_hash;
    proof {
        run_start_is_first(values, end - 1);
        run_end_is_first_other(values, end + 1, hash);
        assert(values[end - 1].path_hash == hash);
    }
    let mut full_run_start: usize = end - 1;
    while full_run_start > 0 && same_hash(&rows[full_run_start - 1].path_hash, &hash)
        invariant
            full_run_start < end < total,
            total == rows@.len(),
            values == row_values(rows@),
            values[full_run_start as int].path_hash == hash,
            run_start(values, full_run_start as int) == run_start(values, end - 1),
        decreases full_run_start,
    {
        assert(values[full_run_start - 1].path_hash == hash);
        full_run_start = full_run_start - 1;
    }
    let run_start_in_shard: usize = if full_run_start < start {
        start
    } else {
        full_run_start
    };
    let mut full_run_end: usize = end + 1;
    while full_run_end < total && same_hash(&rows[full_run_end].path_hash, &hash)
        invariant
            end < full_run_end <= total,
            total == rows@.len(),
            values == row_values(rows@),
            run_end(values, full_run_end as int, hash) == run_end(values, end + 1, hash),
        decreases total - full_run_end,
    {
        assert(values[full_run_end as int].path_hash == hash);
        full_run_end = full_run_end + 1;
    }
    proof {
        if full_run_end < total {
            assert(values[full_run_end as int].path_hash == rows@[full_run_end as int].path_hash);
        }
        if full_run_start > 0 {
            assert(values[full_run_start - 1].path_hash == rows@[full_run_start - 1].path_hash);
        }
    }
    if full_run_end - full_run_start <= MAX_HASH_PREFIX_RUN_FILES {
        full_run_end
    } else if full_run_end - run_start_in_shard > MAX_HASH_PREFIX_RUN_FILES {
        run_start_in_shard + MAX_HASH_PREFIX_RUN_FILES
    } else {
        full_run_end
    }
}

/// Copies of the rows in a range.
pub fn duplicate_rows(rows: &Vec<FileRow>, start: usize, end: usize) -> (r: Vec<FileRow>)
    requires
        start <= end <= rows@.len(),
    ensures
        row_values(r@) == row_values(rows@).subrange(start as int, end as int),
{
    let mut copy: Vec<FileRow> = Vec::new();
    let mut i: usize = start;
    while i < end
        invariant
            start <= i <= end <= rows@.len(),
            copy@.len() == i - start,
            forall|k: int| 0 <= k < copy@.len() ==> (#[trigger] copy@[k])@ == rows@[start + k]@,
        decreases end - i,
    {
        copy.push(rows[i].duplicate());
        i = i + 1;
    }
    assert(row_values(copy@) =~= row_values(rows@).subrange(start as int, end as int));
    copy
}

/// Shares sorted rows out among shards.
#[verifier::loop_isolation(false)]
pub fn partition_file_rows(rows: &Vec<FileRow>) -> (r: Result<Vec<Vec<FileRow>>, FormatError>)
    ensures
        match (r, partition_outcome(row_values(rows@))) {
            (Ok(v), Ok(w)) => shard_row_values(v@) == w,
            (Err(e), Err(f)) => e == f,
            _ => false,
        },
{
    let ghost values = row_values(rows@);
    let mut shards: Vec<Vec<FileRow>> = Vec::new();
    let mut start: usize = 0;
    let ghost mut done: Seq<(int, int)> = Seq::empty();
    assert(shard_row_values(shards@) =~= shared_rows(values, done));
    proof {
        if let Ok(rest) = shard_ranges(values, 0) {
            assert(done + rest =~= rest);
        }
    }
    while start < rows.len()
        invariant
            start <= rows@.len(),
            shard_row_values(shards@) == shared_rows(values, done),
            shard_ranges(values, 0) == (match shard_ranges(values, start as int) {
                Err(e) => Err::<Seq<(int, int)>, FormatError>(e),
                Ok(rest) => Ok(done + rest),
            }),
        decreases rows.len() - start,
    {
        let end: usize = find_shard_end(rows, start);
        if end - start > MAX_FILES_PER_INDEX_SHARD {
            return Err(
                FormatError::WriterUnsupported(
                    "hash-prefix collision run exceeds max_files_per_index_shard",
                ),
            );
        }
        let ghost before = shards@;
        shards.push(duplicate_rows(rows, start, end));
        proof {
            let range = (start as int, end as int);
            assert(shard_row_values(shards@) =~= shard_row_values(before).push(
                values.subrange(start as int, end as int),
            ));
            assert(shared_rows(values, done.push(range)) =~= shared_rows(values, done).push(
                values.subrange(start as int, end as int),
            ));
            if let Ok(rest) = shard_ranges(values, end as int) {
                assert(done + (seq![range] + rest) =~= done.push(range) + rest);
            }
            done = done.push(range);
        }
        start = end;
    }
    proof {
        assert(done + Seq::<(int, int)>::empty() =~= done);
    }
    Ok(shards)
}

/// Every shard takes rows from `start` on, and at least one.
pub(crate) proof fn shards_lie_in_the_rows(rows: Seq<RowValue>, start: int)
    requires
        0 <= start <= rows.len(),
    ensures
        shard_ranges(rows, start) matches Ok(ranges) ==> forall|i: int|
            0 <= i < ranges.len() ==> start <= (#[trigger] ranges[i]).0 < ranges[i].1 <= rows.len(),
    decreases rows.len() - start,
{
    if start < rows.len() {
        shards_make_progress(rows, start);
        let end = shard_end(rows, start);
        shards_lie_in_the_rows(rows, end);
        if let Ok(ranges) = shard_ranges(rows, start) {
            let rest = shard_ranges(rows, end)->Ok_0;
            assert(ranges =~= seq![(start, end)] + rest);
            assert forall|i: int| 0 <= i < ranges.len() implies start <= (#[trigger] ranges[i]).0
                < ranges[i].1 <= rows.len() by {
                if i > 0 {
                    assert(ranges[i] == rest[i - 1]);
                }
            }
        }
    }
}

/// Sharing rows out loses none and keeps their order: the shards are consecutive, non-empty
/// ranges that cover the rows from `start` to the end.
pub proof fn shards_cover_the_rows(rows: Seq<RowValue>, start: int)
    requires
        0 <= start <= rows.len(),
    ensures
        shard_ranges(rows, start) matches Ok(ranges) ==> {
            &&& forall|i: int|
                0 <= i < ranges.len() ==> (#[trigger] ranges[i]).0 < ranges[i].1 <= rows.len()
            &&& forall|i: int|
                0 <= i < ranges.len() ==> (#[trigger] ranges[i]).1 == (if i + 1 < ranges.len() {
                    ranges[i + 1].0
                } else {
                    rows.len() as int
                })
            &&& ranges.len() > 0 ==> ranges[0].0 == start
            &&& ranges.len() == 0 ==> start == rows.len()
            &&& flattened(shared_rows(rows, ranges)) == rows.skip(start)
        },
    decreases rows.len() - start,
{
    if start < rows.len() {
        shards_make_progress(rows, start);
        let end = shard_end(rows, start);
        shards_cover_the_rows(rows, end);
        if let Ok(ranges) = shard_ranges(rows, start) {
            let rest = shard_ranges(rows, end)->Ok_0;
            assert(ranges =~= seq![(start, end)] + rest);
            assert forall|i: int| 0 <= i < ranges.len() implies (#[trigger] ranges[i]).1 == (if i
                + 1 < ranges.len() {
                ranges[i + 1].0
            } else {
                rows.len() as int
            }) by {
                if i > 0 {
                    assert(ranges[i] == rest[i - 1]);
                    if i + 1 < ranges.len() {
                        assert(ranges[i + 1] == rest[i]);
                    }
                } else if rest.len() > 0 {
                    assert(ranges[1] == rest[0]);
                }
            }
            assert forall|i: int| 0 <= i < ranges.len() implies (#[trigger] ranges[i]).0
                < ranges[i].1 <= rows.len() by {
                if i > 0 {
                    assert(ranges[i] == rest[i - 1]);
                }
            }
            let parts = shared_rows(rows, ranges);
            assert(parts.len() == ranges.len());
            assert(parts[0] == rows.subrange(start, end));
            assert(parts.skip(1) =~= shared_rows(rows, rest));
            assert(rows.subrange(start, end) + rows.skip(end) =~= rows.skip(start));
        }
    } else {
        assert(shared_rows(rows, Seq::empty()) =~= Seq::empty());
        assert(rows.skip(start) =~= Seq::empty());
    }
}

/// Parts one behind the other.
pub open spec fn flattened(parts: Seq<Seq<RowValue>>) -> Seq<RowValue>
    decreases parts.len(),
{
    if parts.len() == 0 {
        Seq::empty()
    } else {
        parts[0] + flattened(parts.skip(1))
    }
}

// ---------------------------------------------------------------------------------------------
// Splitting
// ---------------------------------------------------------------------------------------------

/// Where rows are split that make too large a shard: in the middle, or at the nearer end of the
/// run of one hash there.
pub open spec fn split_point(rows: Seq<RowValue>) -> int {
    let mid = rows.len() as int / 2;
    if rows[mid - 1].path_hash != rows[mid].path_hash {
        mid
    } else {
        let left = run_start(rows, mid);
        let right = run_end(rows, mid, rows[mid].path_hash);
        if left > 0 && right < rows.len() {
            if mid - left <= right - mid {
                left
            } else {
                right
            }
        } else if left > 0 {
            left
        } else if right < rows.len() {
            right
        } else {
            mid
        }
    }
}

/// A split leaves rows on both sides, and parts a run of one hash only where there is no other
/// hash.
pub proof fn splits_leave_two_parts(rows: Seq<RowValue>)
    requires
        rows.len() >= 2,
    ensures
        0 < split_point(rows) < rows.len(),
        rows[split_point(rows) - 1].path_hash == rows[split_point(rows)].path_hash ==> (forall|
            i: int,
        |
            0 <= i < rows.len() ==> (#[trigger] rows[i]).path_hash == rows[0].path_hash),
{
    let mid = rows.len() as int / 2;
    if rows[mid - 1].path_hash == rows[mid].path_hash {
        let hash = rows[mid].path_hash;
        run_start_is_first(rows, mid);
        run_end_is_first_other(rows, mid, hash);
        let left = run_start(rows, mid);
        let right = run_end(rows, mid, hash);
        if left == 0 && right == rows.len() {
            assert forall|i: int| 0 <= i < rows.len() implies (#[trigger] rows[i]).path_hash
                == rows[0].path_hash by {
                assert(rows[0].path_hash == hash);
            }
        }
    }
}

/// Where to split rows that make too large a shard.
pub fn split_sorted_file_rows_for_object_limit(rows: &Vec<FileRow>) -> (r: usize)
    requires
        rows@.len() >= 2,
    ensures
        r == split_point(row_values(rows@)),
        0 < r < rows@.len(),
{
    let ghost values = row_values(rows@);
    proof {
        splits_leave_two_parts(values);
    }
    let total: usize = rows.len();
    let midpoint: usize = total / 2;
    if !same_hash(&rows[midpoint - 1].path_hash, &rows[midpoint].path_hash) {
        return midpoint;
    }
    let hash: [u8; 8] = rows[midpoint].path_hash;
    proof {
        run_start_is_first(values, midpoint as int);
        run_end_is_first_other(values, midpoint as int, hash);
    }
    let mut left: usize = midpoint;
    while left > 0 && same_hash(&rows[left - 1].path_hash, &hash)
        invariant
            left <= midpoint < total,
            total == rows@.len(),
            values == row_values(rows@),
            values[left as int].path_hash == hash,
            run_start(values, left as int) == run_start(values, midpoint as int),
        decreases left,
    {
        assert(values[left - 1].path_hash == hash);
        left = left - 1;
    }
    let mut right: usize = midpoint;
    while right < total && same_hash(&rows[right].path_hash, &hash)
        invariant
            midpoint <= right <= total,
            total == rows@.len(),
            values == row_values(rows@),
            run_end(values, right as int, hash) == run_end(values, midpoint as int, hash),
        decreases total - right,
    {
        assert(values[right as int].path_hash == hash);
        right = right + 1;
    }
    proof {
        if right < total {
            assert(values[right as int].path_hash == rows@[right as int].path_hash);
        }
        if left > 0 {
            assert(values[left - 1].path_hash == rows@[left - 1].path_hash);
        }
    }
    if left > 0 && right < total {
        if midpoint - left <= right - midpoint {
            left
        } else {
            right
        }
    } else if left > 0 {
        left
    } else if right < total {
        right
    } else {
        midpoint
    }
}

} // verus!
