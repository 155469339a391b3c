//! Directory hints: which index shards hold the members below a directory.
use crate::arith::{checked_usize_add, table_offset, table_offset_outcome, u32_len};
use crate::byte_map::ByteMap;
use crate::bytes::{
    append, append_le, le_bytes, lex_lt, lex_lt_is_total, lex_lt_is_transitive, order_bytes,
    to_bytes, Order,
};
use crate::codec::{ArchiveCodec, WireLayout};
use crate::errors::{bytes_agree, FormatError};
use crate::metadata::SourceEntryKind;
use crate::object_plan::{index_fit, index_object_can_fit};
use crate::options::WriterOptions;
use crate::rows::{row_values, shard_row_values, FileRow, RowValue};
use crate::shard::{append_record, joined_records};
use crate::sorting::{stable_sort, stably_sorted, Ranked};
use crate::wire::{DirectoryHintEntry, DirectoryHintTableHeader, Record};
use core::cmp::Ordering;
use vstd::prelude::*;

verus! {

/// Archives with more members than this carry directory hints.
pub const DIRECTORY_HINT_REQUIRED_FILE_COUNT: usize = 100_000;

/// Directories that a hint table is meant to hold.
pub const DEFAULT_DIRECTORY_HINT_ENTRIES_PER_SHARD: usize = 10_000;

/// The byte of a slash.
pub const SLASH: u8 = 47;

pub fn should_emit_directory_hints(file_count: usize) -> (r: bool)
    ensures
        r == (file_count > DIRECTORY_HINT_REQUIRED_FILE_COUNT),
{
    file_count > DIRECTORY_HINT_REQUIRED_FILE_COUNT
}

// ---------------------------------------------------------------------------------------------
// Which directories
// ---------------------------------------------------------------------------------------------

/// Whether a member is itself a directory.
pub open spec fn is_directory(kind: SourceEntryKind) -> bool {
    kind == SourceEntryKind::Directory || kind == SourceEntryKind::ReparseDirectory
}

/// Whether the first `n` bytes of a path name a directory above it.
pub open spec fn names_ancestor(path: Seq<u8>, n: int) -> bool {
    0 < n < path.len() && path[n] == SLASH
}

/// Whether a hint for `dir` leads to a member: it is the root, a directory above the member, or
/// the member itself where that is a directory.
pub open spec fn hints_at(path: Seq<u8>, kind: SourceEntryKind, dir: Seq<u8>) -> bool {
    ||| dir.len() == 0
    ||| dir.len() < path.len() && names_ancestor(path, dir.len() as int) && dir == path.take(
        dir.len() as int,
    )
    ||| is_directory(kind) && dir == path
}

/// An ascending list with a number in it.
pub open spec fn with_number(list: Seq<u32>, x: u32) -> Seq<u32>
    decreases list.len(),
{
    if list.len() == 0 {
        seq![x]
    } else if list.last() == x {
        list
    } else if list.last() < x {
        list.push(x)
    } else {
        with_number(list.drop_last(), x).push(list.last())
    }
}

/// Whether a list ascends.
pub open spec fn numbers_ascend(list: Seq<u32>) -> bool {
    forall|i: int, j: int| 0 <= i < j < list.len() ==> list[i] < list[j]
}

/// Adding a number keeps a list ascending, keeps what was in it and puts the number in.
pub proof fn with_number_keeps_order(list: Seq<u32>, x: u32)
    requires
        numbers_ascend(list),
    ensures
        numbers_ascend(with_number(list, x)),
        forall|y: u32| #[trigger] with_number(list, x).contains(y) <==> list.contains(y) || y == x,
        with_number(with_number(list, x), x) == with_number(list, x),
    decreases list.len(),
{
    let after = with_number(list, x);
    if list.len() == 0 {
        assert(after[0] == x);
        assert forall|y: u32| #[trigger] after.contains(y) <==> list.contains(y) || y == x by {
            if y == x {
                assert(after[0] == y);
            }
        }
    } else if list.last() == x {
        assert forall|y: u32| #[trigger] after.contains(y) <==> list.contains(y) || y == x by {
            if y == x {
                assert(list[list.len() - 1] == y);
            }
        }
    } else if list.last() < x {
        assert forall|y: u32| #[trigger] after.contains(y) <==> list.contains(y) || y == x by {
            if list.contains(y) {
                let k = choose|k: int| 0 <= k < list.len() && list[k] == y;
                assert(after[k] == y);
            }
            if y == x {
                assert(after[list.len() as int] == y);
            }
            if after.contains(y) && y != x {
                let k = choose|k: int| 0 <= k < after.len() && after[k] == y;
                assert(list[k] == y);
            }
        }
        assert(after.last() == x);
    } else {
        let less = list.drop_last();
        with_number_keeps_order(less, x);
        let inner = with_number(less, x);
        assert forall|i: int, j: int| 0 <= i < j < after.len() implies after[i] < after[j] by {
            if j == after.len() - 1 {
                assert(inner.contains(inner[i]));
                if inner[i] != x {
                    let k = choose|k: int| 0 <= k < less.len() && less[k] == inner[i];
                    assert(list[k] < list[list.len() - 1]);
                }
            }
        }
        assert forall|y: u32| #[trigger] after.contains(y) <==> list.contains(y) || y == x by {
            if list.contains(y) {
                let k = choose|k: int| 0 <= k < list.len() && list[k] == y;
                if k < less.len() {
                    assert(less[k] == y);
                    assert(inner.contains(y));
                    let m = choose|m: int| 0 <= m < inner.len() && inner[m] == y;
                    assert(after[m] == y);
                } else {
                    assert(after[after.len() - 1] == y);
                }
            }
            if y == x {
                assert(inner.contains(x));
                let m = choose|m: int| 0 <= m < inner.len() && inner[m] == x;
                assert(after[m] == y);
            }
            if after.contains(y) && y != x {
                let m = choose|m: int| 0 <= m < after.len() && after[m] == y;
                if m < inner.len() {
                    assert(inner.contains(inner[m]));
                    let k = choose|k: int| 0 <= k < less.len() && less[k] == y;
                    assert(list[k] == y);
                } else {
                    assert(list[list.len() - 1] == y);
                }
            }
        }
        assert(after.last() == list.last());
        assert(after.drop_last() =~= inner);
        if after.last() == x {
            assert(false);
        }
    }
}

/// For each directory the shards that hold members below it.
pub open spec fn hint_map(m: ByteMap<Vec<u32>>) -> Map<Seq<u8>, Seq<u32>> {
    Map::new(|key: Seq<u8>| m.has(key), |key: Seq<u8>| m.at(key)@)
}

/// The list of a directory, empty where it has none.
pub open spec fn hint_list(map: Map<Seq<u8>, Seq<u32>>, dir: Seq<u8>) -> Seq<u32> {
    if map.dom().contains(dir) {
        map[dir]
    } else {
        Seq::empty()
    }
}

/// A hint map with one member added.
pub open spec fn with_member(
    map: Map<Seq<u8>, Seq<u32>>,
    shard: u32,
    path: Seq<u8>,
    kind: SourceEntryKind,
) -> Map<Seq<u8>, Seq<u32>> {
    Map::new(
        |dir: Seq<u8>| map.dom().contains(dir) || hints_at(path, kind, dir),
        |dir: Seq<u8>|
            if hints_at(path, kind, dir) {
                with_number(hint_list(map, dir), shard)
            } else {
                map[dir]
            },
    )
}

/// Puts a number into an ascending list.
fn put_number(list: &mut Vec<u32>, x: u32)
    ensures
        final(list)@ == with_number(old(list)@, x),
{
    let ghost start = list@;
    let mut at: usize = list.len();
    assert(start.take(at as int) =~= start);
    assert(start.skip(at as int) =~= Seq::empty());
    assert(with_number(start.take(at as int), x) + start.skip(at as int) =~= with_number(start, x));
    while at > 0 && list[at - 1] > x
        invariant
            at <= list@.len(),
            list@ == start,
            with_number(start, x) == with_number(start.take(at as int), x) + start.skip(at as int),
        decreases at,
    {
        proof {
            let head = start.take(at as int);
            assert(head.drop_last() =~= start.take(at - 1));
            assert(start.skip(at - 1) =~= seq![start[at - 1]] + start.skip(at as int));
            assert(with_number(head.drop_last(), x).push(head.last()) + start.skip(at as int)
                =~= with_number(start.take(at - 1), x) + start.skip(at - 1));
        }
        at = at - 1;
    }
    if at > 0 && list[at - 1] == x {
        assert(start.take(at as int) + start.skip(at as int) =~= start);
        return;
    }
    list.insert(at, x);
    proof {
        let head = start.take(at as int);
        assert(with_number(head, x) =~= head.push(x));
        assert(list@ =~= head.push(x) + start.skip(at as int));
    }
}

/// A hint map with a shard added to one directory.
pub open spec fn with_hint(map: Map<Seq<u8>, Seq<u32>>, dir: Seq<u8>, shard: u32) -> Map<
    Seq<u8>,
    Seq<u32>,
> {
    map.insert(dir, with_number(hint_list(map, dir), shard))
}

fn put_hint(map: &mut ByteMap<Vec<u32>>, dir: &[u8], shard: u32)
    requires
        old(map).wf(),
    ensures
        final(map).wf(),
        hint_map(*final(map)) == with_hint(hint_map(*old(map)), dir@, shard),
{
    let ghost before = *map;
    let mut list: Vec<u32> = match map.get(dir) {
        Some(list) => duplicate_numbers(list),
        None => Vec::new(),
    };
    assert(list@ =~= hint_list(hint_map(before), dir@));
    put_number(&mut list, shard);
    let ghost value = list;
    map.insert(to_bytes(dir), list);
    proof {
        let after = *map;
        assert forall|x: Seq<u8>| #[trigger] after.has(x) <==> before.has(x) || x == dir@ by {
            assert(after.contents().dom().contains(x) <==> before.contents().insert(
                dir@,
                value,
            ).dom().contains(x));
        }
        assert forall|x: Seq<u8>| after.has(x) implies #[trigger] after.at(x)
            == before.contents().insert(dir@, value)[x] by {
            assert(after.contents()[x] == after.at(x));
        }
        assert(hint_map(after) =~= with_hint(hint_map(before), dir@, shard));
    }
}

fn duplicate_numbers(list: &Vec<u32>) -> (r: Vec<u32>)
    ensures
        r@ == list@,
{
    let mut copy: Vec<u32> = Vec::new();
    let mut i: usize = 0;
    while i < list.len()
        invariant
            i <= list@.len(),
            copy@ =~= list@.take(i as int),
        decreases list.len() - i,
    {
        copy.push(list[i]);
        i = i + 1;
    }
    assert(copy@ =~= list@);
    copy
}

/// Whether a directory shorter than `n` bytes leads to a member.
spec fn hinted_before(path: Seq<u8>, dir: Seq<u8>, n: int) -> bool {
    ||| dir.len() == 0
    ||| dir.len() < n && dir.len() < path.len() && names_ancestor(path, dir.len() as int) && dir
        == path.take(dir.len() as int)
}

/// Adds a member to a hint map.
pub fn add_directory_hint_rows(
    map: &mut ByteMap<Vec<u32>>,
    shard_row_index: u32,
    path: &[u8],
    entry_kind: SourceEntryKind,
)
    requires
        old(map).wf(),
        forall|dir: Seq<u8>| #[trigger]
            hint_map(*old(map)).dom().contains(dir) ==> numbers_ascend(hint_map(*old(map))[dir]),
    ensures
        final(map).wf(),
        hint_map(*final(map)) == with_member(
            hint_map(*old(map)),
            shard_row_index,
            path@,
            entry_kind,
        ),
        forall|dir: Seq<u8>| #[trigger]
            hint_map(*final(map)).dom().contains(dir) ==> numbers_ascend(hint_map(*final(map))[dir]),
{
    let ghost start = hint_map(*map);
    let root: Vec<u8> = Vec::new();
    put_hint(map, root.as_slice(), shard_row_index);
    proof {
        assert(root@ =~= Seq::<u8>::empty());
        assert forall|dir: Seq<u8>| hinted_before(path@, dir, 0) implies dir == Seq::<
            u8,
        >::empty() by {
            assert(dir =~= Seq::<u8>::empty());
        }
    }
    let mut i: usize = 0;
    while i < path.len()
        invariant
            i <= path@.len(),
            map.wf(),
            forall|dir: Seq<u8>| #[trigger]
                hint_map(*map).dom().contains(dir) <==> start.dom().contains(dir) || hinted_before(
                    path@,
                    dir,
                    i as int,
                ),
            forall|dir: Seq<u8>| #[trigger]
                hint_map(*map).dom().contains(dir) ==> hint_map(*map)[dir] == (if hinted_before(
                    path@,
                    dir,
                    i as int,
                ) {
                    with_number(hint_list(start, dir), shard_row_index)
                } else {
                    start[dir]
                }),
        decreases path.len() - i,
    {
        let ghost before = hint_map(*map);
        if path[i] == SLASH && i > 0 {
            let dir: &[u8] = vstd::slice::slice_subrange(path, 0, i);
            put_hint(map, dir, shard_row_index);
            proof {
                assert(dir@ =~= path@.take(i as int));
                assert(!hinted_before(path@, dir@, i as int));
                assert forall|d: Seq<u8>| hinted_before(path@, d, i + 1) <==> hinted_before(
                    path@,
                    d,
                    i as int,
                ) || d == dir@ by {
                    if d.len() == i {
                        assert(path@.take(d.len() as int) == path@.take(i as int));
                    }
                }
            }
        } else {
            assert forall|d: Seq<u8>| hinted_before(path@, d, i + 1) <==> hinted_before(
                path@,
                d,
                i as int,
            ) by {}
        }
        i = i + 1;
    }
    let is_dir: bool = match entry_kind {
        SourceEntryKind::Directory => true,
        SourceEntryKind::ReparseDirectory => true,
        _ => false,
    };
    let ghost before = hint_map(*map);
    proof {
        assert forall|dir: Seq<u8>| numbers_ascend(#[trigger] hint_list(start, dir)) by {
            assert(start.dom().contains(dir) ==> numbers_ascend(start[dir]));
        }
    }
    if is_dir {
        put_hint(map, path, shard_row_index);
    }
    proof {
        let after = hint_map(*map);
        let expected = with_member(start, shard_row_index, path@, entry_kind);
        assert forall|dir: Seq<u8>| after.dom().contains(dir) <==> expected.dom().contains(
            dir,
        ) by {
            assert(hints_at(path@, entry_kind, dir) <==> hinted_before(
                path@,
                dir,
                path@.len() as int,
            ) || (is_directory(entry_kind) && dir == path@));
        }
        assert forall|dir: Seq<u8>| #[trigger] after.dom().contains(dir) implies after[dir]
            == expected[dir] && numbers_ascend(after[dir]) by {
            assert(numbers_ascend(hint_list(start, dir)));
            with_number_keeps_order(hint_list(start, dir), shard_row_index);
            assert(before.dom().contains(dir) || dir == path@);
        }
        assert(after =~= expected);
    }
}

// ---------------------------------------------------------------------------------------------
// Rows
// ---------------------------------------------------------------------------------------------

/// A directory and the shards that its hint names.
#[derive(Debug, Clone, PartialEq, Eq)]
pub struct HintRow {
    pub dir_hash: [u8; 8],
    pub path: Vec<u8>,
    pub shard_rows: Vec<u32>,
}

/// A hint by content.
pub struct HintValue {
    pub dir_hash: [u8; 8],
    pub path: Seq<u8>,
    pub shard_rows: Seq<u32>,
}

impl View for HintRow {
    type V = HintValue;

    open spec fn view(&self) -> HintValue {
        HintValue {
            dir_hash: self.dir_hash,
            path: self.path@,
            shard_rows: self.shard_rows@,
        }
    }
}

pub open spec fn hint_values(rows: Seq<HintRow>) -> Seq<HintValue> {
    Seq::new(rows.len(), |i: int| rows[i]@)
}

impl Ranked for HintRow {
    /// Hints go by hash, then by path.
    open spec fn ranks_below(&self, other: &Self) -> bool {
        ||| lex_lt(self.dir_hash@, other.dir_hash@)
        ||| self.dir_hash@ == other.dir_hash@ && lex_lt(self.path@, other.path@)
    }

    proof fn rank_is_irreflexive(a: &Self) {
        lex_lt_is_total(a.dir_hash@, a.dir_hash@);
        lex_lt_is_total(a.path@, a.path@);
    }

    proof fn rank_is_transitive(a: &Self, b: &Self, c: &Self) {
        if lex_lt(a.dir_hash@, b.dir_hash@) && lex_lt(b.dir_hash@, c.dir_hash@) {
            lex_lt_is_transitive(a.dir_hash@, b.dir_hash@, c.dir_hash@);
        }
        if lex_lt(a.path@, b.path@) && lex_lt(b.path@, c.path@) {
            lex_lt_is_transitive(a.path@, b.path@, c.path@);
        }
    }

    proof fn rank_ties_are_transitive(a: &Self, b: &Self, c: &Self) {
        lex_lt_is_total(a.dir_hash@, b.dir_hash@);
        lex_lt_is_total(b.dir_hash@, c.dir_hash@);
        lex_lt_is_total(a.dir_hash@, c.dir_hash@);
        lex_lt_is_total(a.path@, b.path@);
        lex_lt_is_total(b.path@, c.path@);
        lex_lt_is_total(a.path@, c.path@);
    }

    fn compare_rank(&self, other: &Self) -> (r: Ordering) {
        proof {
            lex_lt_is_total(self.dir_hash@, other.dir_hash@);
            lex_lt_is_total(self.path@, other.path@);
        }
        match order_bytes(self.dir_hash.as_slice(), other.dir_hash.as_slice()) {
            Order::Before => Ordering::Less,
            Order::After => Ordering::Greater,
            Order::Same => match order_bytes(self.path.as_slice(), other.path.as_slice()) {
                Order::Before => Ordering::Less,
                Order::After => Ordering::Greater,
                Order::Same => Ordering::Equal,
            },
        }
    }
}

/// The hints of the first `count` rows of a shard, added to a map.
pub open spec fn with_rows(
    map: Map<Seq<u8>, Seq<u32>>,
    shard: u32,
    rows: Seq<RowValue>,
    count: nat,
) -> Map<Seq<u8>, Seq<u32>>
    decreases count,
{
    if count == 0 {
        map
    } else {
        let row = rows[count - 1];
        with_member(
            with_rows(map, shard, rows, (count - 1) as nat),
            shard,
            row.path,
            row.entry_kind,
        )
    }
}

/// The hints of the first `count` groups of rows.
pub open spec fn hints_of_groups(groups: Seq<Seq<RowValue>>, count: nat) -> Map<Seq<u8>, Seq<u32>>
    decreases count,
{
    if count == 0 {
        Map::empty()
    } else {
        with_rows(
            hints_of_groups(groups, (count - 1) as nat),
            (count - 1) as u32,
            groups[count - 1],
            groups[count - 1].len(),
        )
    }
}

/// Whether a list of hints holds exactly those of a map, one for each directory.
pub open spec fn lists_hints<C: ArchiveCodec>(
    codec: &C,
    map: Map<Seq<u8>, Seq<u32>>,
    rows: Seq<HintRow>,
) -> bool {
    &&& forall|i: int|
        0 <= i < rows.len() ==> {
            &&& map.dom().contains((#[trigger] rows[i]).path@)
            &&& rows[i].shard_rows@ == map[rows[i].path@]
            &&& rows[i].dir_hash == codec.path_hash(rows[i].path@)
        }
    &&& forall|i: int, j: int|
        0 <= i < j < rows.len() ==> (#[trigger] rows[i]).path@ != (#[trigger] rows[j]).path@
    &&& forall|dir: Seq<u8>| #[trigger]
        map.dom().contains(dir) ==> exists|i: int|
            0 <= i < rows.len() && (#[trigger] rows[i]).path@ == dir
}

/// Whether a list holds the hints of a map in index order.
pub open spec fn is_hint_index<C: ArchiveCodec>(
    codec: &C,
    map: Map<Seq<u8>, Seq<u32>>,
    rows: Seq<HintRow>,
) -> bool {
    exists|listed: Seq<HintRow>| #[trigger]
        lists_hints(codec, map, listed) && stably_sorted(listed, rows)
}

fn list_hints<C: ArchiveCodec>(codec: &C, map: &ByteMap<Vec<u32>>) -> (r: Vec<HintRow>)
    requires
        map.wf(),
    ensures
        lists_hints(codec, hint_map(*map), r@),
{
    let mut rows: Vec<HintRow> = Vec::new();
    let mut i: usize = 0;
    while i < map.entries().len()
        invariant
            i <= map.items().len(),
            rows@.len() == i,
            forall|k: int|
                0 <= k < i ==> {
                    &&& (#[trigger] rows@[k]).path@ == map.items()[k].0@
                    &&& rows@[k].shard_rows@ == map.items()[k].1@
                    &&& rows@[k].dir_hash == codec.path_hash(map.items()[k].0@)
                },
        decreases map.items().len() - i,
    {
        let entry: &(Vec<u8>, Vec<u32>) = &map.entries()[i];
        rows.push(
            HintRow {
                dir_hash: codec.hash_prefix(entry.0.as_slice()),
                path: to_bytes(entry.0.as_slice()),
                shard_rows: duplicate_numbers(&entry.1),
            },
        );
        i = i + 1;
    }
    proof {
        let m = hint_map(*map);
        assert forall|k: int| 0 <= k < rows@.len() implies {
            &&& m.dom().contains((#[trigger] rows@[k]).path@)
            &&& rows@[k].shard_rows@ == m[rows@[k].path@]
        } by {
            map.place_is_unique(k);
        }
        assert forall|a: int, b: int| 0 <= a < b < rows@.len() implies (#[trigger] rows@[a]).path@
            != (#[trigger] rows@[b]).path@ by {
            assert(lex_lt(map.items()[a].0@, map.items()[b].0@));
            lex_lt_is_total(rows@[a].path@, rows@[b].path@);
        }
        assert forall|dir: Seq<u8>| #[trigger] m.dom().contains(dir) implies exists|k: int|
            0 <= k < rows@.len() && (#[trigger] rows@[k]).path@ == dir by {
            let p = map.place(dir);
            assert(rows@[p].path@ == dir);
        }
    }
    rows
}

// ---------------------------------------------------------------------------------------------
// Tables
// ---------------------------------------------------------------------------------------------

/// A hint table before it is sealed.
#[derive(Debug, Clone, PartialEq, Eq)]
pub struct PlannedDirectoryHintShard {
    pub hint_shard_index: u64,
    pub plaintext: Vec<u8>,
    pub entry_count: u64,
    pub first_dir_hash: [u8; 8],
    pub last_dir_hash: [u8; 8],
}

/// A hint table by content.
pub struct HintShardValue {
    pub hint_shard_index: u64,
    pub plaintext: Seq<u8>,
    pub entry_count: u64,
    pub first_dir_hash: [u8; 8],
    pub last_dir_hash: [u8; 8],
}

impl View for PlannedDirectoryHintShard {
    type V = HintShardValue;

    open spec fn view(&self) -> HintShardValue {
        HintShardValue {
            hint_shard_index: self.hint_shard_index,
            plaintext: self.plaintext@,
            entry_count: self.entry_count,
            first_dir_hash: self.first_dir_hash,
            last_dir_hash: self.last_dir_hash,
        }
    }
}

pub open spec fn hint_shard_values(shards: Seq<PlannedDirectoryHintShard>) -> Seq<HintShardValue> {
    Seq::new(shards.len(), |i: int| shards[i]@)
}

/// The entries of a table, the shard numbers they refer to, and their paths.
pub struct HintTable {
    pub entries: Seq<DirectoryHintEntry>,
    pub numbers: Seq<u32>,
    pub pool: Seq<u8>,
}

/// The table over the first `count` hints, or the first error among them.
pub open spec fn hint_table(rows: Seq<HintValue>, count: nat) -> Result<HintTable, FormatError>
    decreases count,
{
    if count == 0 {
        Ok(HintTable { entries: Seq::empty(), numbers: Seq::empty(), pool: Seq::empty() })
    } else {
        match hint_table(rows, (count - 1) as nat) {
            Err(e) => Err(e),
            Ok(before) => {
                let row = rows[count - 1];
                if before.numbers.len() > u32::MAX {
                    Err(FormatError::WriterUnsupported("DirectoryHintEntry.shard_list_start_index"))
                } else if row.path.len() > u32::MAX {
                    Err(FormatError::WriterUnsupported("DirectoryHintEntry.path_length"))
                } else if row.shard_rows.len() > u32::MAX {
                    Err(FormatError::WriterUnsupported("DirectoryHintEntry.shard_count"))
                } else {
                    Ok(
                        HintTable {
                            entries: before.entries.push(
                                DirectoryHintEntry {
                                    dir_hash: row.dir_hash,
                                    path_offset: if row.path.len() == 0 {
                                        0
                                    } else {
                                        before.pool.len() as u64
                                    },
                                    path_length: row.path.len() as u32,
                                    shard_list_start_index: before.numbers.len() as u32,
                                    shard_count: row.shard_rows.len() as u32,
                                },
                            ),
                            numbers: before.numbers + row.shard_rows,
                            pool: before.pool + row.path,
                        },
                    )
                }
            },
        }
    }
}

proof fn first_hint_error_stays(rows: Seq<HintValue>, count: nat, total: nat)
    requires
        count <= total,
        hint_table(rows, count) is Err,
    ensures
        hint_table(rows, total) == hint_table(rows, count),
    decreases total,
{
    if count < total {
        first_hint_error_stays(rows, count, (total - 1) as nat);
    }
}

pub open spec fn hint_records(entries: Seq<DirectoryHintEntry>) -> Seq<Record> {
    entries.map_values(|e: DirectoryHintEntry| Record::HintEntry(e))
}

/// Numbers as they are written.
pub open spec fn number_bytes(numbers: Seq<u32>) -> Seq<u8>
    decreases numbers.len(),
{
    if numbers.len() == 0 {
        Seq::empty()
    } else {
        number_bytes(numbers.drop_last()) + le_bytes(numbers.last() as int, 4)
    }
}

/// A table as it is written: its header, its entries, the shard numbers and the paths.
pub open spec fn serialized_hints<C: ArchiveCodec>(
    codec: &C,
    hint_shard_index: u64,
    table: HintTable,
) -> Result<Seq<u8>, FormatError> {
    let layout = codec.spec_layout();
    let n = table.entries.len() as int;
    let entry_start = layout.hint_table_header as int;
    let list_start = entry_start + n * layout.hint_entry;
    let pool_start = list_start + table.numbers.len() * 4;
    match table_offset_outcome(n, entry_start) {
        Err(e) => Err(e),
        Ok(entry_offset) => if list_start > usize::MAX {
            Err(FormatError::WriterUnsupported("DirectoryHintTable"))
        } else {
            match table_offset_outcome(table.numbers.len() as int, list_start) {
                Err(e) => Err(e),
                Ok(list_offset) => if pool_start > usize::MAX {
                    Err(FormatError::WriterUnsupported("DirectoryHintTable"))
                } else {
                    Ok(
                        joined_records(
                            codec,
                            seq![Record::HintTableHeader(
                                DirectoryHintTableHeader {
                                    version: 1,
                                    hint_shard_index,
                                    entry_count: n as u64,
                                    entry_table_offset: entry_offset as u64,
                                    shard_list_offset: list_offset as u64,
                                    string_pool_offset: if table.pool.len() == 0 {
                                        0
                                    } else {
                                        pool_start as u64
                                    },
                                    string_pool_size: table.pool.len() as u64,
                                },
                            )] + hint_records(table.entries),
                        ) + number_bytes(table.numbers) + table.pool,
                    )
                },
            }
        },
    }
}

/// `count * len` behind `cursor`, where that can be held.
fn behind_table(cursor: usize, count: usize, len: usize) -> (r: Result<usize, FormatError>)
    ensures
        r == (if cursor + count * len > usize::MAX {
            Err(FormatError::WriterUnsupported("DirectoryHintTable"))
        } else {
            Ok((cursor + count * len) as usize)
        }),
{
    proof {
        assert(count * len >= 0) by (nonlinear_arith);
    }
    match count.checked_mul(len) {
        Some(size) => checked_usize_add(cursor, size, "DirectoryHintTable"),
        None => Err(FormatError::WriterUnsupported("DirectoryHintTable")),
    }
}

pub fn serialize_directory_hint_table<C: ArchiveCodec>(
    codec: &C,
    hint_shard_index: u64,
    entries: &Vec<DirectoryHintEntry>,
    shard_row_indexes: &Vec<u32>,
    string_pool: &[u8],
) -> (r: Result<Vec<u8>, FormatError>)
    ensures
        bytes_agree(
            r,
            serialized_hints(
                codec,
                hint_shard_index,
                HintTable {
                    entries: entries@,
                    numbers: shard_row_indexes@,
                    pool: string_pool@,
                },
            ),
        ),
{
    let layout: WireLayout = codec.layout();
    let header_len: usize = layout.hint_table_header as usize;
    let entry_table_offset: u32 = table_offset(entries.len(), header_len)?;
    let shard_list_cursor: usize = behind_table(
        header_len,
        entries.len(),
        layout.hint_entry as usize,
    )?;
    let shard_list_offset: u32 = table_offset(shard_row_indexes.len(), shard_list_cursor)?;
    let string_pool_cursor: usize = behind_table(shard_list_cursor, shard_row_indexes.len(), 4)?;
    let header: DirectoryHintTableHeader = DirectoryHintTableHeader {
        version: 1,
        hint_shard_index,
        entry_count: entries.len() as u64,
        entry_table_offset: entry_table_offset as u64,
        shard_list_offset: shard_list_offset as u64,
        string_pool_offset: if string_pool.len() == 0 {
            0
        } else {
            string_pool_cursor as u64
        },
        string_pool_size: string_pool.len() as u64,
    };
    let ghost head = seq![Record::HintTableHeader(header)];
    let ghost mut done: Seq<Record> = Seq::empty();
    let mut bytes: Vec<u8> = Vec::new();
    assert(bytes@ =~= joined_records(codec, done));
    append_record(codec, &mut bytes, &Record::HintTableHeader(header), Ghost(done));
    proof {
        done = done.push(Record::HintTableHeader(header));
        assert(done =~= head);
    }
    let mut i: usize = 0;
    assert(done =~= head + hint_records(entries@.take(0)));
    while i < entries.len()
        invariant
            i <= entries@.len(),
            bytes@ == joined_records(codec, done),
            done == head + hint_records(entries@.take(i as int)),
        decreases entries.len() - i,
    {
        append_record(codec, &mut bytes, &Record::HintEntry(entries[i]), Ghost(done));
        proof {
            done = done.push(Record::HintEntry(entries@[i as int]));
            assert(done =~= head + hint_records(entries@.take(i + 1)));
        }
        i = i + 1;
    }
    assert(entries@.take(i as int) =~= entries@);
    let ghost start = bytes@;
    let mut i: usize = 0;
    assert(shard_row_indexes@.take(0) =~= Seq::empty());
    assert(bytes@ =~= start + number_bytes(shard_row_indexes@.take(0)));
    while i < shard_row_indexes.len()
        invariant
            i <= shard_row_indexes@.len(),
            bytes@ == start + number_bytes(shard_row_indexes@.take(i as int)),
        decreases shard_row_indexes.len() - i,
    {
        append_le(&mut bytes, shard_row_indexes[i] as u64, 4);
        proof {
            let numbers = shard_row_indexes@.take(i + 1);
            assert(numbers.drop_last() =~= shard_row_indexes@.take(i as int));
            assert(bytes@ =~= start + number_bytes(numbers));
        }
        i = i + 1;
    }
    assert(shard_row_indexes@.take(i as int) =~= shard_row_indexes@);
    append(&mut bytes, string_pool);
    Ok(bytes)
}

pub open spec fn hint_plaintext<C: ArchiveCodec>(
    codec: &C,
    hint_shard_index: u64,
    rows: Seq<HintValue>,
) -> Result<HintShardValue, FormatError> {
    match hint_table(rows, rows.len()) {
        Err(e) => Err(e),
        Ok(table) => match serialized_hints(codec, hint_shard_index, table) {
            Err(e) => Err(e),
            Ok(plaintext) => if rows.len() == 0 {
                Err(FormatError::WriterInvariant("empty directory hint shard"))
            } else {
                Ok(
                    HintShardValue {
                        hint_shard_index,
                        plaintext,
                        entry_count: rows.len() as u64,
                        first_dir_hash: rows[0].dir_hash,
                        last_dir_hash: rows.last().dir_hash,
                    },
                )
            },
        },
    }
}

fn append_numbers(out: &mut Vec<u32>, numbers: &Vec<u32>)
    ensures
        final(out)@ == old(out)@ + numbers@,
{
    let ghost start = out@;
    let mut i: usize = 0;
    while i < numbers.len()
        invariant
            i <= numbers@.len(),
            out@ =~= start + numbers@.take(i as int),
        decreases numbers.len() - i,
    {
        out.push(numbers[i]);
        i = i + 1;
    }
    assert(numbers@.take(i as int) =~= numbers@);
}

#[verifier::loop_isolation(false)]
pub fn build_directory_hint_plaintext<C: ArchiveCodec>(
    codec: &C,
    hint_shard_index: u64,
    rows: &Vec<HintRow>,
    start: usize,
    end: usize,
) -> (r: Result<PlannedDirectoryHintShard, FormatError>)
    requires
        start <= end <= rows@.len(),
    ensures
        match (
            r,
            hint_plaintext(
                codec,
                hint_shard_index,
                hint_values(rows@).subrange(start as int, end as int),
            ),
        ) {
            (Ok(v), Ok(w)) => v@ == w,
            (Err(e), Err(f)) => e == f,
            _ => false,
        },
{
    let ghost all = hint_values(rows@).subrange(start as int, end as int);
    let mut entries: Vec<DirectoryHintEntry> = Vec::new();
    let mut shard_row_indexes: Vec<u32> = Vec::new();
    let mut string_pool: Vec<u8> = Vec::new();
    assert(entries@ =~= Seq::empty());
    assert(shard_row_indexes@ =~= Seq::empty());
    assert(string_pool@ =~= Seq::empty());
    let mut i: usize = start;
    while i < end
        invariant
            start <= i <= end,
            hint_table(all, (i - start) as nat) == Ok::<HintTable, FormatError>(
                HintTable {
                    entries: entries@,
                    numbers: shard_row_indexes@,
                    pool: string_pool@,
                },
            ),
        decreases end - i,
    {
        let row: &HintRow = &rows[i];
        proof {
            assert(all[i - start] == row@);
            if hint_table(all, (i - start + 1) as nat) is Err {
                first_hint_error_stays(all, (i - start + 1) as nat, (end - start) as nat);
            }
        }
        let path_offset: u64 = if row.path.len() == 0 {
            0
        } else {
            string_pool.len() as u64
        };
        append(&mut string_pool, row.path.as_slice());
        let shard_list_start_index: u32 = u32_len(
            shard_row_indexes.len(),
            "DirectoryHintEntry.shard_list_start_index",
        )?;
        append_numbers(&mut shard_row_indexes, &row.shard_rows);
        entries.push(
            DirectoryHintEntry {
                dir_hash: row.dir_hash,
                path_offset,
                path_length: u32_len(row.path.len(), "DirectoryHintEntry.path_length")?,
                shard_list_start_index,
                shard_count: u32_len(row.shard_rows.len(), "DirectoryHintEntry.shard_count")?,
            },
        );
        i = i + 1;
    }
    let plaintext: Vec<u8> = serialize_directory_hint_table(
        codec,
        hint_shard_index,
        &entries,
        &shard_row_indexes,
        string_pool.as_slice(),
    )?;
    if start == end {
        return Err(FormatError::WriterInvariant("empty directory hint shard"));
    }
    Ok(
        PlannedDirectoryHintShard {
            hint_shard_index,
            plaintext,
            entry_count: (end - start) as u64,
            first_dir_hash: rows[start].dir_hash,
            last_dir_hash: rows[end - 1].dir_hash,
        },
    )
}

/// The tables over given hints: one if it fits its class, else those of two halves.
pub open spec fn hint_shards_for_rows<C: ArchiveCodec>(
    codec: &C,
    first_index: nat,
    rows: Seq<HintValue>,
    o: WriterOptions,
) -> Result<Seq<HintShardValue>, FormatError>
    decreases rows.len(),
{
    match hint_plaintext(codec, first_index as u64, rows) {
        Err(e) => Err(e),
        Ok(candidate) => match codec.compressed(candidate.plaintext, o.zstd_level, None, o.jobs) {
            Err(e) => Err(e),
            Ok(compressed) => match index_fit(compressed.len() as int, o) {
                Err(e) => Err(e),
                Ok(true) => Ok(seq![candidate]),
                Ok(false) => if rows.len() <= 1 {
                    Err(
                        FormatError::WriterUnsupported(
                            "single DirectoryHintEntry exceeds index object limits",
                        ),
                    )
                } else {
                    let half = rows.len() as int / 2;
                    match hint_shards_for_rows(codec, first_index, rows.take(half), o) {
                        Err(e) => Err(e),
                        Ok(left) => match hint_shards_for_rows(
                            codec,
                            first_index + left.len(),
                            rows.skip(half),
                            o,
                        ) {
                            Err(e) => Err(e),
                            Ok(right) => Ok(left + right),
                        },
                    }
                },
            },
        },
    }
}

pub fn append_directory_hint_shards_for_rows<C: ArchiveCodec>(
    codec: &C,
    planned: &mut Vec<PlannedDirectoryHintShard>,
    rows: &Vec<HintRow>,
    start: usize,
    end: usize,
    options: WriterOptions,
) -> (r: Result<(), FormatError>)
    requires
        options.block_size > 0,
        start <= end <= rows@.len(),
    ensures
        match (
            r,
            hint_shards_for_rows(
                codec,
                old(planned)@.len(),
                hint_values(rows@).subrange(start as int, end as int),
                options,
            ),
        ) {
            (Ok(_), Ok(added)) => hint_shard_values(final(planned)@) == hint_shard_values(
                old(planned)@,
            ) + added,
            (Err(e), Err(f)) => e == f,
            _ => false,
        },
    decreases end - start,
{
    let ghost values = hint_values(rows@);
    let ghost all = values.subrange(start as int, end as int);
    let ghost begun = hint_shard_values(planned@);
    let hint_shard_index: u64 = planned.len() as u64;
    let candidate: PlannedDirectoryHintShard = build_directory_hint_plaintext(
        codec,
        hint_shard_index,
        rows,
        start,
        end,
    )?;
    let compressed: Vec<u8> = codec.compress(
        candidate.plaintext.as_slice(),
        options.zstd_level,
        None,
        options.jobs,
    )?;
    if index_object_can_fit(compressed.len(), options)? {
        planned.push(candidate);
        assert(hint_shard_values(planned@) =~= begun + seq![candidate@]);
        return Ok(());
    }
    if end - start <= 1 {
        return Err(
            FormatError::WriterUnsupported("single DirectoryHintEntry exceeds index object limits"),
        );
    }
    let split_at: usize = start + (end - start) / 2;
    proof {
        let half = all.len() as int / 2;
        assert(all.take(half) =~= values.subrange(start as int, split_at as int));
        assert(all.skip(half) =~= values.subrange(split_at as int, end as int));
    }
    append_directory_hint_shards_for_rows(codec, planned, rows, start, split_at, options)?;
    let ghost middle = hint_shard_values(planned@);
    let ghost left = hint_shards_for_rows(
        codec,
        begun.len(),
        all.take(all.len() as int / 2),
        options,
    )->Ok_0;
    proof {
        assert(middle == begun + left);
        assert(planned@.len() == begun.len() + left.len());
    }
    append_directory_hint_shards_for_rows(codec, planned, rows, split_at, end, options)?;
    proof {
        let half = all.len() as int / 2;
        let right = hint_shards_for_rows(
            codec,
            (begun.len() + left.len()) as nat,
            all.skip(half),
            options,
        )->Ok_0;
        assert(begun + (left + right) =~= middle + right);
    }
    Ok(())
}

/// The tables over hints from `start` on, cut into groups of the regular size.
pub open spec fn hint_shards_from<C: ArchiveCodec>(
    codec: &C,
    first_index: nat,
    rows: Seq<HintValue>,
    o: WriterOptions,
) -> Result<Seq<HintShardValue>, FormatError>
    decreases rows.len(),
{
    if rows.len() == 0 {
        Ok(Seq::empty())
    } else {
        let n = if rows.len() < DEFAULT_DIRECTORY_HINT_ENTRIES_PER_SHARD {
            rows.len() as int
        } else {
            DEFAULT_DIRECTORY_HINT_ENTRIES_PER_SHARD as int
        };
        match hint_shards_for_rows(codec, first_index, rows.take(n), o) {
            Err(e) => Err(e),
            Ok(head) => match hint_shards_from(codec, first_index + head.len(), rows.skip(n), o) {
                Err(e) => Err(e),
                Ok(tail) => Ok(head + tail),
            },
        }
    }
}

pub open spec fn hint_shards_agree(
    r: Result<Vec<PlannedDirectoryHintShard>, FormatError>,
    s: Result<Seq<HintShardValue>, FormatError>,
) -> bool {
    match (r, s) {
        (Ok(v), Ok(w)) => hint_shard_values(v@) == w,
        (Err(e), Err(f)) => e == f,
        _ => false,
    }
}

/// Collects the hints of all rows.
fn collect_hints(shard_rows: &Vec<Vec<FileRow>>) -> (r: Result<ByteMap<Vec<u32>>, FormatError>)
    ensures
        match r {
            Ok(map) => shard_rows@.len() <= u32::MAX + 1 && map.wf() && hint_map(map)
                == hints_of_groups(shard_row_values(shard_rows@), shard_rows@.len()),
            Err(e) => shard_rows@.len() > u32::MAX + 1 && e == FormatError::WriterUnsupported(
                "directory hint shard row index",
            ),
        },
{
    let ghost groups = shard_row_values(shard_rows@);
    let mut map: ByteMap<Vec<u32>> = ByteMap::new();
    proof {
        assert forall|key: Seq<u8>| !map.has(key) by {
            assert(!map.contents().dom().contains(key));
        }
        assert(hint_map(map) =~= Map::<Seq<u8>, Seq<u32>>::empty());
    }
    let mut g: usize = 0;
    while g < shard_rows.len()
        invariant
            g <= shard_rows@.len(),
            g <= u32::MAX + 1,
            groups == shard_row_values(shard_rows@),
            map.wf(),
            hint_map(map) == hints_of_groups(groups, g as nat),
            forall|dir: Seq<u8>| #[trigger]
                hint_map(map).dom().contains(dir) ==> numbers_ascend(hint_map(map)[dir]),
        decreases shard_rows.len() - g,
    {
        if g as u64 > u32::MAX as u64 {
            return Err(FormatError::WriterUnsupported("directory hint shard row index"));
        }
        let shard: u32 = g as u32;
        let rows: &Vec<FileRow> = &shard_rows[g];
        let ghost begun = hint_map(map);
        let mut i: usize = 0;
        while i < rows.len()
            invariant
                i <= rows@.len(),
                map.wf(),
                hint_map(map) == with_rows(begun, shard, row_values(rows@), i as nat),
                forall|dir: Seq<u8>| #[trigger]
                    hint_map(map).dom().contains(dir) ==> numbers_ascend(hint_map(map)[dir]),
            decreases rows.len() - i,
        {
            assert(row_values(rows@)[i as int] == rows@[i as int]@);
            add_directory_hint_rows(&mut map, shard, rows[i].path.as_slice(), rows[i].entry_kind);
            i = i + 1;
        }
        assert(groups[g as int] == row_values(rows@));
        g = g + 1;
    }
    Ok(map)
}

/// The hint tables of an archive.
pub fn build_directory_hint_plaintexts<C: ArchiveCodec>(
    codec: &C,
    shard_rows: &Vec<Vec<FileRow>>,
    options: WriterOptions,
) -> (r: Result<Vec<PlannedDirectoryHintShard>, FormatError>)
    requires
        options.block_size > 0,
    ensures
        shard_rows@.len() > u32::MAX + 1 ==> r == Err::<
            Vec<PlannedDirectoryHintShard>,
            FormatError,
        >(FormatError::WriterUnsupported("directory hint shard row index")),
        shard_rows@.len() <= u32::MAX + 1 ==> exists|rows: Seq<HintRow>| #[trigger]
            is_hint_index(
                codec,
                hints_of_groups(shard_row_values(shard_rows@), shard_rows@.len()),
                rows,
            ) && hint_shards_agree(r, hint_shards_from(codec, 0, hint_values(rows), options)),
{
    let map: ByteMap<Vec<u32>> = collect_hints(shard_rows)?;
    let mut rows: Vec<HintRow> = list_hints(codec, &map);
    let ghost listed = rows@;
    stable_sort(&mut rows);
    let ghost values = hint_values(rows@);
    assert(is_hint_index(codec, hint_map(map), rows@));
    let mut planned: Vec<PlannedDirectoryHintShard> = Vec::new();
    let mut start: usize = 0;
    proof {
        assert(values.skip(0) =~= values);
        assert(hint_shard_values(planned@) =~= Seq::empty());
        if let Ok(tail) = hint_shards_from(codec, 0, values, options) {
            assert(Seq::<HintShardValue>::empty() + tail =~= tail);
        }
    }
    while start < rows.len()
        invariant
            start <= rows@.len(),
            options.block_size > 0,
            values == hint_values(rows@),
            shard_rows@.len() <= u32::MAX + 1,
            is_hint_index(
                codec,
                hints_of_groups(shard_row_values(shard_rows@), shard_rows@.len()),
                rows@,
            ),
            hint_shards_from(codec, 0, values, options) == (match hint_shards_from(
                codec,
                planned@.len(),
                values.skip(start as int),
                options,
            ) {
                Err(e) => Err::<Seq<HintShardValue>, FormatError>(e),
                Ok(tail) => Ok(hint_shard_values(planned@) + tail),
            }),
        decreases rows.len() - start,
    {
        let end: usize = if rows.len() - start < DEFAULT_DIRECTORY_HINT_ENTRIES_PER_SHARD {
            rows.len()
        } else {
            start + DEFAULT_DIRECTORY_HINT_ENTRIES_PER_SHARD
        };
        let ghost rest = values.skip(start as int);
        let ghost before = hint_shard_values(planned@);
        proof {
            assert(rest.take(end - start) =~= values.subrange(start as int, end as int));
            assert(rest.skip(end - start) =~= values.skip(end as int));
        }
        append_directory_hint_shards_for_rows(
            codec,
            &mut planned,
            &rows,
            start,
            end,
            options,
        )?;
        proof {
            let head = hint_shards_for_rows(
                codec,
                before.len(),
                rest.take(end - start),
                options,
            )->Ok_0;
            assert(hint_shard_values(planned@) == before + head);
            if let Ok(tail) = hint_shards_from(
                codec,
                planned@.len(),
                values.skip(end as int),
                options,
            ) {
                assert(before + (head + tail) =~= hint_shard_values(planned@) + tail);
            }
        }
        start = end;
    }
    proof {
        assert(values.skip(start as int) =~= Seq::empty());
        assert(hint_shard_values(planned@) + Seq::<HintShardValue>::empty() =~= hint_shard_values(
            planned@,
        ));
    }
    Ok(planned)
}

// ---------------------------------------------------------------------------------------------
// Laws
// ---------------------------------------------------------------------------------------------

/// Every member is found from the root and from every directory above it: after its row is
/// added, the hint of each such directory names the member's shard.
pub proof fn hints_lead_to_members(
    map: Map<Seq<u8>, Seq<u32>>,
    shard: u32,
    path: Seq<u8>,
    kind: SourceEntryKind,
    dir: Seq<u8>,
)
    requires
        hints_at(path, kind, dir),
        map.dom().contains(dir) ==> numbers_ascend(map[dir]),
    ensures
        with_member(map, shard, path, kind).dom().contains(dir),
        with_member(map, shard, path, kind)[dir].contains(shard),
        numbers_ascend(with_member(map, shard, path, kind)[dir]),
{
    with_number_keeps_order(hint_list(map, dir), shard);
}

} // verus!
