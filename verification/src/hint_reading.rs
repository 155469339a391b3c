//! Reading directory hints: each entry of a table leads to the path of its directory and to the
//! numbers of the shards that list what is below it.
use crate::accounting::keeps_its_layout;
use crate::arith::table_offset_outcome;
use crate::bytes::le_bytes;
use crate::codec::ArchiveCodec;
use crate::header_reading::{le_bytes_read_back, le_value};
use crate::hints::{
    hint_plaintext, hint_records, hint_table, number_bytes, serialized_hints, HintTable, HintValue,
};
use crate::restoration::lies_at;
use crate::shard::joined_records;
use crate::shard_reading::{
    joined_records_begin, lies_in_a_table, tables_end_in_line, tables_lie_in_line,
};
use crate::wire::{DirectoryHintEntry, DirectoryHintTableHeader, Record};
use vstd::arithmetic::power::pow;
use vstd::prelude::*;

verus! {

/// Whether an entry of a table tells of a hint: its hash, its path in the pool, and its numbers in the
/// list.
pub open spec fn hint_tells_of(
    entry: DirectoryHintEntry,
    numbers: Seq<u32>,
    pool: Seq<u8>,
    row: HintValue,
) -> bool {
    let start = entry.shard_list_start_index as int;
    &&& entry.dir_hash == row.dir_hash
    &&& entry.path_length == row.path.len()
    &&& lies_at(pool, entry.path_offset as int, row.path)
    &&& start + entry.shard_count <= numbers.len()
    &&& numbers.subrange(start, start + entry.shard_count) == row.shard_rows
}

/// Whether there is an entry for each hint, in order.
pub open spec fn hints_are_listed(
    entries: Seq<DirectoryHintEntry>,
    numbers: Seq<u32>,
    pool: Seq<u8>,
    rows: Seq<HintValue>,
) -> bool {
    &&& entries.len() == rows.len()
    &&& forall|i: int|
        0 <= i < rows.len() ==> hint_tells_of(#[trigger] entries[i], numbers, pool, rows[i])
}

proof fn entries_tell_of_hints(rows: Seq<HintValue>, count: nat)
    requires
        count <= rows.len(),
    ensures
        hint_table(rows, count) matches Ok(t) ==> {
            &&& t.entries.len() == count
            &&& (t.pool.len() <= u64::MAX ==> forall|i: int|
                0 <= i < count ==> hint_tells_of(
                    #[trigger] t.entries[i],
                    t.numbers,
                    t.pool,
                    rows[i],
                ))
        },
    decreases count,
{
    if count > 0 {
        if let Ok(t) = hint_table(rows, count) {
            let m = (count - 1) as nat;
            entries_tell_of_hints(rows, m);
            let before = hint_table(rows, m)->Ok_0;
            let row = rows[count - 1];
            if t.pool.len() <= u64::MAX {
                assert forall|i: int| 0 <= i < count implies hint_tells_of(
                    #[trigger] t.entries[i],
                    t.numbers,
                    t.pool,
                    rows[i],
                ) by {
                    let e = t.entries[i];
                    let start = e.shard_list_start_index as int;
                    let at = e.path_offset as int;
                    if i < m {
                        assert(e == before.entries[i]);
                        assert(hint_tells_of(e, before.numbers, before.pool, rows[i]));
                        assert(t.numbers.subrange(start, start + e.shard_count)
                            =~= before.numbers.subrange(start, start + e.shard_count));
                        assert(t.pool.subrange(at, at + rows[i].path.len())
                            =~= before.pool.subrange(at, at + rows[i].path.len()));
                    } else {
                        assert(t.numbers.subrange(start, start + e.shard_count) =~= row.shard_rows);
                        assert(t.pool.subrange(at, at + row.path.len()) =~= row.path);
                    }
                }
            }
        }
    }
}

/// The number at a place of a list.
pub open spec fn listed_number(bytes: Seq<u8>, offset: int, i: int) -> int {
    le_value(bytes.subrange(offset + 4 * i, offset + 4 * i + 4))
}

proof fn numbers_are_read(numbers: Seq<u32>)
    ensures
        number_bytes(numbers).len() == 4 * numbers.len(),
        forall|i: int|
            0 <= i < numbers.len() ==> listed_number(number_bytes(numbers), 0, i)
                == #[trigger] numbers[i],
    decreases numbers.len(),
{
    if numbers.len() > 0 {
        let less = numbers.drop_last();
        numbers_are_read(less);
        reveal_with_fuel(pow, 5);
        le_bytes_read_back(numbers.last() as int, 4);
        let bytes = number_bytes(numbers);
        assert forall|i: int| 0 <= i < numbers.len() implies listed_number(bytes, 0, i)
            == #[trigger] numbers[i] by {
            if i < less.len() {
                assert(less[i] == numbers[i]);
                assert(bytes.subrange(4 * i, 4 * i + 4) =~= number_bytes(less).subrange(
                    4 * i,
                    4 * i + 4,
                ));
            } else {
                assert(bytes.subrange(4 * i, 4 * i + 4) =~= le_bytes(numbers.last() as int, 4));
            }
        }
    }
}

/// Whether the bytes of a hint table lead to its parts: the header in front, and by it the entries,
/// the list of numbers and the pool of paths.
#[verifier::opaque]
pub open spec fn hint_table_leads_on<C: ArchiveCodec>(
    codec: &C,
    bytes: Seq<u8>,
    header: DirectoryHintTableHeader,
    entries: Seq<DirectoryHintEntry>,
    numbers: Seq<u32>,
    pool: Seq<u8>,
) -> bool {
    &&& lies_at(bytes, 0, codec.encoded(Record::HintTableHeader(header)))
    &&& header.version == 1
    &&& header.entry_count == entries.len()
    &&& header.entry_table_offset <= u32::MAX
    &&& lies_in_a_table(
        codec,
        bytes,
        header.entry_table_offset as u32,
        codec.spec_layout().hint_entry,
        hint_records(entries),
    )
    &&& forall|i: int|
        0 <= i < numbers.len() ==> {
            &&& header.shard_list_offset + 4 * i + 4 <= bytes.len()
            &&& listed_number(bytes, header.shard_list_offset as int, i) == #[trigger] numbers[i]
        }
    &&& header.string_pool_size == pool.len()
    &&& pool.len() > 0 ==> lies_at(bytes, header.string_pool_offset as int, pool)
}

proof fn serialized_hints_lead_on<C: ArchiveCodec>(
    codec: &C,
    hint_shard_index: u64,
    table: HintTable,
)
    requires
        keeps_its_layout(codec),
        table.entries.len() <= u64::MAX,
        table.pool.len() <= u64::MAX,
    ensures
        serialized_hints(codec, hint_shard_index, table) matches Ok(bytes) ==> exists|
            header: DirectoryHintTableHeader,
        |
            {
                &&& header.hint_shard_index == hint_shard_index
                &&& #[trigger] hint_table_leads_on(
                    codec,
                    bytes,
                    header,
                    table.entries,
                    table.numbers,
                    table.pool,
                )
            },
{
    if let Ok(bytes) = serialized_hints(codec, hint_shard_index, table) {
        reveal(hint_table_leads_on);
        let layout = codec.spec_layout();
        let n = table.entries.len() as int;
        let len = layout.hint_entry;
        let entry_start = layout.hint_table_header as int;
        let list_start = entry_start + n * len;
        let pool_start = list_start + table.numbers.len() * 4;
        let entry_offset = table_offset_outcome(n, entry_start)->Ok_0;
        let list_offset = table_offset_outcome(table.numbers.len() as int, list_start)->Ok_0;
        let header = DirectoryHintTableHeader {
            version: 1,
            hint_shard_index,
            entry_count: n as u64,
            entry_table_offset: entry_offset as u64,
            shard_list_offset: list_offset as u64,
            string_pool_offset: if table.pool.len() == 0 {
                0
            } else {
                pool_start as u64
            },
            string_pool_size: table.pool.len() as u64,
        };
        let own = hint_records(table.entries);
        let records = seq![Record::HintTableHeader(header)] + own;
        let lead = joined_records(codec, records);
        let list = number_bytes(table.numbers);
        let rest = list + table.pool;
        assert(bytes =~= lead + rest);
        let first = records.take(1);
        assert(first.last() == Record::HintTableHeader(header));
        assert(first.drop_last() =~= Seq::<Record>::empty());
        reveal_with_fuel(joined_records, 2);
        assert(joined_records(codec, first) =~= codec.encoded(Record::HintTableHeader(header)));
        assert(joined_records(codec, first).len() == entry_start);
        joined_records_begin(codec, records, 1);
        assert(bytes.subrange(0, entry_start) =~= lead.take(entry_start));
        tables_lie_in_line(codec, records, 1, len, entry_offset, rest, own);
        tables_end_in_line(codec, records, 1, len, entry_start, n);
        assert(records.take(1 + n) =~= records);
        assert(lead.len() == list_start);
        numbers_are_read(table.numbers);
        assert forall|i: int| 0 <= i < table.numbers.len() implies {
            &&& header.shard_list_offset + 4 * i + 4 <= bytes.len()
            &&& listed_number(bytes, header.shard_list_offset as int, i)
                == #[trigger] table.numbers[i]
        } by {
            assert(bytes.subrange(list_start + 4 * i, list_start + 4 * i + 4) =~= list.subrange(
                4 * i,
                4 * i + 4,
            ));
        }
        assert(bytes.subrange(pool_start, pool_start + table.pool.len()) =~= table.pool);
        assert(hint_table_leads_on(
            codec,
            bytes,
            header,
            table.entries,
            table.numbers,
            table.pool,
        ));
    }
}

/// A table of directory hints is read back: its header leads to an entry for each hint, in order, and
/// each entry to the path of the directory and to the numbers of its shards; and what stands for the
/// table elsewhere tells its number, how many hints it holds, and the first and the last hash.
pub proof fn hint_tables_tell_of_their_hints<C: ArchiveCodec>(
    codec: &C,
    hint_shard_index: u64,
    rows: Seq<HintValue>,
)
    requires
        keeps_its_layout(codec),
        rows.len() <= u64::MAX,
        hint_table(rows, rows.len()) matches Ok(t) ==> t.pool.len() <= u64::MAX,
    ensures
        hint_plaintext(codec, hint_shard_index, rows) matches Ok(shard) ==> {
            &&& shard.hint_shard_index == hint_shard_index
            &&& shard.entry_count == rows.len() > 0
            &&& exists|
                header: DirectoryHintTableHeader,
                entries: Seq<DirectoryHintEntry>,
                numbers: Seq<u32>,
                pool: Seq<u8>,
            |
                {
                    &&& header.hint_shard_index == hint_shard_index
                    &&& #[trigger] hint_table_leads_on(
                        codec,
                        shard.plaintext,
                        header,
                        entries,
                        numbers,
                        pool,
                    )
                    &&& hints_are_listed(entries, numbers, pool, rows)
                    &&& shard.first_dir_hash == entries[0].dir_hash
                    &&& shard.last_dir_hash == entries.last().dir_hash
                }
        },
{
    if let Ok(shard) = hint_plaintext(codec, hint_shard_index, rows) {
        entries_tell_of_hints(rows, rows.len());
        let t = hint_table(rows, rows.len())->Ok_0;
        serialized_hints_lead_on(codec, hint_shard_index, t);
        let header = choose|header: DirectoryHintTableHeader|
            {
                &&& header.hint_shard_index == hint_shard_index
                &&& #[trigger] hint_table_leads_on(
                    codec,
                    shard.plaintext,
                    header,
                    t.entries,
                    t.numbers,
                    t.pool,
                )
            };
        assert(hints_are_listed(t.entries, t.numbers, t.pool, rows));
        assert(hint_tells_of(t.entries[0], t.numbers, t.pool, rows[0]));
        assert(hint_tells_of(t.entries.last(), t.numbers, t.pool, rows.last()));
    }
}

} // verus!
