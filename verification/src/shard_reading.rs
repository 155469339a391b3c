//! Reading the index: its entries tell of the members, and its tables are found by its headers.
use crate::accounting::keeps_its_layout;
use crate::codec::ArchiveCodec;
use crate::entry_flags::entry_flags;
use crate::errors::FormatError;
use crate::profile::MetadataProfile;
use crate::root_auth::PayloadObject;
use crate::rows::{row_of, rows_name_members, MemberValue, RowValue};
use crate::shard::{
    envelope_records, envelope_table, file_records, file_table, frame_records, frame_table,
    frames_of_envelope, frames_of_member, joined_records, pooled, required_envelopes,
    required_frames, serialized_shard, shard_plaintext, wanted_payloads, FileTable, IndexShardValue,
    PayloadFrame,
};
use crate::wire::{EnvelopeEntry, FileEntry, FrameEntry, IndexShardHeader, Record};
use vstd::prelude::*;

verus! {

// ---------------------------------------------------------------------------------------------
// File entries
// ---------------------------------------------------------------------------------------------

/// A text in a pool.
pub open spec fn pool_text(pool: Seq<u8>, offset: u32, length: u32) -> Seq<u8> {
    pool.subrange(offset as int, offset + length)
}

/// Whether a text lies in a pool where it is said to.
pub open spec fn is_in_pool(pool: Seq<u8>, offset: u32, length: u32, text: Seq<u8>) -> bool {
    offset + length <= pool.len() && pool_text(pool, offset, length) == text
}

/// A text, or an empty one.
pub open spec fn text_or_empty(text: Option<Seq<u8>>) -> Seq<u8> {
    match text {
        Some(t) => t,
        None => Seq::empty(),
    }
}

/// Whether a file entry tells of a member: its path, its frames, its size, mode, times, owner, link,
/// kind and flags, and which of its optional facts there are.
pub open spec fn entry_tells_of<C: ArchiveCodec + MetadataProfile>(
    codec: &C,
    entry: FileEntry,
    pool: Seq<u8>,
    member: MemberValue,
    own: Seq<PayloadFrame>,
) -> bool {
    let v = member.primary;
    let m = v.metadata;
    &&& is_in_pool(pool, entry.path_offset, entry.path_length, v.path)
    &&& entry.path_hash == codec.path_hash(v.path)
    &&& own.len() > 0
    &&& entry.first_frame_index == own[0].frame_index
    &&& entry.frame_count == own.len()
    &&& entry.offset_in_first_frame_plaintext == 0
    &&& entry.tar_member_group_size == member.tar_member_group_size
    &&& entry.file_data_size == v.file_size
    &&& entry.mode == v.mode
    &&& entry.mtime_sec == v.mtime.seconds
    &&& entry.mtime_nsec == v.mtime.nanoseconds
    &&& entry.kind == codec.kind_code(v.entry_kind.spec_tar_kind())
    &&& entry.flags == entry_flags(codec, v.mode, v.sparse_extents is Some, m)
    &&& entry.metadata_flags < 8
    &&& m.created is Some <==> entry.metadata_flags % 2 == 1
    &&& m.accessed is Some <==> (entry.metadata_flags / 2) % 2 == 1
    &&& m.attributes is Some <==> entry.metadata_flags >= 4
    &&& m.created matches Some(t) ==> entry.created_sec == t.seconds && entry.created_nsec
        == t.nanoseconds
    &&& m.accessed matches Some(t) ==> entry.accessed_sec == t.seconds && entry.accessed_nsec
        == t.nanoseconds
    &&& m.attributes matches Some(a) ==> entry.attributes == a
    &&& is_in_pool(
        pool,
        entry.link_target_offset,
        entry.link_target_length,
        text_or_empty(v.link_target),
    )
    &&& match m.posix_owner {
        Some(o) => {
            &&& entry.uid == o.uid
            &&& entry.gid == o.gid
            &&& is_in_pool(
                pool,
                entry.uname_offset,
                entry.uname_length,
                text_or_empty(crate::shard::name_bytes(o.uname)),
            )
            &&& is_in_pool(
                pool,
                entry.gname_offset,
                entry.gname_length,
                text_or_empty(crate::shard::name_bytes(o.gname)),
            )
        },
        None => entry.uid == u64::MAX && entry.gid == u64::MAX && entry.uname_length == 0
            && entry.gname_length == 0,
    }
}

proof fn pools_keep_texts(pool: Seq<u8>, more: Seq<u8>, offset: u32, length: u32, text: Seq<u8>)
    requires
        is_in_pool(pool, offset, length, text),
    ensures
        is_in_pool(pool + more, offset, length, text),
{
    assert(pool_text(pool + more, offset, length) =~= pool_text(pool, offset, length));
}

proof fn entries_keep_telling<C: ArchiveCodec + MetadataProfile>(
    codec: &C,
    entry: FileEntry,
    pool: Seq<u8>,
    more: Seq<u8>,
    member: MemberValue,
    own: Seq<PayloadFrame>,
)
    requires
        entry_tells_of(codec, entry, pool, member, own),
    ensures
        entry_tells_of(codec, entry, pool + more, member, own),
{
    let v = member.primary;
    pools_keep_texts(pool, more, entry.path_offset, entry.path_length, v.path);
    pools_keep_texts(
        pool,
        more,
        entry.link_target_offset,
        entry.link_target_length,
        text_or_empty(v.link_target),
    );
    if let Some(o) = v.metadata.posix_owner {
        pools_keep_texts(
            pool,
            more,
            entry.uname_offset,
            entry.uname_length,
            text_or_empty(crate::shard::name_bytes(o.uname)),
        );
        pools_keep_texts(
            pool,
            more,
            entry.gname_offset,
            entry.gname_length,
            text_or_empty(crate::shard::name_bytes(o.gname)),
        );
    }
}

proof fn pooled_texts_are_there(pool: Seq<u8>, text: Option<Seq<u8>>)
    ensures
        pooled(pool, text) matches Ok(p) ==> {
            &&& pool.len() <= p.pool.len()
            &&& p.pool == pool + p.pool.skip(pool.len() as int)
            &&& is_in_pool(p.pool, p.offset, p.length, text_or_empty(text))
            &&& text is None ==> p.length == 0
        },
{
    if let Ok(p) = pooled(pool, text) {
        assert(p.pool =~= pool + p.pool.skip(pool.len() as int));
        assert(pool_text(p.pool, p.offset, p.length) =~= text_or_empty(text));
    }
}

#[verifier::rlimit(40)]
proof fn row_entries_tell<C: ArchiveCodec + MetadataProfile>(
    codec: &C,
    member: MemberValue,
    frames: Seq<PayloadFrame>,
    row: RowValue,
    pool: Seq<u8>,
)
    requires
        row == row_of(codec, member, row.member_index),
    ensures
        crate::shard::row_entry_outcome(codec, member, frames, row, pool) matches Ok(added) ==> {
            &&& added.pool == pool + added.pool.skip(pool.len() as int)
            &&& entry_tells_of(
                codec,
                added.entry,
                added.pool,
                member,
                frames_of_member(frames, row.member_index),
            )
        },
{
    if let Ok(added) = crate::shard::row_entry_outcome(codec, member, frames, row, pool) {
        let m = member.primary.metadata;
        let named = pool + row.path;
        let uname = pooled(named, crate::shard::owner_name(m, true))->Ok_0;
        let gname = pooled(uname.pool, crate::shard::owner_name(m, false))->Ok_0;
        let link = pooled(gname.pool, member.primary.link_target)->Ok_0;
        pooled_texts_are_there(named, crate::shard::owner_name(m, true));
        pooled_texts_are_there(uname.pool, crate::shard::owner_name(m, false));
        pooled_texts_are_there(gname.pool, member.primary.link_target);
        let e = added.entry;
        assert(pool_text(named, e.path_offset, e.path_length) =~= row.path);
        let a = uname.pool.skip(named.len() as int);
        let b = gname.pool.skip(uname.pool.len() as int);
        let c = link.pool.skip(gname.pool.len() as int);
        pools_keep_texts(named, a, e.path_offset, e.path_length, row.path);
        pools_keep_texts(uname.pool, b, e.path_offset, e.path_length, row.path);
        pools_keep_texts(gname.pool, c, e.path_offset, e.path_length, row.path);
        let u = text_or_empty(crate::shard::owner_name(m, true));
        let g = text_or_empty(crate::shard::owner_name(m, false));
        pools_keep_texts(uname.pool, b, e.uname_offset, e.uname_length, u);
        pools_keep_texts(gname.pool, c, e.uname_offset, e.uname_length, u);
        pools_keep_texts(gname.pool, c, e.gname_offset, e.gname_length, g);
        assert(added.pool =~= pool + added.pool.skip(pool.len() as int));
    }
}

/// Every row has an entry that tells of its member, in the order of the rows.
pub proof fn file_tables_tell_of_members<C: ArchiveCodec + MetadataProfile>(
    codec: &C,
    members: Seq<MemberValue>,
    frames: Seq<PayloadFrame>,
    rows: Seq<RowValue>,
    count: nat,
)
    requires
        count <= rows.len(),
        rows_name_members(codec, members, rows),
    ensures
        file_table(codec, members, frames, rows, count) matches Ok(table) ==> {
            &&& table.entries.len() == count
            &&& forall|i: int|
                0 <= i < count ==> entry_tells_of(
                    codec,
                    #[trigger] table.entries[i],
                    table.pool,
                    members[rows[i].member_index as int],
                    frames_of_member(frames, rows[i].member_index),
                )
        },
    decreases count,
{
    if count > 0 {
        let n = (count - 1) as nat;
        file_tables_tell_of_members(codec, members, frames, rows, n);
        if let Ok(table) = file_table(codec, members, frames, rows, count) {
            let before = file_table(codec, members, frames, rows, n)->Ok_0;
            let row = rows[n as int];
            row_entries_tell(
                codec,
                members[row.member_index as int],
                frames,
                row,
                before.pool,
            );
            let more = table.pool.skip(before.pool.len() as int);
            assert forall|i: int| 0 <= i < count implies entry_tells_of(
                codec,
                #[trigger] table.entries[i],
                table.pool,
                members[rows[i].member_index as int],
                frames_of_member(frames, rows[i].member_index),
            ) by {
                if i < n {
                    assert(table.entries[i] == before.entries[i]);
                    entries_keep_telling(
                        codec,
                        before.entries[i],
                        before.pool,
                        more,
                        members[rows[i].member_index as int],
                        frames_of_member(frames, rows[i].member_index),
                    );
                }
            }
        }
    }
}

// ---------------------------------------------------------------------------------------------
// Frame and envelope entries
// ---------------------------------------------------------------------------------------------

/// Whether a frame entry tells of a frame.
pub open spec fn tells_of_frame(entry: FrameEntry, frame: PayloadFrame) -> bool {
    &&& entry.frame_index == frame.frame_index
    &&& entry.envelope_index == frame.envelope_index
    &&& entry.offset_in_envelope == frame.offset_in_envelope
    &&& entry.compressed_size == frame.compressed_size
    &&& entry.decompressed_size == frame.decompressed_size
    &&& entry.flags == frame.flags
    &&& entry.tar_stream_offset == frame.tar_stream_offset
}

/// Whether an envelope entry tells of an envelope and of the frames in it.
pub open spec fn tells_of_envelope(
    entry: EnvelopeEntry,
    payload: PayloadObject,
    own: Seq<PayloadFrame>,
) -> bool {
    &&& entry.envelope_index == payload.envelope_index
    &&& entry.first_block_index == payload.object.first_block_index
    &&& entry.data_block_count == payload.object.data_block_count
    &&& entry.parity_block_count == payload.object.parity_block_count
    &&& entry.encrypted_size == payload.object.encrypted_size
    &&& entry.plaintext_size == payload.plaintext_size
    &&& own.len() > 0
    &&& entry.first_frame_index == own[0].frame_index
    &&& entry.frame_count == own.len()
}

/// Whether the tables of a shard lead from its files to the blocks: every frame that a file entry
/// names has an entry that tells of it, and every envelope that such a frame lies in has one too.
pub open spec fn tables_lead_on(
    files: Seq<FileEntry>,
    frame_entries: Seq<FrameEntry>,
    envelopes: Seq<EnvelopeEntry>,
    frames: Seq<PayloadFrame>,
    payloads: Seq<PayloadObject>,
) -> bool {
    &&& forall|i: int, k: int|
        #![trigger files[i], frames[k]]
        0 <= i < files.len() && 0 <= k < frames.len() && files[i].first_frame_index
            <= frames[k].frame_index < files[i].first_frame_index + files[i].frame_count
            ==> exists|j: int|
            0 <= j < frame_entries.len() && tells_of_frame(#[trigger] frame_entries[j], frames[k])
    &&& forall|j: int|
        0 <= j < frame_entries.len() ==> exists|k: int|
            0 <= k < frames.len() && tells_of_frame(
                #[trigger] frame_entries[j],
                #[trigger] frames[k],
            )
    &&& forall|j: int, k: int|
        #![trigger frame_entries[j], payloads[k]]
        0 <= j < frame_entries.len() && 0 <= k < payloads.len() && payloads[k].envelope_index
            == frame_entries[j].envelope_index ==> exists|e: int|
            0 <= e < envelopes.len() && tells_of_envelope(
                #[trigger] envelopes[e],
                payloads[k],
                frames_of_envelope(frames, payloads[k].envelope_index),
            )
}

proof fn filters_keep_what_they_should<T>(s: Seq<T>, keep: spec_fn(T) -> bool, x: T)
    ensures
        s.filter(keep).contains(x) <==> s.contains(x) && keep(x),
    decreases s.len(),
{
    reveal(Seq::filter);
    if s.len() > 0 {
        let rest = s.drop_last();
        filters_keep_what_they_should(rest, keep, x);
        let less = rest.filter(keep);
        let all = s.filter(keep);
        if all.contains(x) {
            let i = choose|i: int| 0 <= i < all.len() && all[i] == x;
            if i < less.len() {
                assert(less[i] == x);
                let k = choose|k: int| 0 <= k < rest.len() && rest[k] == x;
                assert(s[k] == x);
            } else {
                assert(s[s.len() - 1] == x);
            }
        }
        if s.contains(x) && keep(x) {
            let k = choose|k: int| 0 <= k < s.len() && s[k] == x;
            if k < rest.len() {
                assert(rest[k] == x);
                let i = choose|i: int| 0 <= i < less.len() && less[i] == x;
                assert(all[i] == x);
            } else {
                assert(all[all.len() - 1] == x);
            }
        }
    }
}

proof fn envelope_tables_tell(frames: Seq<PayloadFrame>, payloads: Seq<PayloadObject>)
    ensures
        envelope_table(frames, payloads) matches Ok(entries) ==> {
            &&& entries.len() == payloads.len()
            &&& forall|i: int|
                0 <= i < entries.len() ==> tells_of_envelope(
                    #[trigger] entries[i],
                    payloads[i],
                    frames_of_envelope(frames, payloads[i].envelope_index),
                )
        },
    decreases payloads.len(),
{
    if payloads.len() > 0 {
        envelope_tables_tell(frames, payloads.drop_last());
        if let Ok(entries) = envelope_table(frames, payloads) {
            let before = envelope_table(frames, payloads.drop_last())->Ok_0;
            assert forall|i: int| 0 <= i < entries.len() implies tells_of_envelope(
                #[trigger] entries[i],
                payloads[i],
                frames_of_envelope(frames, payloads[i].envelope_index),
            ) by {
                if i < before.len() {
                    assert(entries[i] == before[i]);
                    assert(payloads.drop_last()[i] == payloads[i]);
                }
            }
        }
    }
}

/// The tables of a shard lead from its files to the blocks.
pub proof fn tables_of_shards_lead_on(
    files: Seq<FileEntry>,
    frames: Seq<PayloadFrame>,
    payloads: Seq<PayloadObject>,
)
    ensures
        ({
            let entries = frame_table(frames, required_frames(files));
            envelope_table(frames, wanted_payloads(payloads, required_envelopes(entries)))
                matches Ok(envelopes) ==> tables_lead_on(
                files,
                entries,
                envelopes,
                frames,
                payloads,
            )
        }),
{
    let required = required_frames(files);
    let keep = |f: PayloadFrame| required.contains(f.frame_index);
    let kept = frames.filter(keep);
    let entries = frame_table(frames, required);
    let wanted = required_envelopes(entries);
    let want = |p: PayloadObject| wanted.contains(p.envelope_index);
    let listed = wanted_payloads(payloads, wanted);
    if let Ok(envelopes) = envelope_table(frames, listed) {
        envelope_tables_tell(frames, listed);
        assert forall|i: int, k: int|
            #![trigger files[i], frames[k]]
            0 <= i < files.len() && 0 <= k < frames.len() && files[i].first_frame_index
                <= frames[k].frame_index < files[i].first_frame_index
                + files[i].frame_count implies exists|j: int|
            0 <= j < entries.len() && tells_of_frame(#[trigger] entries[j], frames[k]) by {
            filters_keep_what_they_should(frames, keep, frames[k]);
            assert(frames.contains(frames[k]));
            let j = choose|j: int| 0 <= j < kept.len() && kept[j] == frames[k];
            assert(tells_of_frame(entries[j], frames[k]));
        }
        assert forall|j: int| 0 <= j < entries.len() implies exists|k: int|
            0 <= k < frames.len() && tells_of_frame(
                #[trigger] entries[j],
                #[trigger] frames[k],
            ) by {
            filters_keep_what_they_should(frames, keep, kept[j]);
            assert(kept.contains(kept[j]));
            let k = choose|k: int| 0 <= k < frames.len() && frames[k] == kept[j];
            assert(tells_of_frame(entries[j], frames[k]));
        }
        assert forall|j: int, k: int|
            #![trigger entries[j], payloads[k]]
            0 <= j < entries.len() && 0 <= k < payloads.len() && payloads[k].envelope_index
                == entries[j].envelope_index implies exists|e: int|
            0 <= e < envelopes.len() && tells_of_envelope(
                #[trigger] envelopes[e],
                payloads[k],
                frames_of_envelope(frames, payloads[k].envelope_index),
            ) by {
            let numbers = entries.map_values(|f: FrameEntry| f.envelope_index);
            assert(numbers[j] == payloads[k].envelope_index);
            assert(numbers.contains(payloads[k].envelope_index));
            filters_keep_what_they_should(payloads, want, payloads[k]);
            assert(payloads.contains(payloads[k]));
            let e = choose|e: int| 0 <= e < listed.len() && listed[e] == payloads[k];
            assert(tells_of_envelope(
                envelopes[e],
                payloads[k],
                frames_of_envelope(frames, payloads[k].envelope_index),
            ));
        }
    }
}

// ---------------------------------------------------------------------------------------------
// Shards
// ---------------------------------------------------------------------------------------------

/// Whether a record of a length lies at a place.
pub open spec fn record_lies_at<C: ArchiveCodec>(
    codec: &C,
    bytes: Seq<u8>,
    at: int,
    len: u16,
    record: Record,
) -> bool {
    &&& 0 <= at
    &&& at + len <= bytes.len()
    &&& bytes.subrange(at, at + len) == codec.encoded(record)
}

/// Whether the records of a table lie one behind the other from an offset on. An empty table lies
/// nowhere.
pub open spec fn lies_in_a_table<C: ArchiveCodec>(
    codec: &C,
    bytes: Seq<u8>,
    offset: u32,
    len: u16,
    records: Seq<Record>,
) -> bool {
    forall|i: int|
        0 <= i < records.len() ==> record_lies_at(
            codec,
            bytes,
            offset + i * len,
            len,
            #[trigger] records[i],
        )
}

proof fn records_lie_in_line<C: ArchiveCodec>(
    codec: &C,
    records: Seq<Record>,
    first: int,
    len: u16,
    before: int,
    rest: Seq<u8>,
    i: int,
)
    requires
        keeps_its_layout(codec),
        0 <= first <= i < records.len(),
        joined_records(codec, records.take(first)).len() == before,
        forall|k: int|
            first <= k <= i ==> codec.spec_layout().len_of(#[trigger] records[k]) == len,
    ensures
        ({
            let bytes = joined_records(codec, records) + rest;
            let at = before + (i - first) * len;
            &&& 0 <= at <= at + len <= bytes.len()
            &&& bytes.subrange(at, at + len) == codec.encoded(records[i])
            &&& joined_records(codec, records.take(i + 1)).len() == at + len
        }),
    decreases i - first,
{
    let l = len as int;
    if i > first {
        records_lie_in_line(codec, records, first, len, before, rest, i - 1);
        assert((i - 1 - first) * l + l == (i - first) * l) by (nonlinear_arith);
    } else {
        assert((i - first) * l == 0) by (nonlinear_arith)
            requires
                i == first,
        ;
    }
    let at = before + (i - first) * l;
    assert(joined_records(codec, records.take(i)).len() == at) by {
        if i == first {
        } else {
            assert(records.take(i - 1 + 1) =~= records.take(i));
        }
    }
    assert(records.take(i + 1).drop_last() =~= records.take(i));
    assert(records.take(i + 1).last() == records[i]);
    assert(codec.encoded(records[i]).len() == l);
    joined_records_begin(codec, records, i + 1);
    let whole = joined_records(codec, records);
    let part = joined_records(codec, records.take(i + 1));
    assert(part.subrange(at, at + l) =~= codec.encoded(records[i]));
    assert((whole + rest).subrange(at, at + l) =~= part.subrange(at, at + l)) by {
        assert forall|k: int| at <= k < at + l implies (whole + rest)[k] == part[k] by {
            assert(whole.take(part.len() as int)[k] == part[k]);
        }
    }
}

pub(crate) proof fn joined_records_begin<C: ArchiveCodec>(codec: &C, records: Seq<Record>, n: int)
    requires
        0 <= n <= records.len(),
    ensures
        ({
            let part = joined_records(codec, records.take(n));
            let whole = joined_records(codec, records);
            part.len() <= whole.len() && whole.take(part.len() as int) == part
        }),
    decreases records.len(),
{
    let part = joined_records(codec, records.take(n));
    let whole = joined_records(codec, records);
    if n == records.len() {
        assert(records.take(n) =~= records);
        assert(whole.take(part.len() as int) =~= part);
    } else {
        joined_records_begin(codec, records.drop_last(), n);
        assert(records.drop_last().take(n) =~= records.take(n));
        let less = joined_records(codec, records.drop_last());
        assert(whole.take(part.len() as int) =~= less.take(part.len() as int));
    }
}

/// A table of records of one length among others lies behind what is in front of it.
pub(crate) proof fn tables_lie_in_line<C: ArchiveCodec>(
    codec: &C,
    records: Seq<Record>,
    first: int,
    len: u16,
    offset: u32,
    rest: Seq<u8>,
    table: Seq<Record>,
)
    requires
        keeps_its_layout(codec),
        0 <= first,
        first + table.len() <= records.len(),
        table.len() > 0 ==> joined_records(codec, records.take(first)).len() == offset,
        forall|k: int|
            0 <= k < table.len() ==> records[first + k] == #[trigger] table[k]
                && codec.spec_layout().len_of(table[k]) == len,
    ensures
        lies_in_a_table(codec, joined_records(codec, records) + rest, offset, len, table),
{
    let bytes = joined_records(codec, records) + rest;
    assert forall|i: int| 0 <= i < table.len() implies record_lies_at(
        codec,
        bytes,
        offset + i * len,
        len,
        #[trigger] table[i],
    ) by {
        assert forall|k: int| first <= k <= first + i implies codec.spec_layout().len_of(
            #[trigger] records[k],
        ) == len by {
            assert(records[first + (k - first)] == table[k - first]);
        }
        records_lie_in_line(codec, records, first, len, offset as int, rest, first + i);
        assert(records[first + i] == table[i]);
        assert((first + i - first) * len == i * len);
    }
}

/// Records of one length take as much room as they are many.
pub(crate) proof fn tables_end_in_line<C: ArchiveCodec>(
    codec: &C,
    records: Seq<Record>,
    first: int,
    len: u16,
    before: int,
    count: int,
)
    requires
        keeps_its_layout(codec),
        0 <= first,
        0 <= count,
        first + count <= records.len(),
        joined_records(codec, records.take(first)).len() == before,
        forall|k: int|
            first <= k < first + count ==> codec.spec_layout().len_of(#[trigger] records[k]) == len,
    ensures
        joined_records(codec, records.take(first + count)).len() == before + count * len,
    decreases count,
{
    let l = len as int;
    if count > 0 {
        tables_end_in_line(codec, records, first, len, before, count - 1);
        assert(records.take(first + count).drop_last() =~= records.take(first + (count - 1)));
        assert(records.take(first + count).last() == records[first + count - 1]);
        assert(codec.encoded(records[first + count - 1]).len() == l);
        assert((count - 1) * l + l == count * l) by (nonlinear_arith);
    } else {
        assert(0 * l == 0) by (nonlinear_arith);
        assert(first + count == first);
    }
}

/// Whether a shard begins with a header by which its tables and its pool are found.
pub open spec fn shard_is_found<C: ArchiveCodec>(
    codec: &C,
    bytes: Seq<u8>,
    h: IndexShardHeader,
    shard_index: u64,
    files: Seq<FileEntry>,
    frames: Seq<FrameEntry>,
    envelopes: Seq<EnvelopeEntry>,
    pool: Seq<u8>,
) -> bool {
    let layout = codec.spec_layout();
    &&& layout.index_shard_header <= bytes.len()
    &&& bytes.take(layout.index_shard_header as int) == codec.encoded(Record::IndexShardHeader(h))
    &&& h.shard_index == shard_index
    &&& h.file_count == files.len()
    &&& h.frame_count == frames.len()
    &&& h.envelope_count == envelopes.len()
    &&& h.string_pool_size == pool.len()
    &&& lies_in_a_table(codec, bytes, h.file_table_offset, layout.file_entry, file_records(files))
    &&& lies_in_a_table(
        codec,
        bytes,
        h.frame_table_offset,
        layout.frame_entry,
        frame_records(frames),
    )
    &&& lies_in_a_table(
        codec,
        bytes,
        h.envelope_table_offset,
        layout.envelope_entry,
        envelope_records(envelopes),
    )
    &&& pool.len() > 0 ==> h.string_pool_offset + pool.len() == bytes.len() && bytes.skip(
        h.string_pool_offset as int,
    ) == pool
}

#[verifier::rlimit(60)]
proof fn serialized_shards_are_found<C: ArchiveCodec>(
    codec: &C,
    shard_index: u64,
    files: Seq<FileEntry>,
    frames: Seq<FrameEntry>,
    envelopes: Seq<EnvelopeEntry>,
    pool: Seq<u8>,
) -> (h: IndexShardHeader)
    requires
        keeps_its_layout(codec),
        serialized_shard(codec, shard_index, files, frames, envelopes, pool) is Ok,
    ensures
        shard_is_found(
            codec,
            serialized_shard(codec, shard_index, files, frames, envelopes, pool)->Ok_0,
            h,
            shard_index,
            files,
            frames,
            envelopes,
            pool,
        ),
{
    let layout = codec.spec_layout();
    let bytes = serialized_shard(codec, shard_index, files, frames, envelopes, pool)->Ok_0;
    let (nf, nr, ne, np) = (
        files.len() as int,
        frames.len() as int,
        envelopes.len() as int,
        pool.len() as int,
    );
    let offsets = crate::shard::shard_offsets(layout, nf, nr, ne, np)->Ok_0;
    let h = crate::shard::shard_header(shard_index, nf, nr, ne, np, offsets);
    let head = Record::IndexShardHeader(h);
    let records = seq![head] + file_records(files) + frame_records(frames) + envelope_records(
        envelopes,
    );
    let joined = joined_records(codec, records);
    assert(bytes == joined + pool);
    let head_len = layout.index_shard_header as int;
    let f0 = 1 + nf;
    let e0 = 1 + nf + nr;
    assert(records[0] == head);
    assert(records.take(0) =~= Seq::empty());
    assert forall|k: int| 1 <= k < f0 implies codec.spec_layout().len_of(#[trigger] records[k])
        == layout.file_entry by {
        assert(records[k] == Record::FileEntry(files[k - 1]));
    }
    assert forall|k: int| f0 <= k < e0 implies codec.spec_layout().len_of(#[trigger] records[k])
        == layout.frame_entry by {
        assert(records[k] == Record::FrameEntry(frames[k - f0]));
    }
    assert forall|k: int| e0 <= k < e0 + ne implies codec.spec_layout().len_of(#[trigger] records[k])
        == layout.envelope_entry by {
        assert(records[k] == Record::EnvelopeEntry(envelopes[k - e0]));
    }
    tables_end_in_line(codec, records, 0, layout.index_shard_header, 0, 1);
    assert(1 * head_len == head_len) by (nonlinear_arith);
    tables_end_in_line(codec, records, 1, layout.file_entry, head_len, nf);
    let end_files = head_len + nf * layout.file_entry;
    tables_end_in_line(codec, records, f0, layout.frame_entry, end_files, nr);
    let end_frames = end_files + nr * layout.frame_entry;
    tables_end_in_line(codec, records, e0, layout.envelope_entry, end_frames, ne);
    records_lie_in_line(codec, records, 0, layout.index_shard_header, 0, pool, 0);
    assert(0 * head_len == 0) by (nonlinear_arith);
    assert(bytes.take(head_len) =~= bytes.subrange(0, head_len));
    tables_lie_in_line(
        codec,
        records,
        1,
        layout.file_entry,
        h.file_table_offset,
        pool,
        file_records(files),
    );
    tables_lie_in_line(
        codec,
        records,
        f0,
        layout.frame_entry,
        h.frame_table_offset,
        pool,
        frame_records(frames),
    );
    tables_lie_in_line(
        codec,
        records,
        e0,
        layout.envelope_entry,
        h.envelope_table_offset,
        pool,
        envelope_records(envelopes),
    );
    assert(records.take(e0 + ne) =~= records);
    if np > 0 {
        assert(bytes.skip(h.string_pool_offset as int) =~= pool);
    }
    h
}

/// Whether an index shard tells of rows: its tables are found by its header, its file entries tell of
/// the members of the rows, one by one, and its tables lead from them to the blocks.
pub open spec fn shard_tells_of<C: ArchiveCodec + MetadataProfile>(
    codec: &C,
    plaintext: Seq<u8>,
    h: IndexShardHeader,
    table: FileTable,
    frame_entries: Seq<FrameEntry>,
    envelopes: Seq<EnvelopeEntry>,
    shard_index: u64,
    members: Seq<MemberValue>,
    rows: Seq<RowValue>,
    frames: Seq<PayloadFrame>,
    payloads: Seq<PayloadObject>,
) -> bool {
    &&& shard_is_found(
        codec,
        plaintext,
        h,
        shard_index,
        table.entries,
        frame_entries,
        envelopes,
        table.pool,
    )
    &&& table.entries.len() == rows.len()
    &&& forall|i: int|
        0 <= i < rows.len() ==> entry_tells_of(
            codec,
            #[trigger] table.entries[i],
            table.pool,
            members[rows[i].member_index as int],
            frames_of_member(frames, rows[i].member_index),
        )
    &&& tables_lead_on(table.entries, frame_entries, envelopes, frames, payloads)
}

/// An index shard tells of its rows, and states how many they are and between which hashes of paths
/// they lie.
pub proof fn index_shards_tell_of_their_rows<C: ArchiveCodec + MetadataProfile>(
    codec: &C,
    shard_index: u64,
    members: Seq<MemberValue>,
    rows: Seq<RowValue>,
    frames: Seq<PayloadFrame>,
    payloads: Seq<PayloadObject>,
    shard: IndexShardValue,
)
    requires
        keeps_its_layout(codec),
        rows_name_members(codec, members, rows),
        rows.len() <= u32::MAX,
        shard_plaintext(codec, shard_index, members, rows, frames, payloads) == Ok::<
            IndexShardValue,
            FormatError,
        >(shard),
    ensures
        shard.shard_index == shard_index,
        rows.len() > 0,
        shard.file_count == rows.len(),
        shard.first_path_hash == codec.path_hash(
            members[rows[0].member_index as int].primary.path,
        ),
        shard.last_path_hash == codec.path_hash(
            members[rows.last().member_index as int].primary.path,
        ),
        exists|
            h: IndexShardHeader,
            table: FileTable,
            frame_entries: Seq<FrameEntry>,
            envelopes: Seq<EnvelopeEntry>,
        |
            #[trigger]
            shard_tells_of(
                codec,
                shard.plaintext,
                h,
                table,
                frame_entries,
                envelopes,
                shard_index,
                members,
                rows,
                frames,
                payloads,
            ),
{
    let table = file_table(codec, members, frames, rows, rows.len())->Ok_0;
    let frame_entries = frame_table(frames, required_frames(table.entries));
    let wanted = wanted_payloads(payloads, required_envelopes(frame_entries));
    let envelopes = envelope_table(frames, wanted)->Ok_0;
    file_tables_tell_of_members(codec, members, frames, rows, rows.len());
    tables_of_shards_lead_on(table.entries, frames, payloads);
    let h = serialized_shards_are_found(
        codec,
        shard_index,
        table.entries,
        frame_entries,
        envelopes,
        table.pool,
    );
    assert(rows[0] == row_of(codec, members[rows[0].member_index as int], rows[0].member_index));
    let last = rows[rows.len() - 1];
    assert(last == row_of(codec, members[last.member_index as int], last.member_index));
    assert(shard_tells_of(
        codec,
        shard.plaintext,
        h,
        table,
        frame_entries,
        envelopes,
        shard_index,
        members,
        rows,
        frames,
        payloads,
    ));
}

} // verus!
