//! What a plan puts into an archive for its readers: a crypto header that tells how it was made, an
//! index root that counts and locates everything, and index shards that tell of every member.
use crate::accounting::keeps_its_layout;
use crate::codec::ArchiveCodec;
use crate::errors::FormatError;
use crate::header_reading::{
    crypto_headers_read_back, read_kdf, schemes_differ, tells_of_the_request,
};
use crate::index_plan::{placed_shards, MetadataObjectValue};
use crate::keys::KdfValue;
use crate::object_plan::ObjectExtent;
use crate::options::WriterOptions;
use crate::plan::{
    front_plan, is_index_order, is_plan, metadata_plan, plan_outcome, PayloadValue, PlanRequest,
    PlanValue,
};
use crate::profile::MetadataProfile;
use crate::root_auth::PayloadObject;
use crate::rows::{
    flattened, row_values, shards_cover_the_rows, split_point, splits_leave_two_parts, MemberValue,
    RowValue,
};
use crate::shard::{
    shard_plaintext, shards_for_groups, shards_for_rows, IndexShardValue, PayloadFrame,
};
use crate::wire::{IndexRootValue, ShardEntry};
use vstd::prelude::*;

verus! {

// ---------------------------------------------------------------------------------------------
// Shards
// ---------------------------------------------------------------------------------------------

/// Whether shards are those over parts of rows, numbered from `first` on, and the parts make up the
/// rows.
pub open spec fn shards_share_rows<C: ArchiveCodec + MetadataProfile>(
    codec: &C,
    first: nat,
    members: Seq<MemberValue>,
    rows: Seq<RowValue>,
    frames: Seq<PayloadFrame>,
    payloads: Seq<PayloadObject>,
    shards: Seq<IndexShardValue>,
    parts: Seq<Seq<RowValue>>,
) -> bool {
    &&& parts.len() == shards.len()
    &&& flattened(parts) == rows
    &&& forall|i: int|
        0 <= i < shards.len() ==> shard_plaintext(
            codec,
            (first + i) as u64,
            members,
            parts[i],
            frames,
            payloads,
        ) == Ok::<IndexShardValue, FormatError>(#[trigger] shards[i])
}

proof fn flattened_parts_join(a: Seq<Seq<RowValue>>, b: Seq<Seq<RowValue>>)
    ensures
        flattened(a + b) == flattened(a) + flattened(b),
    decreases a.len(),
{
    if a.len() == 0 {
        assert(a + b =~= b);
        assert(flattened(a) + flattened(b) =~= flattened(b));
    } else {
        flattened_parts_join(a.skip(1), b);
        assert((a + b).skip(1) =~= a.skip(1) + b);
        assert(a[0] + (flattened(a.skip(1)) + flattened(b)) =~= a[0] + flattened(a.skip(1))
            + flattened(b));
    }
}

proof fn one_part_is_itself(part: Seq<RowValue>)
    ensures
        flattened(seq![part]) == part,
{
    let parts = seq![part];
    assert(parts.skip(1) =~= Seq::empty());
    assert(part + flattened(parts.skip(1)) =~= part);
}

proof fn shares_join<C: ArchiveCodec + MetadataProfile>(
    codec: &C,
    first: nat,
    members: Seq<MemberValue>,
    a_rows: Seq<RowValue>,
    b_rows: Seq<RowValue>,
    frames: Seq<PayloadFrame>,
    payloads: Seq<PayloadObject>,
    a: Seq<IndexShardValue>,
    a_parts: Seq<Seq<RowValue>>,
    b: Seq<IndexShardValue>,
    b_parts: Seq<Seq<RowValue>>,
)
    requires
        shards_share_rows(codec, first, members, a_rows, frames, payloads, a, a_parts),
        shards_share_rows(
            codec,
            first + a.len(),
            members,
            b_rows,
            frames,
            payloads,
            b,
            b_parts,
        ),
    ensures
        shards_share_rows(
            codec,
            first,
            members,
            a_rows + b_rows,
            frames,
            payloads,
            a + b,
            a_parts + b_parts,
        ),
{
    flattened_parts_join(a_parts, b_parts);
    let shards = a + b;
    let parts = a_parts + b_parts;
    assert forall|i: int| 0 <= i < shards.len() implies shard_plaintext(
        codec,
        (first + i) as u64,
        members,
        parts[i],
        frames,
        payloads,
    ) == Ok::<IndexShardValue, FormatError>(#[trigger] shards[i]) by {
        if i < a.len() {
            assert(shards[i] == a[i] && parts[i] == a_parts[i]);
        } else {
            let k = i - a.len();
            assert(shards[i] == b[k] && parts[i] == b_parts[k]);
            assert(first + a.len() + k == first + i);
        }
    }
}

proof fn rows_are_shared<C: ArchiveCodec + MetadataProfile>(
    codec: &C,
    first: nat,
    members: Seq<MemberValue>,
    rows: Seq<RowValue>,
    frames: Seq<PayloadFrame>,
    payloads: Seq<PayloadObject>,
    o: WriterOptions,
) -> (parts: Seq<Seq<RowValue>>)
    ensures
        shards_for_rows(codec, first, members, rows, frames, payloads, o) matches Ok(shards)
            ==> shards_share_rows(codec, first, members, rows, frames, payloads, shards, parts),
    decreases rows.len(),
{
    reveal(crate::shard::single_shard);
    if let Ok(shards) = shards_for_rows(codec, first, members, rows, frames, payloads, o) {
        match crate::shard::single_shard(codec, first, members, rows, frames, payloads, o) {
            Ok(Some(shard)) => {
                let parts = seq![rows];
                one_part_is_itself(rows);
                assert(shards[0] == shard);
                parts
            },
            _ => {
                assert(rows.len() != 0);
                splits_leave_two_parts(rows);
                let split = split_point(rows);
                let left = rows_are_shared(
                    codec,
                    first,
                    members,
                    rows.take(split),
                    frames,
                    payloads,
                    o,
                );
                let a = shards_for_rows(
                    codec,
                    first,
                    members,
                    rows.take(split),
                    frames,
                    payloads,
                    o,
                )->Ok_0;
                let right = rows_are_shared(
                    codec,
                    first + a.len(),
                    members,
                    rows.skip(split),
                    frames,
                    payloads,
                    o,
                );
                let b = shards_for_rows(
                    codec,
                    first + a.len(),
                    members,
                    rows.skip(split),
                    frames,
                    payloads,
                    o,
                )->Ok_0;
                shares_join(
                    codec,
                    first,
                    members,
                    rows.take(split),
                    rows.skip(split),
                    frames,
                    payloads,
                    a,
                    left,
                    b,
                    right,
                );
                assert(rows.take(split) + rows.skip(split) =~= rows);
                left + right
            },
        }
    } else {
        Seq::empty()
    }
}

proof fn groups_are_shared<C: ArchiveCodec + MetadataProfile>(
    codec: &C,
    members: Seq<MemberValue>,
    groups: Seq<Seq<RowValue>>,
    count: nat,
    frames: Seq<PayloadFrame>,
    payloads: Seq<PayloadObject>,
    o: WriterOptions,
) -> (parts: Seq<Seq<RowValue>>)
    requires
        count <= groups.len(),
    ensures
        shards_for_groups(codec, members, groups, count, frames, payloads, o) matches Ok(shards)
            ==> shards_share_rows(
            codec,
            0,
            members,
            flattened(groups.take(count as int)),
            frames,
            payloads,
            shards,
            parts,
        ),
    decreases count,
{
    if count == 0 {
        assert(groups.take(0) =~= Seq::empty());
        Seq::empty()
    } else if let Ok(shards) = shards_for_groups(
        codec,
        members,
        groups,
        count,
        frames,
        payloads,
        o,
    ) {
        let n = (count - 1) as nat;
        let before = shards_for_groups(codec, members, groups, n, frames, payloads, o)->Ok_0;
        let left = groups_are_shared(codec, members, groups, n, frames, payloads, o);
        let added = shards_for_rows(
            codec,
            before.len(),
            members,
            groups[n as int],
            frames,
            payloads,
            o,
        )->Ok_0;
        let right = rows_are_shared(
            codec,
            before.len(),
            members,
            groups[n as int],
            frames,
            payloads,
            o,
        );
        assert(groups.take(count as int) =~= groups.take(n as int) + seq![groups[n as int]]);
        flattened_parts_join(groups.take(n as int), seq![groups[n as int]]);
        one_part_is_itself(groups[n as int]);
        shares_join(
            codec,
            0,
            members,
            flattened(groups.take(n as int)),
            groups[n as int],
            frames,
            payloads,
            before,
            left,
            added,
            right,
        );
        left + right
    } else {
        Seq::empty()
    }
}

/// The index of an archive lists every member: the rows of all members, in index order, are shared
/// among the shards, in order, and each shard is that of its rows.
pub proof fn index_shards_list_every_row<C: ArchiveCodec + MetadataProfile>(
    codec: &C,
    members: Seq<MemberValue>,
    rows: Seq<RowValue>,
    frames: Seq<PayloadFrame>,
    payloads: Seq<PayloadObject>,
    o: WriterOptions,
    groups: Seq<Seq<RowValue>>,
    shards: Seq<IndexShardValue>,
)
    requires
        members.len() > 0,
        crate::plan::index_groups(members, rows) == Ok::<Seq<Seq<RowValue>>, FormatError>(groups),
        shards_for_groups(codec, members, groups, groups.len(), frames, payloads, o) == Ok::<
            Seq<IndexShardValue>,
            FormatError,
        >(shards),
    ensures
        exists|parts: Seq<Seq<RowValue>>| #[trigger]
            shards_share_rows(codec, 0, members, rows, frames, payloads, shards, parts),
{
    shards_cover_the_rows(rows, 0);
    assert(rows.skip(0) =~= rows);
    assert(groups.take(groups.len() as int) =~= groups);
    let parts = groups_are_shared(codec, members, groups, groups.len(), frames, payloads, o);
    assert(shards_share_rows(codec, 0, members, rows, frames, payloads, shards, parts));
}

// ---------------------------------------------------------------------------------------------
// The index root
// ---------------------------------------------------------------------------------------------

/// Whether an entry of the index root locates an object that holds a shard, compressed.
pub open spec fn locates_shard<C: ArchiveCodec>(
    codec: &C,
    o: WriterOptions,
    entry: ShardEntry,
    object: MetadataObjectValue,
    shard: IndexShardValue,
) -> bool {
    &&& object.extent == (ObjectExtent {
        first_block_index: entry.first_block_index,
        data_block_count: entry.data_block_count,
        parity_block_count: entry.parity_block_count,
        encrypted_size: entry.encrypted_size,
    })
    &&& entry.shard_index == shard.shard_index
    &&& object.object_index == shard.shard_index
    &&& codec.compressed(shard.plaintext, o.zstd_level, None, o.jobs) == Ok::<
        Seq<u8>,
        FormatError,
    >(object.compressed)
    &&& entry.decompressed_size == shard.plaintext.len()
    &&& entry.file_count == shard.file_count
    &&& entry.first_path_hash == shard.first_path_hash
    &&& entry.last_path_hash == shard.last_path_hash
}

proof fn shards_are_located<C: ArchiveCodec>(
    codec: &C,
    shards: Seq<IndexShardValue>,
    o: WriterOptions,
    next: u64,
    count: nat,
)
    requires
        count <= shards.len(),
    ensures
        placed_shards(codec, shards, o, next, count) matches Ok(placed) ==> {
            &&& placed.objects.len() == count
            &&& placed.entries.len() == count
            &&& forall|k: int|
                0 <= k < count ==> locates_shard(
                    codec,
                    o,
                    #[trigger] placed.entries[k],
                    placed.objects[k],
                    shards[k],
                )
        },
    decreases count,
{
    if count > 0 {
        let n = (count - 1) as nat;
        shards_are_located(codec, shards, o, next, n);
        if let Ok(placed) = placed_shards(codec, shards, o, next, count) {
            let before = placed_shards(codec, shards, o, next, n)->Ok_0;
            assert forall|k: int| 0 <= k < count implies locates_shard(
                codec,
                o,
                #[trigger] placed.entries[k],
                placed.objects[k],
                shards[k],
            ) by {
                if k < n {
                    assert(placed.entries[k] == before.entries[k]);
                    assert(placed.objects[k] == before.objects[k]);
                }
            }
        }
    }
}

/// Whether an index root counts a payload and tells where the dictionary lies, if there is one.
pub open spec fn root_tells_of(
    root: IndexRootValue,
    payload: PayloadValue,
    plan: PlanValue,
) -> bool {
    let h = root.header;
    &&& root.shards == plan.shard_entries
    &&& root.directory_hint_shards == plan.directory_hint_entries
    &&& payload.frames.len() <= u64::MAX ==> h.frame_count == plan.frames.len()
    &&& payload.objects.len() <= u64::MAX ==> h.envelope_count == plan.objects.len()
    &&& payload.members.len() <= u64::MAX ==> h.file_count == plan.members.len()
    &&& h.payload_block_count == payload.block_count
    &&& h.tar_total_size == payload.tar_total
    &&& h.content_sha256 == payload.content_sha256
    &&& match plan.dictionary_extent {
        Some((extent, size)) => {
            &&& extent == (ObjectExtent {
                first_block_index: h.dictionary_first_block,
                data_block_count: h.dictionary_data_block_count,
                parity_block_count: h.dictionary_parity_block_count,
                encrypted_size: h.dictionary_encrypted_size,
            })
            &&& h.dictionary_decompressed_size == size
        },
        None => h.dictionary_data_block_count == 0 && h.dictionary_encrypted_size == 0
            && h.dictionary_decompressed_size == 0,
    }
}

/// Whether the index shards of a plan lie one behind the other, behind the payload.
pub open spec fn index_lies_in_line(plan: PlanValue, next: u64) -> bool {
    &&& forall|k: int|
        0 <= k < plan.index_shard_objects.len() ==> (
        #[trigger] plan.index_shard_objects[k]).extent.first_block_index == if k == 0 {
            next as int
        } else {
            plan.index_shard_objects[k - 1].extent.first_block_index
                + plan.index_shard_objects[k - 1].extent.total()
        }
}

proof fn shards_lie_in_line<C: ArchiveCodec>(
    codec: &C,
    shards: Seq<IndexShardValue>,
    o: WriterOptions,
    next: u64,
    count: nat,
)
    ensures
        placed_shards(codec, shards, o, next, count) matches Ok(placed) ==> {
            &&& placed.objects.len() == count
            &&& forall|k: int|
                0 <= k < count ==> (#[trigger] placed.objects[k]).extent.first_block_index == if k
                    == 0 {
                    next as int
                } else {
                    placed.objects[k - 1].extent.first_block_index + placed.objects[k
                        - 1].extent.total()
                }
            &&& placed.next == if count == 0 {
                next as int
            } else {
                placed.objects[count - 1].extent.first_block_index + placed.objects[count
                    - 1].extent.total()
            }
        },
    decreases count,
{
    if count > 0 {
        shards_lie_in_line(codec, shards, o, next, (count - 1) as nat);
        if let Ok(placed) = placed_shards(codec, shards, o, next, count) {
            let before = placed_shards(codec, shards, o, next, (count - 1) as nat)->Ok_0;
            assert forall|k: int| 0 <= k < count implies (
            #[trigger] placed.objects[k]).extent.first_block_index == if k == 0 {
                next as int
            } else {
                placed.objects[k - 1].extent.first_block_index + placed.objects[k
                    - 1].extent.total()
            } by {
                if k < count - 1 {
                    assert(placed.objects[k] == before.objects[k]);
                }
                if k > 0 {
                    assert(placed.objects[k - 1] == before.objects[k - 1]);
                }
            }
        }
    }
}

/// A plan tells its readers how the archive was made and where everything lies: its crypto header is
/// read back to the request and to the key-derivation parameters; its index root counts the payload,
/// is stored compressed, and locates every index shard and the dictionary; and the index shards lie
/// one behind the other and list the members in index order.
pub proof fn plans_tell_their_readers<C: ArchiveCodec + MetadataProfile>(
    codec: &C,
    payload: PayloadValue,
    next: u64,
    o: WriterOptions,
    dictionary: Option<Seq<u8>>,
    kdf: KdfValue,
    key_wrap_table: Option<Seq<u8>>,
    request: PlanRequest,
    plan: PlanValue,
)
    requires
        schemes_differ(codec.spec_layout()),
        keeps_its_layout(codec),
        payload.members.len() > 0,
        is_plan(codec, payload, next, o, dictionary, kdf, key_wrap_table, request, Ok(plan)),
    ensures
        read_kdf(
            codec.spec_layout(),
            plan.crypto_header.bytes.skip(codec.spec_layout().crypto_header_fixed as int),
        ) == kdf,
        plan.crypto_header.fixed.kdf_algo == kdf.algo(),
        tells_of_the_request(plan.crypto_header.fixed, plan.options, dictionary is Some),
        plan.archive_uuid == request.archive_uuid,
        plan.session_id == request.session_id,
        plan.key_wrap_table == key_wrap_table,
        exists|root: IndexRootValue|
            {
                &&& #[trigger] codec.index_root_bytes(root) == plan.index_root_plaintext
                &&& root_tells_of(root, payload, plan)
            },
        codec.compressed(plan.index_root_plaintext, o.zstd_level, None, o.jobs) == Ok::<
            Seq<u8>,
            FormatError,
        >(plan.compressed_index_root),
        dictionary is Some <==> plan.compressed_dictionary is Some,
        dictionary is Some <==> plan.dictionary_extent is Some,
        dictionary matches Some(bytes) ==> {
            &&& codec.compressed(bytes, o.zstd_level, None, o.jobs) == Ok::<Seq<u8>, FormatError>(
                plan.compressed_dictionary->0,
            )
            &&& plan.dictionary_extent matches Some((_, size))
            &&& size == bytes.len()
        },
        index_lies_in_line(plan, next),
        exists|rows: Seq<crate::rows::FileRow>, shards: Seq<IndexShardValue>, parts: Seq<Seq<RowValue>>|
            {
                &&& crate::rows::is_sorted_index(codec, payload.members, rows)
                &&& #[trigger] shards_share_rows(
                    codec,
                    0,
                    payload.members,
                    #[trigger] row_values(rows),
                    payload.frames,
                    payload.objects,
                    shards,
                    parts,
                )
                &&& plan.shard_entries.len() == shards.len()
                &&& plan.index_shard_objects.len() == shards.len()
                &&& forall|k: int|
                    0 <= k < shards.len() ==> locates_shard(
                        codec,
                        o,
                        #[trigger] plan.shard_entries[k],
                        plan.index_shard_objects[k],
                        shards[k],
                    )
            },
{
    let (rows, hints) = choose|rows: Seq<crate::rows::FileRow>, hints: Seq<crate::hints::HintRow>|
        #[trigger]
        is_index_order(codec, payload, next, o, dictionary, rows, hints) && Ok::<
            PlanValue,
            FormatError,
        >(plan) == plan_outcome(
            codec,
            payload,
            next,
            o,
            dictionary,
            kdf,
            key_wrap_table,
            request,
            row_values(rows),
            crate::hints::hint_values(hints),
        );
    let values = row_values(rows);
    let subkeys = crate::plan::subkeys_outcome(
        codec,
        request.master_key,
        o.aead_algo,
        request.archive_uuid,
        request.session_id,
    )->Ok_0;
    let m = metadata_plan(
        codec,
        payload,
        next,
        o,
        dictionary,
        values,
        crate::hints::hint_values(hints),
    )->Ok_0;
    let front = front_plan(codec, payload, next, o, dictionary, values)->Ok_0;
    let shards = shards_for_groups(
        codec,
        payload.members,
        front.groups,
        front.groups.len(),
        payload.frames,
        payload.objects,
        o,
    )->Ok_0;
    crypto_headers_read_back(
        codec,
        plan.options,
        request.volume_format_rev,
        dictionary is Some,
        subkeys,
        request.archive_uuid,
        request.session_id,
        kdf,
    );
    let root = crate::index_plan::index_root_value(
        crate::plan::payload_counts(payload),
        m.front.shards.entries,
        m.hints.entries,
        m.front.dictionary.extent,
    );
    assert(codec.index_root_bytes(root) == plan.index_root_plaintext);
    assert(root_tells_of(root, payload, plan));
    shards_are_located(codec, shards, o, next, shards.len());
    shards_lie_in_line(codec, shards, o, next, shards.len());
    index_shards_list_every_row(
        codec,
        payload.members,
        values,
        payload.frames,
        payload.objects,
        o,
        front.groups,
        shards,
    );
    let parts = choose|parts: Seq<Seq<RowValue>>| #[trigger]
        shards_share_rows(
            codec,
            0,
            payload.members,
            values,
            payload.frames,
            payload.objects,
            shards,
            parts,
        );
    assert(shards_share_rows(
        codec,
        0,
        payload.members,
        row_values(rows),
        payload.frames,
        payload.objects,
        shards,
        parts,
    ));
}

} // verus!
