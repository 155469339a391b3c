//! Lost blocks and lost volumes: what parity is for. The objects of an archive are rebuilt from what
//! is left of their blocks.
use crate::codec::ArchiveCodec;
use crate::errors::FormatError;
use crate::index_reading::{is_stored, lies_in_place};
use crate::object_plan::{
    blocks_on_volume, blocks_on_volumes, volume_loss_is_recoverable, volume_of_block, ObjectExtent,
};
use crate::options::WriterOptions;
use crate::reading::{read_block, undoes, Decoder};
use crate::seal::{
    encrypted_outcome, object_parity_shards, piece, pieces, sealed_parity_count, sealed_payload,
    ObjectEncryptionContext,
};
use crate::sizes::{keeps_lengths, object_blocks_are_numbered};
use crate::wire::BlockValue;
use vstd::prelude::*;

verus! {

// ---------------------------------------------------------------------------------------------
// A rebuilder
// ---------------------------------------------------------------------------------------------

/// What makes up for lost shards: from how many data shards there were, and the shards at hand by
/// their places, it gives the data shards.
pub struct Rebuilder {
    pub data: spec_fn(nat, Map<int, Seq<u8>>) -> Seq<Seq<u8>>,
}

/// Whether `parity` protects `data`, shards of one length.
pub open spec fn is_coded<C: ArchiveCodec>(
    codec: &C,
    data: Seq<Seq<u8>>,
    parity: Seq<Seq<u8>>,
) -> bool {
    &&& data.len() > 0
    &&& forall|i: int| 0 <= i < data.len() ==> (#[trigger] data[i]).len() == data[0].len()
    &&& parity.len() == 0 || codec.parity(data, parity.len()) == Ok::<
        Seq<Seq<u8>>,
        FormatError,
    >(parity)
}

/// Whether `at_hand` holds some of the shards, each at its place, and as many as `needed`.
pub open spec fn is_enough_of(
    at_hand: Map<int, Seq<u8>>,
    shards: Seq<Seq<u8>>,
    needed: nat,
) -> bool {
    &&& at_hand.dom().finite()
    &&& at_hand.dom().len() >= needed
    &&& forall|i: int| #[trigger]
        at_hand.dom().contains(i) ==> 0 <= i < shards.len() && at_hand[i] == shards[i]
}

/// Whether a rebuilder makes use of the parity of a codec: as many shards as there were data shards,
/// whichever they are, give the data back.
pub open spec fn rebuilds<C: ArchiveCodec>(b: Rebuilder, codec: &C) -> bool {
    forall|data: Seq<Seq<u8>>, parity: Seq<Seq<u8>>, at_hand: Map<int, Seq<u8>>|
        #![trigger is_coded(codec, data, parity), is_enough_of(at_hand, data + parity, data.len())]
        is_coded(codec, data, parity) && is_enough_of(at_hand, data + parity, data.len())
            ==> (b.data)(data.len(), at_hand) == data
}

/// Whether as many shards as there are data shards, whichever they are, leave no doubt about the data.
pub open spec fn parity_determines<C: ArchiveCodec>(codec: &C) -> bool {
    forall|
        data: Seq<Seq<u8>>,
        parity: Seq<Seq<u8>>,
        other: Seq<Seq<u8>>,
        other_parity: Seq<Seq<u8>>,
        at_hand: Map<int, Seq<u8>>,
    |
        #![trigger is_coded(codec, data, parity), is_coded(codec, other, other_parity), is_enough_of(at_hand, data + parity, data.len())]
        is_coded(codec, data, parity) && is_coded(codec, other, other_parity) && data.len()
            == other.len() && is_enough_of(at_hand, data + parity, data.len()) && is_enough_of(
            at_hand,
            other + other_parity,
            data.len(),
        ) ==> data == other
}

/// Parity that leaves no doubt about the data can be made use of.
pub proof fn rebuilders_exist<C: ArchiveCodec>(codec: &C) -> (b: Rebuilder)
    requires
        parity_determines(codec),
    ensures
        rebuilds(b, codec),
{
    let b = Rebuilder {
        data: |n: nat, at_hand: Map<int, Seq<u8>>|
            choose|data: Seq<Seq<u8>>|
                data.len() == n && exists|parity: Seq<Seq<u8>>|
                    #![trigger is_coded(codec, data, parity)]
                    is_coded(codec, data, parity) && is_enough_of(at_hand, data + parity, n),
    };
    assert forall|data: Seq<Seq<u8>>, parity: Seq<Seq<u8>>, at_hand: Map<int, Seq<u8>>|
        #![trigger is_coded(codec, data, parity), is_enough_of(at_hand, data + parity, data.len())]
        is_coded(codec, data, parity) && is_enough_of(
            at_hand,
            data + parity,
            data.len(),
        ) implies (b.data)(data.len(), at_hand) == data by {
        let n = data.len();
        let found = (b.data)(n, at_hand);
        assert(found.len() == n && exists|other_parity: Seq<Seq<u8>>|
            #![trigger is_coded(codec, found, other_parity)]
            is_coded(codec, found, other_parity) && is_enough_of(
                at_hand,
                found + other_parity,
                n,
            ));
        let other_parity = choose|other_parity: Seq<Seq<u8>>|
            #![trigger is_coded(codec, found, other_parity)]
            is_coded(codec, found, other_parity) && is_enough_of(at_hand, found + other_parity, n);
        assert(is_coded(codec, found, other_parity));
    }
    b
}

/// Shards, joined.
pub open spec fn joined_shards(shards: Seq<Seq<u8>>) -> Seq<u8>
    decreases shards.len(),
{
    if shards.len() == 0 {
        Seq::empty()
    } else {
        joined_shards(shards.drop_last()) + shards.last()
    }
}

pub(crate) proof fn pieces_join_to_the_whole(s: Seq<u8>, size: int, count: int)
    requires
        size > 0,
        count >= 0,
        count * size <= s.len(),
    ensures
        joined_shards(pieces(s, size, count)) == s.take(count * size),
    decreases count,
{
    if count == 0 {
        assert(0 * size == 0) by (nonlinear_arith);
        assert(s.take(0) =~= Seq::empty());
    } else {
        let n = count - 1;
        assert(0 <= n * size && n * size + size == count * size) by (nonlinear_arith)
            requires
                count == n + 1,
                n >= 0,
                size > 0,
        ;
        pieces_join_to_the_whole(s, size, n);
        assert(pieces(s, size, count).drop_last() =~= pieces(s, size, n));
        assert(pieces(s, size, count).last() == piece(s, size, n));
        assert((n + 1) * size == count * size);
        assert(s.take(n * size) + s.subrange(n * size, count * size) =~= s.take(count * size));
    }
}

// ---------------------------------------------------------------------------------------------
// Lost blocks
// ---------------------------------------------------------------------------------------------

/// The payloads of blocks.
pub open spec fn payloads_of(blocks: Seq<BlockValue>) -> Seq<Seq<u8>> {
    Seq::new(blocks.len(), |j: int| blocks[j].payload)
}

/// The parity blocks of an object protect its data blocks: the payload of the k-th of them is the
/// k-th parity shard of the payloads of the data blocks, which come first and in order. Data blocks
/// are of the data kind and parity blocks of the parity kind, and the last data block alone is marked.
pub proof fn parity_blocks_protect_data_blocks<C: ArchiveCodec>(
    codec: &C,
    payload: Seq<u8>,
    context: ObjectEncryptionContext,
    first: u64,
    o: WriterOptions,
)
    requires
        keeps_lengths(codec),
        o.block_size > 0,
    ensures
        encrypted_outcome(codec, payload, context, first, o) matches Ok(x) ==> {
            let n = x.extent.data_block_count as int;
            let shards = payloads_of(x.records);
            &&& 0 < n <= x.records.len()
            &&& x.records.len() == x.extent.total()
            &&& is_coded(codec, shards.take(n), shards.skip(n))
            &&& joined_shards(shards.take(n)) == sealed_payload(codec, payload, context, o)->Ok_0
            &&& forall|j: int|
                0 <= j < x.records.len() ==> {
                    &&& (#[trigger] x.records[j]).block_index == first + j
                    &&& j < n ==> x.records[j].kind == context.data_kind
                    &&& j >= n ==> x.records[j].kind == context.parity_kind
                    &&& x.records[j].flags == if j == n - 1 {
                        1u8
                    } else {
                        0u8
                    }
                }
        },
{
    if let Ok(x) = encrypted_outcome(codec, payload, context, first, o) {
        let sealed = sealed_payload(codec, payload, context, o)->Ok_0;
        let size = o.block_size as int;
        let n = sealed.len() as int / size;
        let p = sealed_parity_count(sealed, context, o)->Ok_0;
        let data = pieces(sealed, size, n);
        let parity = object_parity_shards(codec, data, p as nat)->Ok_0;
        object_blocks_are_numbered(codec, payload, context, o, first);
        vstd::arithmetic::div_mod::lemma_fundamental_div_mod(sealed.len() as int, size);
        assert(n * size == sealed.len()) by (nonlinear_arith)
            requires
                sealed.len() == size * n,
        ;
        assert forall|i: int| 0 <= i < n implies (#[trigger] data[i]).len() == size by {
            assert(0 <= i * size && i * size + size == (i + 1) * size && (i + 1) * size <= n * size)
                by (nonlinear_arith)
                requires
                    0 <= i < n,
                    size > 0,
            ;
        }
        assert(n > 0);
        assert(parity.len() == p);
        let shards = payloads_of(x.records);
        assert(shards.take(n) =~= data);
        assert(shards.skip(n) =~= parity);
        pieces_join_to_the_whole(sealed, size, n);
        assert(sealed.take(n * size) =~= sealed);
    }
}

/// An object is rebuilt from any of its blocks, if they are as many as it has data blocks: whichever
/// blocks are lost, as many of them as there are parity blocks, the payload is not.
pub proof fn objects_survive_lost_blocks<C: ArchiveCodec>(
    d: Decoder,
    b: Rebuilder,
    codec: &C,
    options: WriterOptions,
    dictionary: Option<Seq<u8>>,
    payload: Seq<u8>,
    context: ObjectEncryptionContext,
    first: u64,
    o: WriterOptions,
    at_hand: Map<int, Seq<u8>>,
)
    requires
        undoes(d, codec, options, dictionary, o),
        rebuilds(b, codec),
        keeps_lengths(codec),
        o.block_size > 0,
        encrypted_outcome(codec, payload, context, first, o) matches Ok(x) && is_enough_of(
            at_hand,
            payloads_of(x.records),
            x.extent.data_block_count as nat,
        ),
    ensures
        encrypted_outcome(codec, payload, context, first, o) matches Ok(x) && (d.open)(
            context,
            joined_shards((b.data)(x.extent.data_block_count as nat, at_hand)),
        ) == payload,
{
    parity_blocks_protect_data_blocks(codec, payload, context, first, o);
    let x = encrypted_outcome(codec, payload, context, first, o)->Ok_0;
    let n = x.extent.data_block_count as int;
    let shards = payloads_of(x.records);
    let data = shards.take(n);
    let parity = shards.skip(n);
    assert(data + parity =~= shards);
    assert(is_coded(codec, data, parity));
    assert(is_enough_of(at_hand, data + parity, data.len()));
}

// ---------------------------------------------------------------------------------------------
// Lost volumes
// ---------------------------------------------------------------------------------------------

/// The places of an object whose blocks lie on a volume.
pub open spec fn places_on_volume(first: int, count: int, width: int, volume: int) -> Set<int> {
    Set::new(|j: int| 0 <= j < count && volume_of_block(first + j, width) == volume)
}

/// The places of an object whose blocks lie on the volumes of a list.
pub open spec fn places_on_volumes(first: int, count: int, width: int, volumes: Seq<int>) -> Set<int> {
    Set::new(|j: int| 0 <= j < count && volumes.contains(volume_of_block(first + j, width)))
}

proof fn places_are_counted(first: int, count: int, width: int, volume: int)
    requires
        count >= 0,
    ensures
        places_on_volume(first, count, width, volume).finite(),
        places_on_volume(first, count, width, volume).len() == blocks_on_volume(
            first,
            count,
            width,
            volume,
        ),
    decreases count,
{
    let all = places_on_volume(first, count, width, volume);
    if count == 0 {
        assert(all =~= Set::empty());
    } else {
        places_are_counted(first, count - 1, width, volume);
        let before = places_on_volume(first, count - 1, width, volume);
        if volume_of_block(first + count - 1, width) == volume {
            assert(all =~= before.insert(count - 1));
        } else {
            assert(all =~= before);
        }
    }
}

proof fn lost_places_are_bounded(first: int, count: int, width: int, volumes: Seq<int>)
    requires
        count >= 0,
    ensures
        places_on_volumes(first, count, width, volumes).finite(),
        places_on_volumes(first, count, width, volumes).len() <= blocks_on_volumes(
            first,
            count,
            width,
            volumes,
        ),
    decreases volumes.len(),
{
    let all = places_on_volumes(first, count, width, volumes);
    if volumes.len() == 0 {
        assert(all =~= Set::empty());
    } else {
        let earlier = volumes.drop_last();
        let last = volumes.last();
        lost_places_are_bounded(first, count, width, earlier);
        places_are_counted(first, count, width, last);
        let before = places_on_volumes(first, count, width, earlier);
        let here = places_on_volume(first, count, width, last);
        assert forall|j: int| all.contains(j) implies before.union(here).contains(j) by {
            let v = volume_of_block(first + j, width);
            let k = choose|k: int| 0 <= k < volumes.len() && volumes[k] == v;
            if k < volumes.len() - 1 {
                assert(earlier[k] == v);
            }
        }
        assert forall|j: int| before.union(here).contains(j) implies all.contains(j) by {
            let v = volume_of_block(first + j, width);
            if before.contains(j) {
                let k = choose|k: int| 0 <= k < earlier.len() && earlier[k] == v;
                assert(volumes[k] == v);
            } else {
                assert(volumes[volumes.len() - 1] == v);
            }
        }
        assert(all =~= before.union(here));
        vstd::set_lib::lemma_len_union(before, here);
    }
}

/// What can be read of an object: the blocks of its extent that lie on no lost volume and did not
/// rot.
pub open spec fn blocks_at_hand(
    d: Decoder,
    starts: Seq<Seq<u8>>,
    volumes: Seq<Seq<u8>>,
    o: WriterOptions,
    extent: ObjectExtent,
    lost: Seq<int>,
    rotten: Set<int>,
) -> Map<int, Seq<u8>> {
    Map::new(
        |j: int|
            0 <= j < extent.total() && !lost.contains(
                volume_of_block(extent.first_block_index + j, o.stripe_width as int),
            ) && !rotten.contains(j),
        |j: int| read_block(d, starts, volumes, o, extent.first_block_index + j).payload,
    )
}

/// The payload of an object, from what can be read of it.
pub open spec fn rebuilt_object(
    d: Decoder,
    b: Rebuilder,
    starts: Seq<Seq<u8>>,
    volumes: Seq<Seq<u8>>,
    o: WriterOptions,
    context: ObjectEncryptionContext,
    extent: ObjectExtent,
    lost: Seq<int>,
    rotten: Set<int>,
) -> Seq<u8> {
    (d.open)(
        context,
        joined_shards(
            (b.data)(
                extent.data_block_count as nat,
                blocks_at_hand(d, starts, volumes, o, extent, lost, rotten),
            ),
        ),
    )
}

/// Whether as many blocks of an object may rot as its bit-rot share says.
pub open spec fn rots_within_its_share(o: WriterOptions, extent: ObjectExtent, rotten: Set<int>) -> bool {
    &&& rotten.finite()
    &&& rotten.len() * 100 <= extent.total() * o.bit_rot_buffer_pct
}

/// Whether the volumes that are not lost are as they were.
pub open spec fn are_left(
    volumes: Seq<Seq<u8>>,
    damaged: Seq<Seq<u8>>,
    lost: Seq<int>,
) -> bool {
    &&& damaged.len() == volumes.len()
    &&& forall|v: int|
        0 <= v < volumes.len() && !lost.contains(v) ==> #[trigger] damaged[v] == volumes[v]
}

/// Enough blocks of an object are left when volumes are lost within the tolerance and blocks rot
/// within the bit-rot share.
proof fn enough_is_left(
    o: WriterOptions,
    extent: ObjectExtent,
    lost: Seq<int>,
    rotten: Set<int>,
    left: Set<int>,
)
    requires
        o.stripe_width > 0,
        crate::options::parity_outcome(o, extent.data_block_count as int) == Ok::<
            u32,
            FormatError,
        >(extent.parity_block_count),
        lost.len() <= o.volume_loss_tolerance,
        forall|k: int| 0 <= k < lost.len() ==> 0 <= #[trigger] lost[k] < o.stripe_width,
        rots_within_its_share(o, extent, rotten),
        left == Set::new(
            |j: int|
                0 <= j < extent.total() && !lost.contains(
                    volume_of_block(extent.first_block_index + j, o.stripe_width as int),
                ) && !rotten.contains(j),
        ),
    ensures
        left.finite(),
        left.len() >= extent.data_block_count,
{
    let first = extent.first_block_index as int;
    let total = extent.total();
    let width = o.stripe_width as int;
    volume_loss_is_recoverable(o, extent, lost);
    lost_places_are_bounded(first, total, width, lost);
    let gone = places_on_volumes(first, total, width, lost);
    let all = vstd::set_lib::set_int_range(0, total);
    vstd::set_lib::lemma_int_range(0, total);
    let bad = gone.union(rotten);
    vstd::set_lib::lemma_len_union(gone, rotten);
    assert(left =~= all.difference(bad));
    let hit = all.intersect(bad);
    vstd::set_lib::lemma_len_intersect(bad, all);
    assert(all.intersect(bad) =~= bad.intersect(all));
    assert(all =~= left.union(hit));
    assert(left.disjoint(hit));
    vstd::set_lib::lemma_set_disjoint_lens(left, hit);
    let share = total * o.bit_rot_buffer_pct;
    crate::arith::ceil_div_is_least_cover(share, 100);
    assert(rotten.len() <= crate::arith::spec_ceil_div(share, 100));
}

/// Whether the blocks of an object are read back from volumes.
pub open spec fn blocks_are_readable(
    d: Decoder,
    starts: Seq<Seq<u8>>,
    volumes: Seq<Seq<u8>>,
    o: WriterOptions,
    extent: ObjectExtent,
    blocks: Seq<BlockValue>,
) -> bool {
    &&& blocks.len() == extent.total()
    &&& forall|j: int|
        0 <= j < blocks.len() ==> read_block(
            d,
            starts,
            volumes,
            o,
            extent.first_block_index + j,
        ).payload == (#[trigger] blocks[j]).payload
}

/// An object whose blocks are read back from volumes survives the loss of volumes: from those that
/// are left, if no more are lost than the archive tolerates, and even if blocks rot within the bit-rot
/// share, its payload is rebuilt.
pub proof fn objects_survive_lost_volumes<C: ArchiveCodec>(
    d: Decoder,
    b: Rebuilder,
    codec: &C,
    options: WriterOptions,
    dictionary: Option<Seq<u8>>,
    starts: Seq<Seq<u8>>,
    volumes: Seq<Seq<u8>>,
    damaged: Seq<Seq<u8>>,
    o: WriterOptions,
    payload: Seq<u8>,
    context: ObjectEncryptionContext,
    extent: ObjectExtent,
    lost: Seq<int>,
    rotten: Set<int>,
)
    requires
        undoes(d, codec, options, dictionary, o),
        rebuilds(b, codec),
        keeps_lengths(codec),
        o.block_size > 0,
        o.stripe_width > 0,
        volumes.len() == o.stripe_width,
        encrypted_outcome(codec, payload, context, extent.first_block_index, o) matches Ok(x)
            && x.extent == extent && blocks_are_readable(d, starts, volumes, o, extent, x.records),
        are_left(volumes, damaged, lost),
        lost.len() <= o.volume_loss_tolerance,
        forall|k: int| 0 <= k < lost.len() ==> 0 <= #[trigger] lost[k] < o.stripe_width,
        rots_within_its_share(o, extent, rotten),
    ensures
        rebuilt_object(d, b, starts, damaged, o, context, extent, lost, rotten) == payload,
{
    let x = encrypted_outcome(codec, payload, context, extent.first_block_index, o)->Ok_0;
    let first = extent.first_block_index as int;
    let width = o.stripe_width as int;
    let at_hand = blocks_at_hand(d, starts, damaged, o, extent, lost, rotten);
    let left = at_hand.dom();
    assert(left =~= Set::new(
        |j: int|
            0 <= j < extent.total() && !lost.contains(volume_of_block(first + j, width))
                && !rotten.contains(j),
    ));
    enough_is_left(o, extent, lost, rotten, left);
    let shards = payloads_of(x.records);
    assert forall|j: int| #[trigger] left.contains(j) implies 0 <= j < shards.len() && at_hand[j]
        == shards[j] by {
        let v = (first + j) % width;
        vstd::arithmetic::div_mod::lemma_mod_bound(first + j, width);
        assert(damaged[v] == volumes[v]);
        assert(read_block(d, starts, volumes, o, first + j).payload == x.records[j].payload);
    }
    assert(is_enough_of(at_hand, shards, extent.data_block_count as nat));
    objects_survive_lost_blocks(
        d,
        b,
        codec,
        options,
        dictionary,
        payload,
        context,
        extent.first_block_index,
        o,
        at_hand,
    );
}

/// The blocks of a stored object are read back.
pub proof fn stored_blocks_are_readable<C: ArchiveCodec>(
    d: Decoder,
    codec: &C,
    options: WriterOptions,
    dictionary: Option<Seq<u8>>,
    starts: Seq<Seq<u8>>,
    volumes: Seq<Seq<u8>>,
    o: WriterOptions,
    offset: int,
    payload: Seq<u8>,
    context: ObjectEncryptionContext,
    extent: ObjectExtent,
)
    requires
        undoes(d, codec, options, dictionary, o),
        keeps_lengths(codec),
        o.block_size > 0,
        o.stripe_width > 0,
        forall|v: int| 0 <= v < o.stripe_width ==> (#[trigger] starts[v]).len() == offset,
        is_stored(codec, volumes, o, offset, payload, context, extent),
    ensures
        encrypted_outcome(codec, payload, context, extent.first_block_index, o) matches Ok(x)
            && x.extent == extent && blocks_are_readable(d, starts, volumes, o, extent, x.records),
{
    let x = encrypted_outcome(codec, payload, context, extent.first_block_index, o)->Ok_0;
    let first = extent.first_block_index as int;
    let width = o.stripe_width as int;
    object_blocks_are_numbered(codec, payload, context, o, extent.first_block_index);
    assert forall|j: int| 0 <= j < x.records.len() implies read_block(
        d,
        starts,
        volumes,
        o,
        first + j,
    ).payload == (#[trigger] x.records[j]).payload by {
        let block = x.records[j];
        assert(lies_in_place(codec, volumes, o, offset, block));
        assert(block.block_index == first + j);
        vstd::arithmetic::div_mod::lemma_mod_bound(first + j, width);
        assert(starts[(first + j) % width].len() == offset);
        assert((d.block)(codec.block_bytes(block)) == block);
        assert(codec.block_bytes(block).len() == d.framing + block.payload.len());
    }
}

} // verus!
