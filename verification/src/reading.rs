//! Reading a written archive: what undoes the codec gives back what the sources contributed.
use crate::archive::{plan_emission, plan_payload_emission, replay_setting};
use crate::codec::{ArchiveCodec, ObjectDomain};
use crate::emit::{begun, home_volume, Emission};
use crate::foresight::{one_pass_writes_the_planned_payload, same_but_root_class};
use crate::keys::{KdfValue, Subkeys};
use crate::options::{ReaderCaps, WriterOptions};
use crate::plan::{PlanRequest, PlanValue};
use crate::planning::{is_source_plan, payload_outcome, RecordsAnswer};
use crate::profile::MetadataProfile;
use crate::readback::{
    block_bytes_in, blocks_are_found_in_their_volumes, closing_only_adds, envelope_setting,
    envelopes_are_written, envelopes_stand_in_line, holding_is_transitive, holds_all,
    one_pass_writes_every_envelope, payload_blocks, sealed_envelope,
    two_passes_write_every_envelope,
};
use crate::root_auth::PayloadObject;
use crate::rows::MemberValue;
use crate::seal::{encrypted_outcome, piece, pieces, sealed_payload, ObjectEncryptionContext};
use crate::seek::{
    envelope_bytes, envelopes_follow, frame_bytes, frames_are_closed, frames_follow, frames_hold,
    frames_lie_in_their_envelopes, group_of, held, held_grows, joined_groups, member_in_place,
    members_are_found_again, part_of, spans, taken,
};
use crate::shard::PayloadFrame;
use crate::single_pass::{sent_payload, stream_setting, DeclaredValue};
use crate::sink::ArchiveWriteSink;
use crate::source::SourceRun;
use crate::streaming::{StreamSetting, StreamingArchiveWriter};
use crate::suffix::{suffix_outcome, FooterAnswer};
use crate::wire::BlockValue;
use vstd::prelude::*;

verus! {

// ---------------------------------------------------------------------------------------------
// A reader
// ---------------------------------------------------------------------------------------------

/// What undoes a codec.
pub struct Decoder {
    /// The block of a record.
    pub block: spec_fn(Seq<u8>) -> BlockValue,
    /// Bytes of a record around the payload of its block.
    pub framing: nat,
    /// The payload of a sealed object.
    pub open: spec_fn(ObjectEncryptionContext, Seq<u8>) -> Seq<u8>,
    /// The bytes behind a compressed frame.
    pub inflate: spec_fn(Seq<u8>) -> Seq<u8>,
}

/// Whether `d` undoes the codec: records, sealing and compression. Parity is as much as asked
/// for, and as long as the data.
pub open spec fn undoes<C: ArchiveCodec>(
    d: Decoder,
    codec: &C,
    o: WriterOptions,
    dictionary: Option<Seq<u8>>,
    sealing: WriterOptions,
) -> bool {
    &&& forall|b: BlockValue|
        {
            &&& (d.block)(#[trigger] codec.block_bytes(b)) == b
            &&& codec.block_bytes(b).len() == d.framing + b.payload.len()
        }
    &&& forall|payload: Seq<u8>, context: ObjectEncryptionContext|
        (#[trigger] sealed_payload(codec, payload, context, sealing)) matches Ok(sealed) ==> (
        d.open)(context, sealed) == payload
    &&& forall|part: Seq<u8>|
        (#[trigger] frame_bytes(codec, o, dictionary, part)) matches Ok(frame) ==> frame.len() > 0
            && (d.inflate)(frame) == part
    &&& forall|shards: Seq<Seq<u8>>, count: nat|
        (#[trigger] codec.parity(shards, count)) matches Ok(parity) ==> (shards.len() > 0 ==> {
            &&& parity.len() == count
            &&& forall|i: int|
                0 <= i < count ==> (#[trigger] parity[i]).len() == shards[0].len()
        })
}

/// The block with a number: its record lies in the volume that the number names, behind the start
/// of the volume and the records of the smaller numbers there.
pub open spec fn read_block(
    d: Decoder,
    starts: Seq<Seq<u8>>,
    volumes: Seq<Seq<u8>>,
    o: WriterOptions,
    number: int,
) -> BlockValue {
    let width = o.stripe_width as int;
    let v = number % width;
    let len = d.framing + o.block_size;
    let at = starts[v].len() + len * (number / width);
    (d.block)(volumes[v].subrange(at, at + len))
}

/// The payloads of `count` blocks from number `first` on, joined.
pub open spec fn read_blocks(
    d: Decoder,
    starts: Seq<Seq<u8>>,
    volumes: Seq<Seq<u8>>,
    o: WriterOptions,
    first: int,
    count: nat,
) -> Seq<u8>
    decreases count,
{
    if count == 0 {
        Seq::empty()
    } else {
        read_blocks(d, starts, volumes, o, first, (count - 1) as nat) + read_block(
            d,
            starts,
            volumes,
            o,
            first + count - 1,
        ).payload
    }
}

/// The bytes of an envelope, from the data blocks that are recorded of it.
pub open spec fn read_envelope(
    d: Decoder,
    starts: Seq<Seq<u8>>,
    volumes: Seq<Seq<u8>>,
    s: StreamSetting,
    object: PayloadObject,
) -> Seq<u8> {
    (d.open)(
        s.seal.spec_context(ObjectDomain::Envelope, object.envelope_index, s.options),
        read_blocks(
            d,
            starts,
            volumes,
            s.options,
            object.object.first_block_index as int,
            object.object.data_block_count as nat,
        ),
    )
}

/// The part of the stream that a frame holds, from what is recorded of it.
pub open spec fn read_frame(
    d: Decoder,
    starts: Seq<Seq<u8>>,
    volumes: Seq<Seq<u8>>,
    s: StreamSetting,
    objects: Seq<PayloadObject>,
    frame: PayloadFrame,
) -> Seq<u8> {
    (d.inflate)(
        read_envelope(
            d,
            starts,
            volumes,
            s,
            objects[frame.envelope_index as int],
        ).subrange(
            frame.offset_in_envelope as int,
            frame.offset_in_envelope + frame.compressed_size,
        ),
    )
}

/// The frames from number `first` on, `count` of them, joined.
pub open spec fn read_frames(
    d: Decoder,
    starts: Seq<Seq<u8>>,
    volumes: Seq<Seq<u8>>,
    s: StreamSetting,
    objects: Seq<PayloadObject>,
    frames: Seq<PayloadFrame>,
    first: int,
    count: nat,
) -> Seq<u8>
    decreases count,
{
    if count == 0 {
        Seq::empty()
    } else {
        read_frames(d, starts, volumes, s, objects, frames, first, (count - 1) as nat)
            + read_frame(d, starts, volumes, s, objects, frames[first + count - 1])
    }
}

// ---------------------------------------------------------------------------------------------
// Blocks
// ---------------------------------------------------------------------------------------------

/// Numbers below `at` that belong to a volume.
pub open spec fn earlier_blocks(at: int, width: int, volume: int) -> int {
    if at % width > volume {
        at / width + 1
    } else {
        at / width
    }
}

proof fn one_more_number(at: int, width: int, volume: int)
    requires
        at >= 0,
        0 <= volume < width,
    ensures
        earlier_blocks(at + 1, width, volume) == earlier_blocks(at, width, volume) + if at % width
            == volume {
            1int
        } else {
            0
        },
{
    let q = at / width;
    let r = at % width;
    vstd::arithmetic::div_mod::lemma_fundamental_div_mod(at, width);
    vstd::arithmetic::div_mod::lemma_mod_bound(at, width);
    vstd::arithmetic::mul::lemma_mul_is_commutative(width, q);
    if r + 1 < width {
        vstd::arithmetic::div_mod::lemma_fundamental_div_mod_converse(at + 1, width, q, r + 1);
    } else {
        assert((q + 1) * width == q * width + width) by (nonlinear_arith);
        vstd::arithmetic::div_mod::lemma_fundamental_div_mod_converse(at + 1, width, q + 1, 0);
    }
}

/// Blocks that are numbered one after the other, all of one length, take as much of a volume as
/// there are numbers for it.
proof fn numbered_blocks_fill_evenly<C: ArchiveCodec>(
    codec: &C,
    width: u32,
    blocks: Seq<BlockValue>,
    len: int,
    count: nat,
    volume: int,
)
    requires
        0 <= volume < width,
        count <= blocks.len() <= u64::MAX,
        forall|i: int|
            0 <= i < blocks.len() ==> (#[trigger] blocks[i]).block_index == i && codec.block_bytes(
                blocks[i],
            ).len() == len,
    ensures
        block_bytes_in(codec, width, blocks, count, volume) == len * earlier_blocks(
            count as int,
            width as int,
            volume,
        ),
    decreases count,
{
    let w = width as int;
    if count == 0 {
        vstd::arithmetic::div_mod::lemma_fundamental_div_mod_converse(0, w, 0, 0);
        assert(len * 0 == 0) by (nonlinear_arith);
    } else {
        let before = (count - 1) as nat;
        numbered_blocks_fill_evenly(codec, width, blocks, len, before, volume);
        one_more_number(before as int, w, volume);
        let e = earlier_blocks(before as int, w, volume);
        assert(blocks[count - 1].block_index == count - 1);
        assert(len * (e + 1) == len * e + len) by (nonlinear_arith);
        assert(len * (e + 0) == len * e) by (nonlinear_arith);
    }
}

/// What sealing makes of an object, where the codec is undone.
pub(crate) proof fn sealed_objects_are_whole<C: ArchiveCodec>(
    d: Decoder,
    codec: &C,
    o: WriterOptions,
    dictionary: Option<Seq<u8>>,
    sealing: WriterOptions,
    payload: Seq<u8>,
    context: ObjectEncryptionContext,
    first: u64,
)
    requires
        undoes(d, codec, o, dictionary, sealing),
        sealing.block_size > 0,
    ensures
        encrypted_outcome(codec, payload, context, first, sealing) matches Ok(x) ==> {
            let sealed = sealed_payload(codec, payload, context, sealing)->Ok_0;
            &&& x.records.len() == x.extent.total()
            &&& x.extent.first_block_index == first
            &&& first + x.extent.total() <= u64::MAX
            &&& sealed_payload(codec, payload, context, sealing) is Ok
            &&& x.extent.data_block_count * sealing.block_size == sealed.len()
            &&& forall|j: int|
                0 <= j < x.records.len() ==> {
                    &&& (#[trigger] x.records[j]).block_index == first + j
                    &&& x.records[j].payload.len() == sealing.block_size
                    &&& j < x.extent.data_block_count ==> x.records[j].payload == piece(
                        sealed,
                        sealing.block_size as int,
                        j,
                    )
                }
        },
{
    if let Ok(x) = encrypted_outcome(codec, payload, context, first, sealing) {
        let sealed = sealed_payload(codec, payload, context, sealing)->Ok_0;
        let size = sealing.block_size as int;
        let n = sealed.len() as int / size;
        vstd::arithmetic::div_mod::lemma_fundamental_div_mod(sealed.len() as int, size);
        assert(n <= sealed.len()) by (nonlinear_arith)
            requires
                sealed.len() == size * n,
                size >= 1,
                n >= 0,
        ;
        assert(n * size == sealed.len()) by (nonlinear_arith)
            requires
                sealed.len() == size * n,
        ;
        let shards = pieces(sealed, size, n);
        assert forall|i: int| 0 <= i < n implies (#[trigger] piece(sealed, size, i)).len()
            == size by {
            assert(0 <= i * size && (i + 1) * size <= n * size && (i + 1) * size - i * size == size)
                by (nonlinear_arith)
                requires
                    0 <= i < n,
                    size >= 1,
            ;
        }
        assert(shards[0].len() == size);
        assert forall|j: int| 0 <= j < x.records.len() implies {
            &&& (#[trigger] x.records[j]).block_index == first + j
            &&& x.records[j].payload.len() == sealing.block_size
            &&& j < x.extent.data_block_count ==> x.records[j].payload == piece(sealed, size, j)
        } by {
            if j < n {
                assert(piece(sealed, size, j).len() == size);
            }
        }
    }
}

/// The blocks of a payload are numbered one after the other, and all of one length.
pub(crate) proof fn payload_blocks_are_numbered<C: ArchiveCodec>(
    d: Decoder,
    codec: &C,
    o: WriterOptions,
    dictionary: Option<Seq<u8>>,
    s: StreamSetting,
    stream: Seq<u8>,
    frames: Seq<PayloadFrame>,
    objects: Seq<PayloadObject>,
    count: nat,
)
    requires
        undoes(d, codec, o, dictionary, s.options),
        s.options.block_size > 0,
        count <= objects.len(),
        envelopes_follow(objects, frames),
        forall|k: int|
            0 <= k < objects.len() ==> {
                &&& sealed_envelope(
                    codec,
                    o,
                    dictionary,
                    s,
                    stream,
                    frames,
                    k,
                    (#[trigger] objects[k]).object.first_block_index,
                ) matches Ok(x)
                &&& x.extent == objects[k].object
            },
    ensures
        ({
            let blocks = payload_blocks(
                codec,
                o,
                dictionary,
                s,
                stream,
                frames,
                objects,
                count,
            );
            &&& blocks.len() == taken(objects, count)
            &&& blocks.len() <= u64::MAX
            &&& forall|i: int|
                0 <= i < blocks.len() ==> {
                    &&& (#[trigger] blocks[i]).block_index == i
                    &&& blocks[i].payload.len() == s.options.block_size
                }
        }),
    decreases count,
{
    if count > 0 {
        let k = count - 1;
        payload_blocks_are_numbered(
            d,
            codec,
            o,
            dictionary,
            s,
            stream,
            frames,
            objects,
            k as nat,
        );
        let before = payload_blocks(
            codec,
            o,
            dictionary,
            s,
            stream,
            frames,
            objects,
            k as nat,
        );
        let first = objects[k].object.first_block_index;
        assert(first == taken(objects, k as nat));
        sealed_objects_are_whole(
            d,
            codec,
            o,
            dictionary,
            s.options,
            envelope_bytes(codec, o, dictionary, stream, frames, frames.len(), k),
            s.seal.spec_context(ObjectDomain::Envelope, k as u64, s.options),
            first,
        );
        let x = sealed_envelope(codec, o, dictionary, s, stream, frames, k, first)->Ok_0;
        let blocks = payload_blocks(codec, o, dictionary, s, stream, frames, objects, count);
        assert(blocks == before + x.records);
        assert forall|i: int| 0 <= i < blocks.len() implies {
            &&& (#[trigger] blocks[i]).block_index == i
            &&& blocks[i].payload.len() == s.options.block_size
        } by {
            if i < before.len() {
                assert(blocks[i] == before[i]);
            } else {
                assert(blocks[i] == x.records[i - before.len()]);
            }
        }
    }
}

/// Whether `volumes` begin with a payload that was written: its frames and envelopes are in order,
/// and its envelopes were written behind `start`.
#[verifier::opaque]
pub open spec fn begins_with_payload<C: ArchiveCodec>(
    codec: &C,
    o: WriterOptions,
    dictionary: Option<Seq<u8>>,
    s: StreamSetting,
    start: Emission,
    stream: Seq<u8>,
    frames: Seq<PayloadFrame>,
    objects: Seq<PayloadObject>,
    closed: Emission,
) -> bool {
    &&& start.wf(s.options.stripe_width)
    &&& frames_follow(frames)
    &&& frames_hold(codec, o, dictionary, frames, stream)
    &&& envelopes_follow(objects, frames)
    &&& frames_are_closed(frames, objects)
    &&& exists|e: Emission| #[trigger]
        envelopes_are_written(codec, o, dictionary, s, start, stream, frames, objects, e)
            && holds_all(e, closed, s.options.stripe_width)
}

/// What is written behind a payload leaves it there.
pub(crate) proof fn payloads_stay<C: ArchiveCodec>(
    codec: &C,
    o: WriterOptions,
    dictionary: Option<Seq<u8>>,
    s: StreamSetting,
    start: Emission,
    stream: Seq<u8>,
    frames: Seq<PayloadFrame>,
    objects: Seq<PayloadObject>,
    before: Emission,
    after: Emission,
)
    requires
        begins_with_payload(
            codec,
            o,
            dictionary,
            s,
            start,
            stream,
            frames,
            objects,
            before,
        ),
        holds_all(before, after, s.options.stripe_width),
    ensures
        begins_with_payload(codec, o, dictionary, s, start, stream, frames, objects, after),
{
    reveal(begins_with_payload);
    let e = choose|e: Emission| #[trigger]
        envelopes_are_written(codec, o, dictionary, s, start, stream, frames, objects, e)
            && holds_all(e, before, s.options.stripe_width);
    holding_is_transitive(e, before, after, s.options.stripe_width);
}

/// Every block is read back by its number.
#[verifier::rlimit(40)]
#[verifier::spinoff_prover]
pub(crate) proof fn blocks_read_back<C: ArchiveCodec>(
    d: Decoder,
    codec: &C,
    o: WriterOptions,
    dictionary: Option<Seq<u8>>,
    s: StreamSetting,
    start: Emission,
    stream: Seq<u8>,
    frames: Seq<PayloadFrame>,
    objects: Seq<PayloadObject>,
    closed: Emission,
)
    requires
        undoes(d, codec, o, dictionary, s.options),
        s.options.block_size > 0,
        begins_with_payload(
            codec,
            o,
            dictionary,
            s,
            start,
            stream,
            frames,
            objects,
            closed,
        ),
    ensures
        ({
            let blocks = payload_blocks(
                codec,
                o,
                dictionary,
                s,
                stream,
                frames,
                objects,
                objects.len(),
            );
            forall|i: int|
                0 <= i < blocks.len() ==> read_block(
                    d,
                    start.volumes,
                    closed.volumes,
                    s.options,
                    i,
                ) == #[trigger] blocks[i]
        }),
{
    reveal(begins_with_payload);
    let e = choose|e: Emission| #[trigger]
        envelopes_are_written(codec, o, dictionary, s, start, stream, frames, objects, e)
            && holds_all(e, closed, s.options.stripe_width);
    reveal(envelopes_are_written);
    let blocks = payload_blocks(
        codec,
        o,
        dictionary,
        s,
        stream,
        frames,
        objects,
        objects.len(),
    );
    let width = s.options.stripe_width;
    let len = d.framing + s.options.block_size;
    payload_blocks_are_numbered(
        d,
        codec,
        o,
        dictionary,
        s,
        stream,
        frames,
        objects,
        objects.len(),
    );
    blocks_are_found_in_their_volumes(
        codec,
        Emission { next_block_index: e.next_block_index, ..start },
        width,
        s.rev,
        blocks,
        blocks.len(),
    );
    assert forall|i: int| 0 <= i < blocks.len() implies read_block(
        d,
        start.volumes,
        closed.volumes,
        s.options,
        i,
    ) == #[trigger] blocks[i] by {
        let v = home_volume(blocks[i].block_index, width);
        assert(v == i % width as int);
        vstd::arithmetic::div_mod::lemma_mod_bound(i, width as int);
        vstd::arithmetic::div_mod::lemma_div_pos_is_pos(i, width as int);
        assert forall|j: int| 0 <= j < blocks.len() implies (
        #[trigger] blocks[j]).block_index == j && codec.block_bytes(blocks[j]).len() == len by {
            assert(codec.block_bytes(blocks[j]).len() == d.framing + blocks[j].payload.len());
        }
        numbered_blocks_fill_evenly(codec, width, blocks, len, i as nat, v);
        let at = start.volumes[v].len() + len * (i / width as int);
        assert(len * (i / width as int) >= 0) by (nonlinear_arith)
            requires
                len >= 0,
                i / width as int >= 0,
        ;
        assert(e.volumes[v].subrange(at, at + len) == codec.block_bytes(blocks[i]));
        assert(e.volumes[v].is_prefix_of(closed.volumes[v]));
        assert(closed.volumes[v].subrange(at, at + len) =~= e.volumes[v].subrange(at, at + len));
    }
}

/// The data blocks of an object, joined, are the sealed object.
pub(crate) proof fn pieces_make_the_whole(
    d: Decoder,
    starts: Seq<Seq<u8>>,
    volumes: Seq<Seq<u8>>,
    o: WriterOptions,
    first: int,
    sealed: Seq<u8>,
    count: nat,
)
    requires
        o.block_size > 0,
        count * o.block_size <= sealed.len(),
        forall|j: int|
            0 <= j < count ==> (#[trigger] read_block(
                d,
                starts,
                volumes,
                o,
                first + j,
            )).payload == piece(sealed, o.block_size as int, j),
    ensures
        read_blocks(d, starts, volumes, o, first, count) == sealed.take(count * o.block_size),
    decreases count,
{
    let size = o.block_size as int;
    if count == 0 {
        assert(0 * size == 0) by (nonlinear_arith);
        assert(sealed.take(0) =~= Seq::empty());
    } else {
        let n = count - 1;
        assert(0 <= n * size && n * size + size == count * size) by (nonlinear_arith)
            requires
                count == n + 1,
                n >= 0,
                size > 0,
        ;
        pieces_make_the_whole(d, starts, volumes, o, first, sealed, n as nat);
        assert(read_block(d, starts, volumes, o, first + n).payload == piece(sealed, size, n));
        assert((n + 1) * size == count * size);
        assert(sealed.take(n * size) + sealed.subrange(n * size, count * size) =~= sealed.take(
            count * size,
        ));
    }
}

/// Every envelope is read back from what is recorded of it.
#[verifier::rlimit(40)]
#[verifier::spinoff_prover]
pub proof fn envelopes_read_back<C: ArchiveCodec>(
    d: Decoder,
    codec: &C,
    o: WriterOptions,
    dictionary: Option<Seq<u8>>,
    s: StreamSetting,
    start: Emission,
    stream: Seq<u8>,
    frames: Seq<PayloadFrame>,
    objects: Seq<PayloadObject>,
    closed: Emission,
    k: int,
)
    requires
        undoes(d, codec, o, dictionary, s.options),
        s.options.block_size > 0,
        begins_with_payload(
            codec,
            o,
            dictionary,
            s,
            start,
            stream,
            frames,
            objects,
            closed,
        ),
        0 <= k < objects.len(),
    ensures
        read_envelope(d, start.volumes, closed.volumes, s, objects[k]) == envelope_bytes(
            codec,
            o,
            dictionary,
            stream,
            frames,
            frames.len(),
            k,
        ),
{
    blocks_read_back(d, codec, o, dictionary, s, start, stream, frames, objects, closed);
    reveal(begins_with_payload);
    let e = choose|e: Emission| #[trigger]
        envelopes_are_written(codec, o, dictionary, s, start, stream, frames, objects, e)
            && holds_all(e, closed, s.options.stripe_width);
    reveal(envelopes_are_written);
    let payload = envelope_bytes(codec, o, dictionary, stream, frames, frames.len(), k);
    let context = s.seal.spec_context(ObjectDomain::Envelope, k as u64, s.options);
    let first = objects[k].object.first_block_index;
    sealed_objects_are_whole(d, codec, o, dictionary, s.options, payload, context, first);
    let x = sealed_envelope(codec, o, dictionary, s, stream, frames, k, first)->Ok_0;
    let sealed = sealed_payload(codec, payload, context, s.options)->Ok_0;
    let all = payload_blocks(
        codec,
        o,
        dictionary,
        s,
        stream,
        frames,
        objects,
        objects.len(),
    );
    payload_blocks_are_numbered(
        d,
        codec,
        o,
        dictionary,
        s,
        stream,
        frames,
        objects,
        k as nat,
    );
    envelopes_stand_in_line(
        codec,
        o,
        dictionary,
        s,
        stream,
        frames,
        objects,
        objects.len(),
        k,
    );
    let count = objects[k].object.data_block_count as nat;
    assert forall|j: int| 0 <= j < count implies (#[trigger] read_block(
        d,
        start.volumes,
        closed.volumes,
        s.options,
        first + j,
    )).payload == piece(sealed, s.options.block_size as int, j) by {
        assert(all.subrange(first as int, first + x.records.len())[j] == all[first + j]);
        assert(all[first + j] == x.records[j]);
    }
    pieces_make_the_whole(
        d,
        start.volumes,
        closed.volumes,
        s.options,
        first as int,
        sealed,
        count,
    );
    assert(sealed.take(count * s.options.block_size) =~= sealed);
}

// ---------------------------------------------------------------------------------------------
// Frames and members
// ---------------------------------------------------------------------------------------------

/// Every frame is read back from what is recorded of it.
pub proof fn frames_read_back<C: ArchiveCodec>(
    d: Decoder,
    codec: &C,
    o: WriterOptions,
    dictionary: Option<Seq<u8>>,
    s: StreamSetting,
    start: Emission,
    stream: Seq<u8>,
    frames: Seq<PayloadFrame>,
    objects: Seq<PayloadObject>,
    closed: Emission,
    k: int,
)
    requires
        undoes(d, codec, o, dictionary, s.options),
        s.options.block_size > 0,
        begins_with_payload(
            codec,
            o,
            dictionary,
            s,
            start,
            stream,
            frames,
            objects,
            closed,
        ),
        0 <= k < frames.len(),
    ensures
        read_frame(d, start.volumes, closed.volumes, s, objects, frames[k]) == part_of(
            stream,
            frames[k],
        ),
{
    reveal(begins_with_payload);
    let f = frames[k];
    assert(frame_bytes(codec, o, dictionary, part_of(stream, f)) is Ok);
    assert(f.compressed_size > 0);
    envelopes_read_back(
        d,
        codec,
        o,
        dictionary,
        s,
        start,
        stream,
        frames,
        objects,
        closed,
        f.envelope_index as int,
    );
    frames_lie_in_their_envelopes(codec, o, dictionary, stream, frames, frames.len(), k);
}

#[verifier::rlimit(40)]
#[verifier::spinoff_prover]
proof fn runs_of_frames_read_back<C: ArchiveCodec>(
    d: Decoder,
    codec: &C,
    o: WriterOptions,
    dictionary: Option<Seq<u8>>,
    s: StreamSetting,
    start: Emission,
    stream: Seq<u8>,
    frames: Seq<PayloadFrame>,
    objects: Seq<PayloadObject>,
    closed: Emission,
    first: int,
    count: nat,
)
    requires
        undoes(d, codec, o, dictionary, s.options),
        s.options.block_size > 0,
        begins_with_payload(
            codec,
            o,
            dictionary,
            s,
            start,
            stream,
            frames,
            objects,
            closed,
        ),
        0 <= first <= first + count <= frames.len(),
    ensures
        read_frames(
            d,
            start.volumes,
            closed.volumes,
            s,
            objects,
            frames,
            first,
            count,
        ) == stream.subrange(held(frames, first as nat), held(frames, (first + count) as nat)),
    decreases count,
{
    assert(frames_follow(frames) && held(frames, frames.len()) == stream.len()) by {
        reveal(begins_with_payload);
    }
    held_grows(frames, first as nat, (first + count) as nat);
    held_grows(frames, (first + count) as nat, frames.len());
    let from = held(frames, first as nat);
    if count == 0 {
        assert(stream.subrange(from, from) =~= Seq::empty());
    } else {
        let k = first + count - 1;
        runs_of_frames_read_back(
            d,
            codec,
            o,
            dictionary,
            s,
            start,
            stream,
            frames,
            objects,
            closed,
            first,
            (count - 1) as nat,
        );
        frames_read_back(
            d,
            codec,
            o,
            dictionary,
            s,
            start,
            stream,
            frames,
            objects,
            closed,
            k,
        );
        held_grows(frames, first as nat, k as nat);
        let middle = held(frames, k as nat);
        let to = held(frames, (k + 1) as nat);
        assert(frames[k].tar_stream_offset == middle);
        assert(stream.subrange(from, middle) + stream.subrange(middle, to) =~= stream.subrange(
            from,
            to,
        ));
    }
}

/// A member whose frames are known is read back: its frames, joined, are its part of the stream.
pub proof fn members_read_back<C: ArchiveCodec>(
    d: Decoder,
    codec: &C,
    o: WriterOptions,
    dictionary: Option<Seq<u8>>,
    s: StreamSetting,
    start: Emission,
    stream: Seq<u8>,
    frames: Seq<PayloadFrame>,
    objects: Seq<PayloadObject>,
    closed: Emission,
    member: MemberValue,
    index: int,
    first: int,
    end: int,
)
    requires
        undoes(d, codec, o, dictionary, s.options),
        s.options.block_size > 0,
        begins_with_payload(
            codec,
            o,
            dictionary,
            s,
            start,
            stream,
            frames,
            objects,
            closed,
        ),
        spans(frames, member, index, first, end),
    ensures
        read_frames(
            d,
            start.volumes,
            closed.volumes,
            s,
            objects,
            frames,
            first,
            (end - first) as nat,
        ) == stream.subrange(
            member.tar_member_group_start as int,
            member.tar_member_group_start + member.tar_member_group_size,
        ),
{
    runs_of_frames_read_back(
        d,
        codec,
        o,
        dictionary,
        s,
        start,
        stream,
        frames,
        objects,
        closed,
        first,
        (end - first) as nat,
    );
}

// ---------------------------------------------------------------------------------------------
// Archives
// ---------------------------------------------------------------------------------------------

/// Whether a member is read back from what is recorded of its frames and envelopes.
pub open spec fn reads_back(
    d: Decoder,
    starts: Seq<Seq<u8>>,
    volumes: Seq<Seq<u8>>,
    s: StreamSetting,
    objects: Seq<PayloadObject>,
    frames: Seq<PayloadFrame>,
    member: MemberValue,
    index: int,
    group: Seq<u8>,
) -> bool {
    exists|first: int, end: int| #[trigger]
        spans(frames, member, index, first, end) && read_frames(
            d,
            starts,
            volumes,
            s,
            objects,
            frames,
            first,
            (end - first) as nat,
        ) == group
}

pub(crate) proof fn members_in_place_read_back<C: ArchiveCodec>(
    d: Decoder,
    codec: &C,
    o: WriterOptions,
    dictionary: Option<Seq<u8>>,
    s: StreamSetting,
    start: Emission,
    stream: Seq<u8>,
    frames: Seq<PayloadFrame>,
    objects: Seq<PayloadObject>,
    closed: Emission,
    member: MemberValue,
    index: int,
    group: Seq<u8>,
)
    requires
        undoes(d, codec, o, dictionary, s.options),
        s.options.block_size > 0,
        begins_with_payload(
            codec,
            o,
            dictionary,
            s,
            start,
            stream,
            frames,
            objects,
            closed,
        ),
        member_in_place(frames, stream, member, index, group),
    ensures
        reads_back(
            d,
            start.volumes,
            closed.volumes,
            s,
            objects,
            frames,
            member,
            index,
            group,
        ),
{
    let (first, end) = choose|first: int, end: int| #[trigger]
        spans(frames, member, index, first, end);
    members_read_back(
        d,
        codec,
        o,
        dictionary,
        s,
        start,
        stream,
        frames,
        objects,
        closed,
        member,
        index,
        first,
        end,
    );
    assert(spans(frames, member, index, first, end));
}

/// An archive that is planned and then written, from sources that say the same both times, gives
/// every member back: what undoes the codec reads the tar records of each source from the
/// volumes, by the frames and envelopes that the plan records.
#[verifier::rlimit(40)]
#[verifier::spinoff_prover]
pub proof fn planned_archives_read_back<C: ArchiveCodec + MetadataProfile, O: ArchiveWriteSink>(
    d: Decoder,
    codec: &C,
    plan: PlanValue,
    subkeys: Subkeys,
    collect: bool,
    runs: Seq<SourceRun>,
    records: RecordsAnswer,
    o: WriterOptions,
    dictionary: Option<Seq<u8>>,
    kdf: KdfValue,
    request: PlanRequest,
    caps: ReaderCaps,
    answer: FooterAnswer,
)
    requires
        o.block_size > 0,
        o.chunk_size > 0,
        o.stripe_width > 0,
        runs.len() <= usize::MAX,
        is_source_plan(codec, runs, records, o, dictionary, kdf, request, Ok(plan)),
        undoes(d, codec, o, dictionary, plan.options),
    ensures
        plan_emission::<C, O>(
            codec,
            plan,
            subkeys,
            collect,
            dictionary,
            runs,
            caps,
            answer,
        ) matches Ok(closed) ==> {
            let start = begun(
                codec,
                plan.options.stripe_width,
                plan.crypto_header.bytes,
                plan.key_wrap_table,
                plan.archive_uuid,
                plan.session_id,
                plan.volume_format_rev,
                collect,
            )->Ok_0;
            &&& closed.emission.volumes.len() == plan.options.stripe_width
            &&& plan.members.len() == runs.len()
            &&& forall|i: int|
                0 <= i < runs.len() ==> reads_back(
                    d,
                    start.volumes,
                    closed.emission.volumes,
                    envelope_setting(replay_setting(codec, plan, subkeys)),
                    plan.objects,
                    plan.frames,
                    #[trigger] plan.members[i],
                    i,
                    group_of(codec, o, runs[i]),
                )
        },
{
    if let Ok(closed) = plan_emission::<C, O>(
        codec,
        plan,
        subkeys,
        collect,
        dictionary,
        runs,
        caps,
        answer,
    ) {
        let e = plan_payload_emission::<C, O>(
            codec,
            plan,
            subkeys,
            collect,
            dictionary,
            runs,
        )->Ok_0;
        let start = begun(
            codec,
            plan.options.stripe_width,
            plan.crypto_header.bytes,
            plan.key_wrap_table,
            plan.archive_uuid,
            plan.session_id,
            plan.volume_format_rev,
            collect,
        )->Ok_0;
        let s = envelope_setting(replay_setting(codec, plan, subkeys));
        let stream = joined_groups(codec, o, runs, runs.len());
        let planned = payload_outcome(codec, runs, o, dictionary)->Ok_0;
        assert(plan.members == planned.payload.members);
        assert(plan.frames == planned.payload.frames);
        assert(plan.objects == planned.payload.objects);
        assert(same_but_root_class(o, plan.options));
        members_are_found_again(codec, o, dictionary, runs);
        two_passes_write_every_envelope::<C, O>(
            codec,
            plan,
            subkeys,
            collect,
            runs,
            records,
            o,
            dictionary,
            kdf,
            request,
        );
        written_envelopes_leave_order(
            codec,
            o,
            dictionary,
            s,
            start,
            stream,
            plan.frames,
            plan.objects,
            e,
        );
        closing_only_adds(
            codec,
            e,
            plan,
            subkeys,
            replay_setting(codec, plan, subkeys).headers,
            plan.volume_format_rev,
            caps,
            answer,
        );
        assert(begins_with_payload(
            codec,
            o,
            dictionary,
            s,
            start,
            stream,
            plan.frames,
            plan.objects,
            closed.emission,
        )) by {
            reveal(begins_with_payload);
        }
        assert forall|i: int| 0 <= i < runs.len() implies reads_back(
            d,
            start.volumes,
            closed.emission.volumes,
            s,
            plan.objects,
            plan.frames,
            #[trigger] plan.members[i],
            i,
            group_of(codec, o, runs[i]),
        ) by {
            members_in_place_read_back(
                d,
                codec,
                o,
                dictionary,
                s,
                start,
                stream,
                plan.frames,
                plan.objects,
                closed.emission,
                plan.members[i],
                i,
                group_of(codec, o, runs[i]),
            );
        }
    }
}

/// An archive that was written while its sources were read, and then closed with the metadata of
/// some plan, gives every member back in the same way.
#[verifier::rlimit(40)]
#[verifier::spinoff_prover]
pub proof fn streamed_archives_read_back<C: ArchiveCodec + MetadataProfile, O: ArchiveWriteSink>(
    d: Decoder,
    codec: &C,
    declared: DeclaredValue,
    o: WriterOptions,
    request: PlanRequest,
    runs: Seq<SourceRun>,
    plan: PlanValue,
    headers: Seq<Seq<u8>>,
    caps: ReaderCaps,
    answer: FooterAnswer,
)
    requires
        o.block_size > 0,
        o.chunk_size > 0,
        o.stripe_width > 0,
        runs.len() <= usize::MAX,
        plan.options.stripe_width == o.stripe_width,
        undoes(d, codec, o, None, o),
    ensures
        sent_payload::<C, O, StreamingArchiveWriter>(codec, declared, o, request, runs) matches Ok(
            sent,
        ) ==> (suffix_outcome(
            codec,
            sent.value.emission,
            plan,
            declared.subkeys,
            headers,
            request.volume_format_rev,
            caps,
            answer,
        ) matches Ok(closed) ==> {
            let start = begun(
                codec,
                o.stripe_width,
                declared.header.bytes,
                declared.table,
                request.archive_uuid,
                request.session_id,
                request.volume_format_rev,
                request.root_auth is Some,
            )->Ok_0;
            &&& sent.members.len() == runs.len()
            &&& forall|i: int|
                0 <= i < runs.len() ==> reads_back(
                    d,
                    start.volumes,
                    closed.emission.volumes,
                    stream_setting(codec, declared, o, request),
                    sent.value.pack.objects,
                    sent.value.pack.frames,
                    #[trigger] sent.members[i],
                    i,
                    group_of(codec, o, runs[i]),
                )
        }),
{
    if let Ok(sent) = sent_payload::<C, O, StreamingArchiveWriter>(
        codec,
        declared,
        o,
        request,
        runs,
    ) {
        if let Ok(closed) = suffix_outcome(
            codec,
            sent.value.emission,
            plan,
            declared.subkeys,
            headers,
            request.volume_format_rev,
            caps,
            answer,
        ) {
            let start = begun(
                codec,
                o.stripe_width,
                declared.header.bytes,
                declared.table,
                request.archive_uuid,
                request.session_id,
                request.volume_format_rev,
                request.root_auth is Some,
            )->Ok_0;
            let s = stream_setting(codec, declared, o, request);
            let stream = joined_groups(codec, o, runs, runs.len());
            let frames = sent.value.pack.frames;
            let objects = sent.value.pack.objects;
            one_pass_writes_the_planned_payload::<C, O>(codec, declared, o, request, runs);
            members_are_found_again(codec, o, None, runs);
            one_pass_writes_every_envelope::<C, O>(codec, declared, o, request, runs);
            written_envelopes_leave_order(
                codec,
                o,
                None,
                s,
                start,
                stream,
                frames,
                objects,
                sent.value.emission,
            );
            closing_only_adds(
                codec,
                sent.value.emission,
                plan,
                declared.subkeys,
                headers,
                request.volume_format_rev,
                caps,
                answer,
            );
            assert(begins_with_payload(
                codec,
                o,
                None,
                s,
                start,
                stream,
                frames,
                objects,
                closed.emission,
            )) by {
                reveal(begins_with_payload);
            }
            assert forall|i: int| 0 <= i < runs.len() implies reads_back(
                d,
                start.volumes,
                closed.emission.volumes,
                s,
                objects,
                frames,
                #[trigger] sent.members[i],
                i,
                group_of(codec, o, runs[i]),
            ) by {
                members_in_place_read_back(
                    d,
                    codec,
                    o,
                    None,
                    s,
                    start,
                    stream,
                    frames,
                    objects,
                    closed.emission,
                    sent.members[i],
                    i,
                    group_of(codec, o, runs[i]),
                );
            }
        }
    }
}

/// An archive stays in order while envelopes are written.
pub(crate) proof fn written_envelopes_leave_order<C: ArchiveCodec>(
    codec: &C,
    o: WriterOptions,
    dictionary: Option<Seq<u8>>,
    s: StreamSetting,
    start: Emission,
    stream: Seq<u8>,
    frames: Seq<PayloadFrame>,
    objects: Seq<PayloadObject>,
    e: Emission,
)
    requires
        start.wf(s.options.stripe_width),
        envelopes_are_written(codec, o, dictionary, s, start, stream, frames, objects, e),
    ensures
        e.wf(s.options.stripe_width),
{
    reveal(envelopes_are_written);
    let blocks = payload_blocks(
        codec,
        o,
        dictionary,
        s,
        stream,
        frames,
        objects,
        objects.len(),
    );
    blocks_are_found_in_their_volumes(
        codec,
        Emission { next_block_index: e.next_block_index, ..start },
        s.options.stripe_width,
        s.rev,
        blocks,
        blocks.len(),
    );
}

} // verus!
