//! Finding the envelopes of an archive in its volumes again.
use crate::archive::{plan_payload_emission, replay_setting};
use crate::capture::{captured, prepared};
use crate::codec::{ArchiveCodec, ObjectDomain};
use crate::emit::{begun, home_volume, with_blocks, with_object, Emission};
use crate::errors::{ArchiveWriteError, FormatError};
use crate::foresight::{
    chosen_frame_ignores_the_root_class, covered_by_growth, flush_ignores_the_root_class,
    frames_are_written_as_planned, in_step, is_covered, is_level, members_only_add, planned_members,
    same_but_root_class, sources_only_add, streamed_envelopes_are_planned,
    streamed_frames_are_planned, streamed_sources_are_planned,
};
use crate::index_plan::MetadataObjectValue;
use crate::keys::{KdfValue, Subkeys};
use crate::members::{with_member, with_members, MembersValue};
use crate::object_plan::{MetadataObjectKind, ObjectExtent};
use crate::objects::{body_outcome, with_dictionary, with_metadata_objects, ArchiveSeal};
use crate::options::{ReaderCaps, WriterOptions};
use crate::packing::{flushed_plan, nothing_packed, planned_frame, PackValue, PayloadPacking};
use crate::payload::{
    chosen_frames_hold_bytes, framed_member, needs_flush, next_chunk_len, next_frame, FramePlace,
    Framing,
};
use crate::plan::{PlanRequest, PlanValue};
use crate::planning::{is_source_plan, payload_outcome, RecordsAnswer};
use crate::profile::MetadataProfile;
use crate::replay::{
    flushed_replay, nothing_replayed, replayed_frame, replayed_member, replayed_members,
    PayloadReplay, ReplaySetting, ReplayValue,
};
use crate::root_auth::PayloadObject;
use crate::seal::{encrypted_outcome, EncryptedValue, ObjectEncryptionContext};
use crate::seek::{
    closing_keeps_order, envelope_bytes, envelope_bytes_are_local, fitting_frames_are_short,
    frame_bytes, frame_keeps_order, framing_keeps_order, is_packed, joined_groups, member_packed,
    members_feed_their_group, packing_keeps_order,
};
use crate::shard::PayloadFrame;
use crate::single_pass::{sent_payload, stream_setting, DeclaredValue};
use crate::sink::ArchiveWriteSink;
use crate::source::SourceRun;
use crate::stream::{feed_of, Feed};
use crate::streaming::{
    flushed_stream, streamed_frame, StreamSetting, StreamValue, StreamingArchiveWriter,
};
use crate::suffix::{suffix_outcome, with_part, with_tails, FooterAnswer};
use crate::wire::BlockValue;
use vstd::prelude::*;

verus! {

// ---------------------------------------------------------------------------------------------
// Blocks in volumes
// ---------------------------------------------------------------------------------------------

/// Bytes that the first `count` of some blocks take in a volume.
pub open spec fn block_bytes_in<C: ArchiveCodec>(
    codec: &C,
    stripe_width: u32,
    blocks: Seq<BlockValue>,
    count: nat,
    volume: int,
) -> int
    decreases count,
{
    if count == 0 {
        0
    } else {
        let before = block_bytes_in(codec, stripe_width, blocks, (count - 1) as nat, volume);
        if home_volume(blocks[count - 1].block_index, stripe_width) == volume {
            before + codec.block_bytes(blocks[count - 1]).len()
        } else {
            before
        }
    }
}

/// Every block that was written is found in its volume, behind what the volume held before and
/// the earlier blocks of that volume; what the volume held before is still in front.
#[verifier::rlimit(40)]
#[verifier::spinoff_prover]
pub proof fn blocks_are_found_in_their_volumes<C: ArchiveCodec>(
    codec: &C,
    e: Emission,
    stripe_width: u32,
    rev: u16,
    blocks: Seq<BlockValue>,
    count: nat,
)
    requires
        e.wf(stripe_width),
        count <= blocks.len(),
    ensures
        with_blocks(codec, e, stripe_width, rev, blocks, count) matches Ok(after) ==> {
            &&& after.wf(stripe_width)
            &&& forall|v: int|
                0 <= v < stripe_width ==> {
                    &&& (#[trigger] after.volumes[v]).len() == e.volumes[v].len() + block_bytes_in(
                        codec,
                        stripe_width,
                        blocks,
                        count,
                        v,
                    )
                    &&& e.volumes[v].len() <= after.volumes[v].len()
                    &&& after.volumes[v].take(e.volumes[v].len() as int) == e.volumes[v]
                }
            &&& forall|k: int|
                0 <= k < count ==> {
                    let v = home_volume((#[trigger] blocks[k]).block_index, stripe_width);
                    let at = e.volumes[v].len() + block_bytes_in(
                        codec,
                        stripe_width,
                        blocks,
                        k as nat,
                        v,
                    );
                    let bytes = codec.block_bytes(blocks[k]);
                    &&& 0 <= v < stripe_width
                    &&& at + bytes.len() <= after.volumes[v].len()
                    &&& after.volumes[v].subrange(at, at + bytes.len()) == bytes
                }
        },
    decreases count,
{
    if count == 0 {
        assert forall|v: int| 0 <= v < stripe_width implies (#[trigger] e.volumes[v]).take(
            e.volumes[v].len() as int,
        ) == e.volumes[v] by {
            assert(e.volumes[v].take(e.volumes[v].len() as int) =~= e.volumes[v]);
        }
    } else {
        let last = (count - 1) as nat;
        blocks_are_found_in_their_volumes(codec, e, stripe_width, rev, blocks, last);
        if let Ok(after) = with_blocks(codec, e, stripe_width, rev, blocks, count) {
            let before = with_blocks(codec, e, stripe_width, rev, blocks, last)->Ok_0;
            let block = blocks[count - 1];
            let home = home_volume(block.block_index, stripe_width);
            let new = codec.block_bytes(block);
            crate::emit::blocks_go_home(codec, before, stripe_width, rev, block);
            assert(0 <= home < stripe_width);
            assert forall|v: int| 0 <= v < stripe_width implies {
                &&& (#[trigger] after.volumes[v]).len() == e.volumes[v].len() + block_bytes_in(
                    codec,
                    stripe_width,
                    blocks,
                    count,
                    v,
                )
                &&& e.volumes[v].len() <= after.volumes[v].len()
                &&& after.volumes[v].take(e.volumes[v].len() as int) == e.volumes[v]
            } by {
                assert(before.volumes[v].take(e.volumes[v].len() as int) == e.volumes[v]);
                if v == home {
                    assert(after.volumes[v].take(e.volumes[v].len() as int)
                        =~= before.volumes[v].take(e.volumes[v].len() as int));
                }
            }
            assert forall|k: int| 0 <= k < count implies {
                let v = home_volume((#[trigger] blocks[k]).block_index, stripe_width);
                let at = e.volumes[v].len() + block_bytes_in(
                    codec,
                    stripe_width,
                    blocks,
                    k as nat,
                    v,
                );
                let bytes = codec.block_bytes(blocks[k]);
                &&& 0 <= v < stripe_width
                &&& at + bytes.len() <= after.volumes[v].len()
                &&& after.volumes[v].subrange(at, at + bytes.len()) == bytes
            } by {
                let v = home_volume(blocks[k].block_index, stripe_width);
                let at = e.volumes[v].len() + block_bytes_in(
                    codec,
                    stripe_width,
                    blocks,
                    k as nat,
                    v,
                );
                let bytes = codec.block_bytes(blocks[k]);
                assert(0 <= v < stripe_width);
                let old_volume = before.volumes[v];
                assert(old_volume.len() == e.volumes[v].len() + block_bytes_in(
                    codec,
                    stripe_width,
                    blocks,
                    last,
                    v,
                ));
                if k == count - 1 {
                    assert(after.volumes[v] == old_volume + new);
                    assert(after.volumes[v].subrange(at, at + bytes.len()) =~= bytes);
                } else {
                    bytes_in_are_not_negative(codec, stripe_width, blocks, k as nat, v);
                    if v == home {
                        assert(after.volumes[v] == old_volume + new);
                        assert(after.volumes[v].subrange(at, at + bytes.len())
                            =~= old_volume.subrange(at, at + bytes.len()));
                    }
                }
            }
        }
    }
}

proof fn bytes_in_are_not_negative<C: ArchiveCodec>(
    codec: &C,
    stripe_width: u32,
    blocks: Seq<BlockValue>,
    count: nat,
    volume: int,
)
    ensures
        block_bytes_in(codec, stripe_width, blocks, count, volume) >= 0,
    decreases count,
{
    if count > 0 {
        bytes_in_are_not_negative(codec, stripe_width, blocks, (count - 1) as nat, volume);
    }
}

/// The number of the next block bears on nothing else.
pub(crate) proof fn the_next_number_is_kept<C: ArchiveCodec>(
    codec: &C,
    e: Emission,
    next: u64,
    stripe_width: u32,
    rev: u16,
    blocks: Seq<BlockValue>,
    count: nat,
)
    ensures
        with_blocks(
            codec,
            Emission { next_block_index: next, ..e },
            stripe_width,
            rev,
            blocks,
            count,
        ) == (match with_blocks(codec, e, stripe_width, rev, blocks, count) {
            Ok(after) => Ok(Emission { next_block_index: next, ..after }),
            Err(f) => Err(f),
        }),
    decreases count,
{
    if count > 0 {
        the_next_number_is_kept(codec, e, next, stripe_width, rev, blocks, (count - 1) as nat);
    }
}

/// Blocks written in two runs.
proof fn blocks_in_two_runs<C: ArchiveCodec>(
    codec: &C,
    e: Emission,
    stripe_width: u32,
    rev: u16,
    a: Seq<BlockValue>,
    b: Seq<BlockValue>,
    count: nat,
)
    requires
        count <= a.len() + b.len(),
    ensures
        with_blocks(codec, e, stripe_width, rev, a + b, count) == if count <= a.len() {
            with_blocks(codec, e, stripe_width, rev, a, count)
        } else {
            match with_blocks(codec, e, stripe_width, rev, a, a.len()) {
                Ok(middle) => with_blocks(
                    codec,
                    middle,
                    stripe_width,
                    rev,
                    b,
                    (count - a.len()) as nat,
                ),
                Err(f) => Err(f),
            }
        },
    decreases count,
{
    if count > 0 {
        blocks_in_two_runs(codec, e, stripe_width, rev, a, b, (count - 1) as nat);
        if count <= a.len() {
            assert((a + b)[count - 1] == a[count - 1]);
        } else {
            assert((a + b)[count - 1] == b[count - 1 - a.len()]);
        }
    }
}

// ---------------------------------------------------------------------------------------------
// Envelopes in blocks
// ---------------------------------------------------------------------------------------------

/// An envelope, sealed and cut into blocks from number `first` on.
pub open spec fn sealed_envelope<C: ArchiveCodec>(
    codec: &C,
    o: WriterOptions,
    dictionary: Option<Seq<u8>>,
    s: StreamSetting,
    stream: Seq<u8>,
    frames: Seq<PayloadFrame>,
    envelope: int,
    first: u64,
) -> Result<EncryptedValue, FormatError> {
    encrypted_outcome(
        codec,
        envelope_bytes(codec, o, dictionary, stream, frames, frames.len(), envelope),
        s.seal.spec_context(ObjectDomain::Envelope, envelope as u64, s.options),
        first,
        s.options,
    )
}

/// The blocks of the first `count` envelopes.
pub open spec fn payload_blocks<C: ArchiveCodec>(
    codec: &C,
    o: WriterOptions,
    dictionary: Option<Seq<u8>>,
    s: StreamSetting,
    stream: Seq<u8>,
    frames: Seq<PayloadFrame>,
    objects: Seq<PayloadObject>,
    count: nat,
) -> Seq<BlockValue>
    decreases count,
{
    if count == 0 {
        Seq::empty()
    } else {
        payload_blocks(codec, o, dictionary, s, stream, frames, objects, (count - 1) as nat)
            + sealed_envelope(
            codec,
            o,
            dictionary,
            s,
            stream,
            frames,
            count - 1,
            objects[count - 1].object.first_block_index,
        )->Ok_0.records
    }
}

/// Whether the archive `e` is `start` with the envelopes of a payload: every envelope was sealed,
/// lies where it is recorded to lie, and its blocks were written.
#[verifier::opaque]
pub open spec fn envelopes_are_written<C: ArchiveCodec>(
    codec: &C,
    o: WriterOptions,
    dictionary: Option<Seq<u8>>,
    s: StreamSetting,
    start: Emission,
    stream: Seq<u8>,
    frames: Seq<PayloadFrame>,
    objects: Seq<PayloadObject>,
    e: Emission,
) -> bool {
    let blocks = payload_blocks(
        codec,
        o,
        dictionary,
        s,
        stream,
        frames,
        objects,
        objects.len(),
    );
    &&& forall|k: int|
        0 <= k < objects.len() ==> {
            &&& sealed_envelope(
                codec,
                o,
                dictionary,
                s,
                stream,
                frames,
                k,
                (#[trigger] objects[k]).object.first_block_index,
            ) matches Ok(x)
            &&& x.extent == objects[k].object
        }
    &&& with_blocks(
        codec,
        Emission { next_block_index: e.next_block_index, ..start },
        s.options.stripe_width,
        s.rev,
        blocks,
        blocks.len(),
    ) == Ok::<Emission, FormatError>(e)
}

/// Another envelope behind the first `count`, or other frames of later envelopes, leave the
/// blocks of those as they are.
proof fn written_blocks_stay<C: ArchiveCodec>(
    codec: &C,
    o: WriterOptions,
    dictionary: Option<Seq<u8>>,
    s: StreamSetting,
    stream: Seq<u8>,
    frames: Seq<PayloadFrame>,
    objects: Seq<PayloadObject>,
    longer: Seq<u8>,
    more: Seq<PayloadFrame>,
    others: Seq<PayloadObject>,
    count: nat,
)
    requires
        count <= objects.len(),
        count <= others.len(),
        forall|k: int| 0 <= k < count ==> objects[k] == others[k],
        forall|k: int|
            0 <= k < count ==> envelope_bytes(
                codec,
                o,
                dictionary,
                stream,
                frames,
                frames.len(),
                k,
            ) == #[trigger] envelope_bytes(codec, o, dictionary, longer, more, more.len(), k),
    ensures
        payload_blocks(codec, o, dictionary, s, stream, frames, objects, count) == payload_blocks(
            codec,
            o,
            dictionary,
            s,
            longer,
            more,
            others,
            count,
        ),
    decreases count,
{
    if count > 0 {
        written_blocks_stay(
            codec,
            o,
            dictionary,
            s,
            stream,
            frames,
            objects,
            longer,
            more,
            others,
            (count - 1) as nat,
        );
        assert(envelope_bytes(codec, o, dictionary, longer, more, more.len(), count - 1)
            == envelope_bytes(codec, o, dictionary, stream, frames, frames.len(), count - 1));
    }
}

/// One more frame leaves the envelopes that are written as they are.
pub(crate) proof fn a_frame_leaves_written_envelopes<C: ArchiveCodec>(
    codec: &C,
    o: WriterOptions,
    dictionary: Option<Seq<u8>>,
    s: StreamSetting,
    start: Emission,
    p: PackValue,
    q: PackValue,
    e: Emission,
)
    requires
        is_packed(codec, o, dictionary, p),
        envelopes_are_written(codec, o, dictionary, s, start, p.hashed, p.frames, p.objects, e),
        q.objects == p.objects,
        q.frames.len() == p.frames.len() + 1,
        q.frames.take(p.frames.len() as int) == p.frames,
        q.frames.last().envelope_index == p.envelope_index,
        p.hashed.len() <= q.hashed.len(),
        q.hashed.take(p.hashed.len() as int) == p.hashed,
    ensures
        envelopes_are_written(codec, o, dictionary, s, start, q.hashed, q.frames, q.objects, e),
{
    reveal(is_packed);
    reveal(envelopes_are_written);
    let n = p.frames.len();
    assert forall|k: int| 0 <= k < n implies p.frames[k] == q.frames[k] by {
        assert(q.frames.take(n as int)[k] == p.frames[k]);
    }
    assert forall|k: int| 0 <= k < p.objects.len() implies envelope_bytes(
        codec,
        o,
        dictionary,
        p.hashed,
        p.frames,
        n,
        k,
    ) == #[trigger] envelope_bytes(
        codec,
        o,
        dictionary,
        q.hashed,
        q.frames,
        q.frames.len(),
        k,
    ) by {
        envelope_bytes_are_local(
            codec,
            o,
            dictionary,
            p.hashed,
            p.frames,
            q.hashed,
            q.frames,
            n,
            k,
        );
    }
    written_blocks_stay(
        codec,
        o,
        dictionary,
        s,
        p.hashed,
        p.frames,
        p.objects,
        q.hashed,
        q.frames,
        q.objects,
        p.objects.len(),
    );
    assert forall|k: int| 0 <= k < q.objects.len() implies {
        &&& sealed_envelope(
            codec,
            o,
            dictionary,
            s,
            q.hashed,
            q.frames,
            k,
            (#[trigger] q.objects[k]).object.first_block_index,
        ) matches Ok(x)
        &&& x.extent == q.objects[k].object
    } by {
        assert(p.objects[k] == q.objects[k]);
        assert(envelope_bytes(codec, o, dictionary, q.hashed, q.frames, q.frames.len(), k)
            == envelope_bytes(codec, o, dictionary, p.hashed, p.frames, n, k));
    }
}

/// The current envelope, written behind those before it.
#[verifier::rlimit(40)]
#[verifier::spinoff_prover]
pub(crate) proof fn an_envelope_is_written<C: ArchiveCodec>(
    codec: &C,
    o: WriterOptions,
    dictionary: Option<Seq<u8>>,
    s: StreamSetting,
    start: Emission,
    p: PackValue,
    e: Emission,
    object: PayloadObject,
)
    requires
        is_packed(codec, o, dictionary, p),
        envelopes_are_written(codec, o, dictionary, s, start, p.hashed, p.frames, p.objects, e),
    ensures
        with_object(
            codec,
            e,
            p.plaintext,
            s.seal.spec_context(ObjectDomain::Envelope, p.envelope_index, s.options),
            s.options,
            object.object,
            None,
            s.rev,
        ) matches Ok(w) ==> envelopes_are_written(
            codec,
            o,
            dictionary,
            s,
            start,
            p.hashed,
            p.frames,
            p.objects.push(object),
            w.emission,
        ),
{
    reveal(is_packed);
    reveal(envelopes_are_written);
    let context = s.seal.spec_context(ObjectDomain::Envelope, p.envelope_index, s.options);
    let objects = p.objects.push(object);
    let n = p.objects.len();
    let width = s.options.stripe_width;
    if let Ok(w) = with_object(
        codec,
        e,
        p.plaintext,
        context,
        s.options,
        object.object,
        None,
        s.rev,
    ) {
        let sealed = encrypted_outcome(
            codec,
            p.plaintext,
            context,
            e.next_block_index,
            s.options,
        )->Ok_0;
        assert(sealed.extent == object.object);
        written_blocks_stay(
            codec,
            o,
            dictionary,
            s,
            p.hashed,
            p.frames,
            p.objects,
            p.hashed,
            p.frames,
            objects,
            n,
        );
        let before = payload_blocks(codec, o, dictionary, s, p.hashed, p.frames, p.objects, n);
        let after = payload_blocks(codec, o, dictionary, s, p.hashed, p.frames, objects, n + 1);
        assert(objects[n as int] == object);
        assert(object.object.first_block_index == e.next_block_index);
        assert(after == before + sealed.records);
        let next = (e.next_block_index + sealed.extent.total()) as u64;
        the_next_number_is_kept(
            codec,
            Emission { next_block_index: e.next_block_index, ..start },
            next,
            width,
            s.rev,
            before,
            before.len(),
        );
        blocks_in_two_runs(
            codec,
            Emission { next_block_index: next, ..start },
            width,
            s.rev,
            before,
            sealed.records,
            after.len(),
        );
        if sealed.records.len() == 0 {
            assert(after =~= before);
        }
        crate::foresight::blocks_leave_the_next_number(
            codec,
            Emission { next_block_index: next, ..e },
            width,
            s.rev,
            sealed.records,
            sealed.records.len(),
        );
        assert forall|k: int| 0 <= k < objects.len() implies {
            &&& sealed_envelope(
                codec,
                o,
                dictionary,
                s,
                p.hashed,
                p.frames,
                k,
                (#[trigger] objects[k]).object.first_block_index,
            ) matches Ok(x)
            &&& x.extent == objects[k].object
        } by {
            if k < n {
                assert(p.objects[k] == objects[k]);
            }
        }
    }
}

// ---------------------------------------------------------------------------------------------
// One pass
// ---------------------------------------------------------------------------------------------

/// Whether a payload that is written as it is packed is in order.
pub open spec fn is_streamed<C: ArchiveCodec>(
    codec: &C,
    s: StreamSetting,
    start: Emission,
    p: StreamValue,
) -> bool {
    &&& is_packed(codec, s.options, None, p.pack)
    &&& is_level(p)
    &&& envelopes_are_written(
        codec,
        s.options,
        None,
        s,
        start,
        p.pack.hashed,
        p.pack.frames,
        p.pack.objects,
        p.emission,
    )
}

proof fn streamed_envelopes_keep_order<C: ArchiveCodec>(
    codec: &C,
    s: StreamSetting,
    start: Emission,
    p: StreamValue,
)
    requires
        s.options.block_size > 0,
        is_streamed(codec, s, start, p),
    ensures
        flushed_stream(codec, s, p) matches Ok(q) ==> {
            &&& is_streamed(codec, s, start, q)
            &&& flushed_plan(p.pack, s.options) == Ok::<PackValue, FormatError>(q.pack)
        },
{
    if let Ok(q) = flushed_stream(codec, s, p) {
        streamed_envelopes_are_planned(codec, s, p);
        closing_keeps_order(codec, s.options, s.options, None, p.pack);
        let object = q.pack.objects.last();
        assert(q.pack.objects == p.pack.objects.push(object));
        assert(PackValue { next_block: p.emission.next_block_index, ..p.pack } == p.pack);
        an_envelope_is_written(codec, s.options, None, s, start, p.pack, p.emission, object);
    }
}

proof fn streamed_frames_keep_order<C: ArchiveCodec>(
    codec: &C,
    s: StreamSetting,
    start: Emission,
    p: StreamValue,
    chunk: Seq<u8>,
    frame: Seq<u8>,
    place: FramePlace,
)
    requires
        s.options.block_size > 0,
        is_streamed(codec, s, start, p),
        place.member_start + place.member_offset == p.pack.tar_total,
        frame_bytes(codec, s.options, None, chunk) == Ok::<Seq<u8>, FormatError>(frame),
        frame.len() <= u32::MAX,
        chunk.len() <= u32::MAX,
    ensures
        streamed_frame(codec, s, p, chunk, frame, place) matches Ok(q) ==> {
            &&& is_streamed(codec, s, start, q)
            &&& q.pack.tar_total == p.pack.tar_total + chunk.len()
        },
{
    if let Ok(q) = streamed_frame(codec, s, p, chunk, frame, place) {
        streamed_frames_are_planned(codec, s, p, chunk, frame, place);
        frame_keeps_order(codec, s.options, s.options, None, p.pack, chunk, frame, place);
        let flush = needs_flush(p.pack.plaintext.len() as int, frame.len() as int, s.options)
            == Ok::<bool, FormatError>(true);
        if flush {
            streamed_envelopes_keep_order(codec, s, start, p);
            closing_keeps_order(codec, s.options, s.options, None, p.pack);
        }
        let ready = if flush {
            flushed_stream(codec, s, p)->Ok_0
        } else {
            p
        };
        packing_keeps_order(codec, s.options, s.options, None, ready.pack, chunk, frame, place);
        assert(q.pack.hashed.take(ready.pack.hashed.len() as int) =~= ready.pack.hashed);
        a_frame_leaves_written_envelopes(
            codec,
            s.options,
            None,
            s,
            start,
            ready.pack,
            q.pack,
            q.emission,
        );
    }
}

#[verifier::rlimit(40)]
#[verifier::spinoff_prover]
proof fn streamed_members_keep_order<C: ArchiveCodec, O: ArchiveWriteSink>(
    codec: &C,
    s: StreamSetting,
    start: Emission,
    p: StreamValue,
    feed: Feed,
    place: FramePlace,
    offset: int,
)
    requires
        s.options.block_size > 0,
        s.options.chunk_size > 0,
        is_streamed(codec, s, start, p),
        0 <= offset <= place.member_group_size,
        place.member_start + offset == p.pack.tar_total,
        feed.bytes.len() == place.member_group_size,
    ensures
        framed_member::<C, O, StreamingArchiveWriter>(
            codec,
            s,
            p,
            s.options,
            None,
            feed,
            place,
            offset,
        ) matches Ok(q) ==> is_streamed(codec, s, start, q),
    decreases place.member_group_size - offset,
{
    let o = s.options;
    let size = place.member_group_size as int;
    if offset < size {
        if let Ok(q) = framed_member::<C, O, StreamingArchiveWriter>(
            codec,
            s,
            p,
            o,
            None,
            feed,
            place,
            offset,
        ) {
            let n = next_chunk_len(size - offset, o);
            let bytes = feed.reads(offset + n)->Ok_0;
            let rest = bytes.skip(offset);
            chosen_frames_hold_bytes(codec, rest, n, o, None);
            let chosen = next_frame(codec, rest, n, o, None, Framing::Fitting)->Ok_0;
            let chunk = rest.take(chosen.len);
            fitting_frames_are_short(chosen.frame.len() as int, o);
            let here = FramePlace { member_offset: offset as u64, ..place };
            streamed_frames_keep_order(codec, s, start, p, chunk, chosen.frame, here);
            let next = streamed_frame(codec, s, p, chunk, chosen.frame, here)->Ok_0;
            streamed_members_keep_order::<C, O>(
                codec,
                s,
                start,
                next,
                feed,
                place,
                offset + chosen.len,
            );
        }
    }
}

proof fn a_streamed_source_keeps_order<C: ArchiveCodec + MetadataProfile, O: ArchiveWriteSink>(
    codec: &C,
    s: StreamSetting,
    start: Emission,
    m: MembersValue<StreamValue>,
    run: SourceRun,
)
    requires
        s.options.block_size > 0,
        s.options.chunk_size > 0,
        is_streamed(codec, s, start, m.state),
    ensures
        with_member::<C, O, StreamingArchiveWriter>(codec, s, s.options, None, m, run) matches Ok(
            next,
        ) ==> is_streamed(codec, s, start, next.state),
{
    reveal(with_member);
    if let Ok(v) = captured(codec, run.described, s.options.max_path_length) {
        if let Ok(prep) = prepared(codec, v) {
            members_feed_their_group(codec, v, run);
            streamed_members_keep_order::<C, O>(
                codec,
                s,
                start,
                m.state,
                feed_of(prep.sections, run),
                FramePlace {
                    member_index: m.members.len() as usize,
                    member_start: m.state.pack.tar_total,
                    member_offset: 0,
                    member_group_size: prep.group_size,
                },
                0,
            );
        }
    }
}

proof fn streamed_sources_keep_order<C: ArchiveCodec + MetadataProfile, O: ArchiveWriteSink>(
    codec: &C,
    s: StreamSetting,
    start: Emission,
    runs: Seq<SourceRun>,
    count: nat,
)
    requires
        s.options.block_size > 0,
        s.options.chunk_size > 0,
        start.next_block_index == 0,
    ensures
        with_members::<C, O, StreamingArchiveWriter>(
            codec,
            s,
            s.options,
            None,
            MembersValue {
                members: Seq::empty(),
                state: StreamValue { pack: nothing_packed(0), emission: start },
            },
            runs,
            count,
        ) matches Ok(m) ==> is_streamed(codec, s, start, m.state),
    decreases count,
{
    let first = MembersValue::<StreamValue> {
        members: Seq::empty(),
        state: StreamValue { pack: nothing_packed(0), emission: start },
    };
    if count == 0 {
        nothing_is_written(codec, s.options, None, s, start);
    } else {
        streamed_sources_keep_order::<C, O>(codec, s, start, runs, (count - 1) as nat);
        if let Ok(m) = with_members::<C, O, StreamingArchiveWriter>(
            codec,
            s,
            s.options,
            None,
            first,
            runs,
            (count - 1) as nat,
        ) {
            a_streamed_source_keeps_order::<C, O>(codec, s, start, m, runs[count - 1]);
        }
    }
}

/// An archive that has just begun.
pub(crate) proof fn nothing_is_written<C: ArchiveCodec>(
    codec: &C,
    o: WriterOptions,
    dictionary: Option<Seq<u8>>,
    s: StreamSetting,
    start: Emission,
)
    ensures
        is_packed(codec, o, dictionary, nothing_packed(0)),
        envelopes_are_written(
            codec,
            o,
            dictionary,
            s,
            start,
            Seq::empty(),
            Seq::empty(),
            Seq::empty(),
            start,
        ),
{
    reveal(is_packed);
    reveal(envelopes_are_written);
    assert(nothing_packed(0).plaintext =~= Seq::empty());
}

/// An archive that is written while its sources are read holds every envelope of its payload: the
/// envelopes are sealed as they are recorded, and their blocks follow one another in the volumes.
#[verifier::rlimit(40)]
#[verifier::spinoff_prover]
pub proof fn one_pass_writes_every_envelope<
    C: ArchiveCodec + MetadataProfile,
    O: ArchiveWriteSink,
>(
    codec: &C,
    declared: DeclaredValue,
    o: WriterOptions,
    request: PlanRequest,
    runs: Seq<SourceRun>,
)
    requires
        o.block_size > 0,
        o.chunk_size > 0,
    ensures
        sent_payload::<C, O, StreamingArchiveWriter>(codec, declared, o, request, runs) matches Ok(
            sent,
        ) ==> {
            let start = begun(
                codec,
                o.stripe_width,
                declared.header.bytes,
                declared.table,
                request.archive_uuid,
                request.session_id,
                request.volume_format_rev,
                request.root_auth is Some,
            )->Ok_0;
            envelopes_are_written(
                codec,
                o,
                None,
                stream_setting(codec, declared, o, request),
                start,
                joined_groups(codec, o, runs, runs.len()),
                sent.value.pack.frames,
                sent.value.pack.objects,
                sent.value.emission,
            )
        },
{
    if let Ok(sent) = sent_payload::<C, O, StreamingArchiveWriter>(
        codec,
        declared,
        o,
        request,
        runs,
    ) {
        let s = stream_setting(codec, declared, o, request);
        let start = begun(
            codec,
            o.stripe_width,
            declared.header.bytes,
            declared.table,
            request.archive_uuid,
            request.session_id,
            request.volume_format_rev,
            request.root_auth is Some,
        )->Ok_0;
        streamed_sources_keep_order::<C, O>(codec, s, start, runs, runs.len());
        streamed_sources_are_planned::<C, O>(codec, s, start, runs, runs.len());
        let last = with_members::<C, O, StreamingArchiveWriter>(
            codec,
            s,
            o,
            None,
            MembersValue {
                members: Seq::empty(),
                state: StreamValue { pack: nothing_packed(0), emission: start },
            },
            runs,
            runs.len(),
        )->Ok_0;
        streamed_envelopes_keep_order(codec, s, start, last.state);
        planned_bytes_are_the_groups(codec, o, None, runs, runs.len());
    }
}

/// What is planned is the tar stream of the sources.
proof fn planned_bytes_are_the_groups<C: ArchiveCodec + MetadataProfile>(
    codec: &C,
    o: WriterOptions,
    dictionary: Option<Seq<u8>>,
    runs: Seq<SourceRun>,
    count: nat,
)
    requires
        o.block_size > 0,
        o.chunk_size > 0,
    ensures
        planned_members(codec, o, dictionary, runs, count) matches Ok(m) ==> {
            &&& is_packed(codec, o, dictionary, m.state)
            &&& m.state.hashed == joined_groups(codec, o, runs, count)
        },
    decreases count,
{
    if count == 0 {
        reveal(is_packed);
        assert(nothing_packed(0).plaintext =~= Seq::empty());
    } else {
        let before = (count - 1) as nat;
        planned_bytes_are_the_groups(codec, o, dictionary, runs, before);
        if let Ok(m) = planned_members(codec, o, dictionary, runs, count) {
            reveal(with_member);
            let y = planned_members(codec, o, dictionary, runs, before)->Ok_0;
            let run = runs[before as int];
            let v = captured(codec, run.described, o.max_path_length)->Ok_0;
            let prep = prepared(codec, v)->Ok_0;
            let feed = feed_of(prep.sections, run);
            members_feed_their_group(codec, v, run);
            framing_keeps_order(
                codec,
                o,
                dictionary,
                y.state,
                feed,
                FramePlace {
                    member_index: y.members.len() as usize,
                    member_start: y.state.tar_total,
                    member_offset: 0,
                    member_group_size: prep.group_size,
                },
                0,
            );
            reveal(member_packed);
            assert(feed.bytes.subrange(0, prep.group_size as int) =~= feed.bytes);
        }
    }
}

// ---------------------------------------------------------------------------------------------
// Two passes
// ---------------------------------------------------------------------------------------------

/// What the envelopes of a planned payload are sealed by.
pub open spec fn envelope_setting(s: ReplaySetting) -> StreamSetting {
    StreamSetting { options: s.plan.options, seal: s.seal, rev: s.rev, headers: s.headers }
}

/// Whether a plan in the making is in order, and written as far as it goes.
pub open spec fn is_replayed<C: ArchiveCodec>(
    codec: &C,
    o: WriterOptions,
    dictionary: Option<Seq<u8>>,
    s: ReplaySetting,
    start: Emission,
    a: PackValue,
    b: ReplayValue,
) -> bool {
    &&& in_step(a, b)
    &&& is_packed(codec, o, dictionary, a)
    &&& envelopes_are_written(
        codec,
        o,
        dictionary,
        envelope_setting(s),
        start,
        a.hashed,
        a.frames,
        a.objects,
        b.emission,
    )
}

proof fn replayed_envelopes_keep_order<C: ArchiveCodec>(
    codec: &C,
    o: WriterOptions,
    dictionary: Option<Seq<u8>>,
    s: ReplaySetting,
    start: Emission,
    a: PackValue,
    b: ReplayValue,
)
    requires
        is_replayed(codec, o, dictionary, s, start, a, b),
        flushed_plan(a, o) matches Ok(a2) && a2.objects.is_prefix_of(s.plan.objects),
    ensures
        flushed_replay(codec, s, b) matches Ok(b2) ==> is_replayed(
            codec,
            o,
            dictionary,
            s,
            start,
            flushed_plan(a, o)->Ok_0,
            b2,
        ),
{
    if let Ok(b2) = flushed_replay(codec, s, b) {
        let a2 = flushed_plan(a, o)->Ok_0;
        let object = a2.objects.last();
        assert(a2.objects == a.objects.push(object));
        assert(s.plan.objects[a.objects.len() as int] == object) by {
            assert(a2.objects[a.objects.len() as int] == object);
        }
        closing_keeps_order(codec, o, o, dictionary, a);
        an_envelope_is_written(
            codec,
            o,
            dictionary,
            envelope_setting(s),
            start,
            a,
            b.emission,
            object,
        );
    }
}

proof fn replayed_frames_keep_order<C: ArchiveCodec>(
    codec: &C,
    o: WriterOptions,
    dictionary: Option<Seq<u8>>,
    s: ReplaySetting,
    start: Emission,
    a: PackValue,
    b: ReplayValue,
    chunk: Seq<u8>,
    frame: Seq<u8>,
    place: FramePlace,
)
    requires
        same_but_root_class(o, s.plan.options),
        is_replayed(codec, o, dictionary, s, start, a, b),
        planned_frame(a, chunk, frame, place, o) matches Ok(a2) && is_covered(a2, s.plan),
        place.member_start + place.member_offset == a.tar_total,
        frame_bytes(codec, o, dictionary, chunk) == Ok::<Seq<u8>, FormatError>(frame),
        frame.len() <= u32::MAX,
        chunk.len() <= u32::MAX,
    ensures
        planned_frame(a, chunk, frame, place, o)->Ok_0.tar_total == a.tar_total + chunk.len(),
        replayed_frame(codec, s, b, chunk, frame, place) matches Ok(b2) ==> is_replayed(
            codec,
            o,
            dictionary,
            s,
            start,
            planned_frame(a, chunk, frame, place, o)->Ok_0,
            b2,
        ),
{
    let a2 = planned_frame(a, chunk, frame, place, o)->Ok_0;
    frame_keeps_order(codec, o, o, dictionary, a, chunk, frame, place);
    if let Ok(b2) = replayed_frame(codec, s, b, chunk, frame, place) {
        frames_are_written_as_planned(codec, s, o, a, b, chunk, frame, place);
        flush_ignores_the_root_class(
            a.plaintext.len() as int,
            frame.len() as int,
            o,
            s.plan.options,
        );
        let flush = needs_flush(a.plaintext.len() as int, frame.len() as int, o) == Ok::<
            bool,
            FormatError,
        >(true);
        let ready = if flush {
            flushed_plan(a, o)->Ok_0
        } else {
            a
        };
        let written = if flush {
            flushed_replay(codec, s, b)->Ok_0
        } else {
            b
        };
        assert(a2.objects == ready.objects);
        if flush {
            replayed_envelopes_keep_order(codec, o, dictionary, s, start, a, b);
            closing_keeps_order(codec, o, o, dictionary, a);
        }
        packing_keeps_order(codec, o, o, dictionary, ready, chunk, frame, place);
        assert(a2.hashed.take(ready.hashed.len() as int) =~= ready.hashed);
        a_frame_leaves_written_envelopes(
            codec,
            o,
            dictionary,
            envelope_setting(s),
            start,
            ready,
            a2,
            written.emission,
        );
    }
}

#[verifier::rlimit(40)]
#[verifier::spinoff_prover]
proof fn replayed_members_keep_order<C: ArchiveCodec, O: ArchiveWriteSink>(
    codec: &C,
    o: WriterOptions,
    dictionary: Option<Seq<u8>>,
    s: ReplaySetting,
    start: Emission,
    a: PackValue,
    b: ReplayValue,
    z: PackValue,
    feed: Feed,
    place: FramePlace,
    offset: int,
)
    requires
        o.block_size > 0,
        o.chunk_size > 0,
        same_but_root_class(o, s.plan.options),
        is_replayed(codec, o, dictionary, s, start, a, b),
        0 <= offset <= place.member_group_size,
        place.member_start + offset == a.tar_total,
        feed.bytes.len() == place.member_group_size,
        framed_member::<C, (), PayloadPacking>(
            codec,
            o,
            a,
            o,
            dictionary,
            feed,
            place,
            offset,
        ) == Ok::<PackValue, ArchiveWriteError>(z),
        is_covered(z, s.plan),
    ensures
        framed_member::<C, O, PayloadReplay<'static>>(
            codec,
            s,
            b,
            s.plan.options,
            dictionary,
            feed,
            place,
            offset,
        ) matches Ok(c) ==> is_replayed(codec, o, dictionary, s, start, z, c),
    decreases place.member_group_size - offset,
{
    let size = place.member_group_size as int;
    if offset < size {
        let n = next_chunk_len(size - offset, o);
        let bytes = feed.reads(offset + n)->Ok_0;
        let rest = bytes.skip(offset);
        chosen_frame_ignores_the_root_class(codec, rest, n, o, s.plan.options, dictionary);
        chosen_frames_hold_bytes(codec, rest, n, o, dictionary);
        let chosen = next_frame(codec, rest, n, o, dictionary, Framing::Fitting)->Ok_0;
        let chunk = rest.take(chosen.len);
        fitting_frames_are_short(chosen.frame.len() as int, o);
        let here = FramePlace { member_offset: offset as u64, ..place };
        let a2 = planned_frame(a, chunk, chosen.frame, here, o)->Ok_0;
        members_only_add(codec, a2, o, dictionary, feed, place, offset + chosen.len);
        covered_by_growth(a2, z, s.plan);
        replayed_frames_keep_order(
            codec,
            o,
            dictionary,
            s,
            start,
            a,
            b,
            chunk,
            chosen.frame,
            here,
        );
        if let Ok(b2) = replayed_frame(codec, s, b, chunk, chosen.frame, here) {
            replayed_members_keep_order::<C, O>(
                codec,
                o,
                dictionary,
                s,
                start,
                a2,
                b2,
                z,
                feed,
                place,
                offset + chosen.len,
            );
        }
    }
}

#[verifier::rlimit(40)]
#[verifier::spinoff_prover]
proof fn replayed_sources_keep_order<C: ArchiveCodec + MetadataProfile, O: ArchiveWriteSink>(
    codec: &C,
    o: WriterOptions,
    dictionary: Option<Seq<u8>>,
    s: ReplaySetting,
    start: Emission,
    runs: Seq<SourceRun>,
    count: nat,
    total: nat,
)
    requires
        o.block_size > 0,
        o.chunk_size > 0,
        count <= total <= usize::MAX,
        same_but_root_class(o, s.plan.options),
        planned_members(codec, o, dictionary, runs, total) matches Ok(z) && z.members
            == s.plan.members && is_covered(z.state, s.plan),
    ensures
        planned_members(codec, o, dictionary, runs, count) is Ok,
        replayed_members::<C, O>(
            codec,
            s,
            nothing_replayed(start),
            dictionary,
            runs,
            count,
        ) matches Ok(b) ==> is_replayed(
            codec,
            o,
            dictionary,
            s,
            start,
            planned_members(codec, o, dictionary, runs, count)->Ok_0.state,
            b,
        ),
    decreases count,
{
    sources_only_add(codec, o, dictionary, runs, count, total);
    if count == 0 {
        nothing_is_written(codec, o, dictionary, envelope_setting(s), start);
    } else {
        let before = (count - 1) as nat;
        replayed_sources_keep_order::<C, O>(
            codec,
            o,
            dictionary,
            s,
            start,
            runs,
            before,
            total,
        );
        sources_only_add(codec, o, dictionary, runs, before, count);
        let z = planned_members(codec, o, dictionary, runs, total)->Ok_0;
        let y = planned_members(codec, o, dictionary, runs, before)->Ok_0;
        let m = planned_members(codec, o, dictionary, runs, count)->Ok_0;
        covered_by_growth(m.state, z.state, s.plan);
        if let Ok(b) = replayed_members::<C, O>(
            codec,
            s,
            nothing_replayed(start),
            dictionary,
            runs,
            before,
        ) {
            reveal(with_member);
            reveal(replayed_member);
            let run = runs[before as int];
            let v = captured(codec, run.described, o.max_path_length)->Ok_0;
            let prep = prepared(codec, v)->Ok_0;
            members_feed_their_group(codec, v, run);
            assert(m.members[before as int] == z.members[before as int]);
            replayed_members_keep_order::<C, O>(
                codec,
                o,
                dictionary,
                s,
                start,
                y.state,
                b,
                m.state,
                feed_of(prep.sections, run),
                FramePlace {
                    member_index: before as usize,
                    member_start: y.state.tar_total,
                    member_offset: 0,
                    member_group_size: prep.group_size,
                },
                0,
            );
        }
    }
}

/// An archive that is planned and then written, from sources that say the same both times, holds
/// every envelope of its payload: the envelopes are sealed as the plan has them, and their blocks
/// follow one another in the volumes.
#[verifier::rlimit(40)]
#[verifier::spinoff_prover]
pub proof fn two_passes_write_every_envelope<
    C: ArchiveCodec + MetadataProfile,
    O: ArchiveWriteSink,
>(
    codec: &C,
    plan: PlanValue,
    subkeys: Subkeys,
    collect: bool,
    runs: Seq<SourceRun>,
    answer: RecordsAnswer,
    o: WriterOptions,
    dictionary: Option<Seq<u8>>,
    kdf: KdfValue,
    request: PlanRequest,
)
    requires
        o.block_size > 0,
        o.chunk_size > 0,
        runs.len() <= usize::MAX,
        is_source_plan(codec, runs, answer, o, dictionary, kdf, request, Ok(plan)),
    ensures
        plan_payload_emission::<C, O>(
            codec,
            plan,
            subkeys,
            collect,
            dictionary,
            runs,
        ) matches Ok(e) ==> envelopes_are_written(
            codec,
            o,
            dictionary,
            envelope_setting(replay_setting(codec, plan, subkeys)),
            begun(
                codec,
                plan.options.stripe_width,
                plan.crypto_header.bytes,
                plan.key_wrap_table,
                plan.archive_uuid,
                plan.session_id,
                plan.volume_format_rev,
                collect,
            )->Ok_0,
            joined_groups(codec, o, runs, runs.len()),
            plan.frames,
            plan.objects,
            e,
        ),
{
    if let Ok(e) = plan_payload_emission::<C, O>(
        codec,
        plan,
        subkeys,
        collect,
        dictionary,
        runs,
    ) {
        let s = replay_setting(codec, plan, subkeys);
        let start = begun(
            codec,
            plan.options.stripe_width,
            plan.crypto_header.bytes,
            plan.key_wrap_table,
            plan.archive_uuid,
            plan.session_id,
            plan.volume_format_rev,
            collect,
        )->Ok_0;
        let planned = payload_outcome(codec, runs, o, dictionary)->Ok_0;
        assert(plan.members == planned.payload.members);
        assert(plan.frames == planned.payload.frames);
        assert(plan.objects == planned.payload.objects);
        assert(same_but_root_class(o, plan.options));
        let z = planned_members(codec, o, dictionary, runs, runs.len())->Ok_0;
        assert(is_covered(z.state, plan)) by {
            assert(z.state.frames =~= plan.frames.subrange(0, z.state.frames.len() as int));
            assert(z.state.objects =~= plan.objects.subrange(0, z.state.objects.len() as int));
        }
        replayed_sources_keep_order::<C, O>(
            codec,
            o,
            dictionary,
            s,
            start,
            runs,
            runs.len(),
            runs.len(),
        );
        planned_bytes_are_the_groups(codec, o, dictionary, runs, runs.len());
        let b = replayed_members::<C, O>(
            codec,
            s,
            nothing_replayed(start),
            dictionary,
            runs,
            runs.len(),
        )->Ok_0;
        if b.plaintext.len() > 0 {
            let m = flushed_plan(z.state, o)->Ok_0;
            assert(m.objects =~= plan.objects.subrange(0, m.objects.len() as int));
            replayed_envelopes_keep_order(codec, o, dictionary, s, start, z.state, b);
        }
    }
}

// ---------------------------------------------------------------------------------------------
// Reading back
// ---------------------------------------------------------------------------------------------

/// A block's number and place: it is numbered as its envelope and its place in it say.
proof fn blocks_are_numbered<C: ArchiveCodec>(
    codec: &C,
    payload: Seq<u8>,
    context: ObjectEncryptionContext,
    first: u64,
    o: WriterOptions,
    j: int,
)
    ensures
        encrypted_outcome(codec, payload, context, first, o) matches Ok(x) ==> (0 <= j
            < x.records.len() ==> x.records[j].block_index == (first + j) as u64),
{
}

/// The blocks of an envelope stand among those of the payload behind the blocks of the envelopes
/// before it.
pub(crate) proof fn envelopes_stand_in_line<C: ArchiveCodec>(
    codec: &C,
    o: WriterOptions,
    dictionary: Option<Seq<u8>>,
    s: StreamSetting,
    stream: Seq<u8>,
    frames: Seq<PayloadFrame>,
    objects: Seq<PayloadObject>,
    count: nat,
    k: int,
)
    requires
        0 <= k < count <= objects.len(),
    ensures
        ({
            let all = payload_blocks(codec, o, dictionary, s, stream, frames, objects, count);
            let at = payload_blocks(codec, o, dictionary, s, stream, frames, objects, k as nat);
            let own = sealed_envelope(
                codec,
                o,
                dictionary,
                s,
                stream,
                frames,
                k,
                objects[k].object.first_block_index,
            )->Ok_0.records;
            &&& at.len() + own.len() <= all.len()
            &&& all.subrange(at.len() as int, (at.len() + own.len()) as int) == own
        }),
    decreases count,
{
    let all = payload_blocks(codec, o, dictionary, s, stream, frames, objects, count);
    let at = payload_blocks(codec, o, dictionary, s, stream, frames, objects, k as nat);
    let own = sealed_envelope(
        codec,
        o,
        dictionary,
        s,
        stream,
        frames,
        k,
        objects[k].object.first_block_index,
    )->Ok_0.records;
    if k == count - 1 {
        assert(all.subrange(at.len() as int, (at.len() + own.len()) as int) =~= own);
    } else {
        envelopes_stand_in_line(
            codec,
            o,
            dictionary,
            s,
            stream,
            frames,
            objects,
            (count - 1) as nat,
            k,
        );
        let less = payload_blocks(
            codec,
            o,
            dictionary,
            s,
            stream,
            frames,
            objects,
            (count - 1) as nat,
        );
        assert(all.subrange(at.len() as int, (at.len() + own.len()) as int) =~= less.subrange(
            at.len() as int,
            (at.len() + own.len()) as int,
        ));
    }
}

/// Every envelope of a payload that was written is found in the volumes again. Its blocks are
/// those of the envelope's bytes, sealed; each is numbered by its place, and its record lies in
/// the volume that its number names, behind the records of the earlier blocks of that volume.
pub proof fn envelopes_are_found_in_the_volumes<C: ArchiveCodec>(
    codec: &C,
    o: WriterOptions,
    dictionary: Option<Seq<u8>>,
    s: StreamSetting,
    start: Emission,
    stream: Seq<u8>,
    frames: Seq<PayloadFrame>,
    objects: Seq<PayloadObject>,
    e: Emission,
    k: int,
    j: int,
)
    requires
        start.wf(s.options.stripe_width),
        envelopes_are_written(codec, o, dictionary, s, start, stream, frames, objects, e),
        0 <= k < objects.len(),
    ensures
        sealed_envelope(
            codec,
            o,
            dictionary,
            s,
            stream,
            frames,
            k,
            objects[k].object.first_block_index,
        ) matches Ok(x) && x.extent == objects[k].object && (0 <= j < x.records.len() ==> {
            let all = payload_blocks(
                codec,
                o,
                dictionary,
                s,
                stream,
                frames,
                objects,
                objects.len(),
            );
            let at = payload_blocks(codec, o, dictionary, s, stream, frames, objects, k as nat).len()
                + j;
            let width = s.options.stripe_width;
            let number = (objects[k].object.first_block_index + j) as u64;
            let volume = home_volume(number, width);
            let offset = start.volumes[volume].len() + block_bytes_in(
                codec,
                width,
                all,
                at as nat,
                volume,
            );
            let bytes = codec.block_bytes(x.records[j]);
            &&& x.records[j].block_index == number
            &&& 0 <= volume < e.volumes.len()
            &&& offset + bytes.len() <= e.volumes[volume].len()
            &&& e.volumes[volume].subrange(offset, offset + bytes.len()) == bytes
        }),
{
    reveal(envelopes_are_written);
    assert(objects[k].object.first_block_index >= 0);
    let x = sealed_envelope(
        codec,
        o,
        dictionary,
        s,
        stream,
        frames,
        k,
        objects[k].object.first_block_index,
    )->Ok_0;
    let all = payload_blocks(
        codec,
        o,
        dictionary,
        s,
        stream,
        frames,
        objects,
        objects.len(),
    );
    let before = payload_blocks(codec, o, dictionary, s, stream, frames, objects, k as nat).len();
    let width = s.options.stripe_width;
    if 0 <= j < x.records.len() {
        blocks_are_numbered(
            codec,
            envelope_bytes(codec, o, dictionary, stream, frames, frames.len(), k),
            s.seal.spec_context(ObjectDomain::Envelope, k as u64, s.options),
            objects[k].object.first_block_index,
            s.options,
            j,
        );
        envelopes_stand_in_line(
            codec,
            o,
            dictionary,
            s,
            stream,
            frames,
            objects,
            objects.len(),
            k,
        );
        assert(all.subrange(before as int, (before + x.records.len()) as int)[j]
            == all[before + j]);
        blocks_are_found_in_their_volumes(
            codec,
            Emission { next_block_index: e.next_block_index, ..start },
            width,
            s.rev,
            all,
            all.len(),
        );
        assert(all[before + j] == x.records[j]);
    }
}

// ---------------------------------------------------------------------------------------------
// Closing
// ---------------------------------------------------------------------------------------------

/// Whether `b` holds what `a` holds, and maybe more behind it.
pub open spec fn holds_all(a: Emission, b: Emission, stripe_width: u32) -> bool {
    &&& a.wf(stripe_width)
    &&& b.wf(stripe_width)
    &&& forall|v: int|
        0 <= v < stripe_width ==> a.volumes[v].is_prefix_of(#[trigger] b.volumes[v])
}

pub(crate) proof fn holding_is_transitive(a: Emission, b: Emission, c: Emission, stripe_width: u32)
    requires
        holds_all(a, b, stripe_width),
        holds_all(b, c, stripe_width),
    ensures
        holds_all(a, c, stripe_width),
{
    assert forall|v: int| 0 <= v < stripe_width implies a.volumes[v].is_prefix_of(
        #[trigger] c.volumes[v],
    ) by {
        assert(a.volumes[v].is_prefix_of(b.volumes[v]));
        assert(b.volumes[v].is_prefix_of(c.volumes[v]));
        assert(a.volumes[v] =~= c.volumes[v].subrange(0, a.volumes[v].len() as int));
    }
}

pub(crate) proof fn everything_holds_itself(e: Emission, stripe_width: u32)
    requires
        e.wf(stripe_width),
    ensures
        holds_all(e, e, stripe_width),
{
    assert forall|v: int| 0 <= v < stripe_width implies e.volumes[v].is_prefix_of(
        #[trigger] e.volumes[v],
    ) by {
        assert(e.volumes[v] =~= e.volumes[v].subrange(0, e.volumes[v].len() as int));
    }
}

/// An object that is written stands behind what was there.
pub proof fn objects_only_add<C: ArchiveCodec>(
    codec: &C,
    e: Emission,
    payload: Seq<u8>,
    context: ObjectEncryptionContext,
    o: WriterOptions,
    expected: ObjectExtent,
    kind: Option<MetadataObjectKind>,
    rev: u16,
)
    requires
        e.wf(o.stripe_width),
    ensures
        with_object(codec, e, payload, context, o, expected, kind, rev) matches Ok(w) ==> holds_all(
            e,
            w.emission,
            o.stripe_width,
        ),
{
    if let Ok(w) = with_object(codec, e, payload, context, o, expected, kind, rev) {
        let object = encrypted_outcome(codec, payload, context, e.next_block_index, o)->Ok_0;
        blocks_are_found_in_their_volumes(
            codec,
            Emission {
                next_block_index: (e.next_block_index + object.extent.total()) as u64,
                ..e
            },
            o.stripe_width,
            rev,
            object.records,
            object.records.len(),
        );
        assert forall|v: int| 0 <= v < o.stripe_width implies e.volumes[v].is_prefix_of(
            #[trigger] w.emission.volumes[v],
        ) by {
            assert(w.emission.volumes[v].take(e.volumes[v].len() as int) == e.volumes[v]);
        }
    }
}

pub(crate) proof fn metadata_only_adds<C: ArchiveCodec>(
    codec: &C,
    e: Emission,
    objects: Seq<MetadataObjectValue>,
    domain: ObjectDomain,
    seal: ArchiveSeal,
    o: WriterOptions,
    rev: u16,
    count: nat,
)
    requires
        e.wf(o.stripe_width),
    ensures
        with_metadata_objects(codec, e, objects, domain, seal, o, rev, count) matches Ok(after)
            ==> holds_all(e, after, o.stripe_width),
    decreases count,
{
    if count == 0 {
        everything_holds_itself(e, o.stripe_width);
    } else {
        metadata_only_adds(codec, e, objects, domain, seal, o, rev, (count - 1) as nat);
        if let Ok(before) = with_metadata_objects(
            codec,
            e,
            objects,
            domain,
            seal,
            o,
            rev,
            (count - 1) as nat,
        ) {
            let object = objects[count - 1];
            let context = seal.spec_context(domain, object.object_index, o);
            objects_only_add(
                codec,
                before,
                object.compressed,
                context,
                o,
                object.extent,
                None,
                rev,
            );
            if let Ok(w) = with_object(
                codec,
                before,
                object.compressed,
                context,
                o,
                object.extent,
                None,
                rev,
            ) {
                holding_is_transitive(e, before, w.emission, o.stripe_width);
            }
        }
    }
}

pub(crate) proof fn the_body_only_adds<C: ArchiveCodec>(
    codec: &C,
    e: Emission,
    plan: PlanValue,
    seal: ArchiveSeal,
    rev: u16,
)
    requires
        e.wf(plan.options.stripe_width),
    ensures
        body_outcome(codec, e, plan, seal, rev) matches Ok(body) ==> holds_all(
            e,
            body.emission,
            plan.options.stripe_width,
        ),
{
    let o = plan.options;
    let width = o.stripe_width;
    if let Ok(body) = body_outcome(codec, e, plan, seal, rev) {
        let shards = with_metadata_objects(
            codec,
            e,
            plan.index_shard_objects,
            ObjectDomain::IndexShard,
            seal,
            o,
            rev,
            plan.index_shard_objects.len(),
        )->Ok_0;
        metadata_only_adds(
            codec,
            e,
            plan.index_shard_objects,
            ObjectDomain::IndexShard,
            seal,
            o,
            rev,
            plan.index_shard_objects.len(),
        );
        let dictionary = with_dictionary(codec, shards, plan, seal, rev)->Ok_0.emission;
        assert(holds_all(shards, dictionary, width)) by {
            everything_holds_itself(shards, width);
            if let (Some(compressed), Some((extent, _))) = (
                plan.compressed_dictionary,
                plan.dictionary_extent,
            ) {
                objects_only_add(
                    codec,
                    shards,
                    compressed,
                    seal.spec_context(ObjectDomain::Dictionary, 0, o),
                    o,
                    extent,
                    Some(MetadataObjectKind::Dictionary),
                    rev,
                );
            }
        }
        metadata_only_adds(
            codec,
            dictionary,
            plan.directory_hint_objects,
            ObjectDomain::DirectoryHint,
            seal,
            o,
            rev,
            plan.directory_hint_objects.len(),
        );
        let hints = with_metadata_objects(
            codec,
            dictionary,
            plan.directory_hint_objects,
            ObjectDomain::DirectoryHint,
            seal,
            o,
            rev,
            plan.directory_hint_objects.len(),
        )->Ok_0;
        objects_only_add(
            codec,
            hints,
            plan.compressed_index_root,
            seal.spec_context(ObjectDomain::IndexRoot, 0, o),
            o,
            plan.index_root_extent,
            Some(MetadataObjectKind::IndexRoot),
            rev,
        );
        holding_is_transitive(e, shards, dictionary, width);
        holding_is_transitive(e, dictionary, hints, width);
        holding_is_transitive(e, hints, body.emission, width);
    }
}

proof fn parts_only_add(
    a: Emission,
    e: Emission,
    stripe_width: u32,
    volume: int,
    bytes: Seq<u8>,
    label: &'static str,
)
    requires
        holds_all(a, e, stripe_width),
        0 <= volume < stripe_width,
    ensures
        with_part(e, volume, bytes, label) matches Ok(after) ==> holds_all(a, after, stripe_width),
{
    if let Ok(after) = with_part(e, volume, bytes, label) {
        assert forall|v: int| 0 <= v < stripe_width implies a.volumes[v].is_prefix_of(
            #[trigger] after.volumes[v],
        ) by {
            assert(a.volumes[v].is_prefix_of(e.volumes[v]));
            assert(a.volumes[v] =~= after.volumes[v].subrange(0, a.volumes[v].len() as int));
        }
    }
}

pub(crate) proof fn tails_only_add<C: ArchiveCodec>(
    codec: &C,
    e: Emission,
    plan: PlanValue,
    subkeys: Subkeys,
    headers: Seq<Seq<u8>>,
    footer: Option<Seq<u8>>,
    caps: ReaderCaps,
    count: nat,
)
    requires
        e.wf(plan.options.stripe_width),
        count <= plan.options.stripe_width,
    ensures
        with_tails(codec, e, plan, subkeys, headers, footer, caps, count) matches Ok(after)
            ==> holds_all(e, after, plan.options.stripe_width),
    decreases count,
{
    let stripe = plan.options.stripe_width;
    if count == 0 {
        everything_holds_itself(e, stripe);
    } else {
        let volume = count - 1;
        tails_only_add(codec, e, plan, subkeys, headers, footer, caps, volume as nat);
        assert forall|b: Emission, bytes: Seq<u8>, label: &'static str|
            holds_all(e, b, stripe) && (#[trigger] with_part(
                b,
                volume,
                bytes,
                label,
            )) is Ok implies holds_all(e, with_part(b, volume, bytes, label)->Ok_0, stripe) by {
            parts_only_add(e, b, stripe, volume, bytes, label);
        }
    }
}

/// Closing an archive leaves in the volumes what was there, and adds behind it.
pub proof fn closing_only_adds<C: ArchiveCodec>(
    codec: &C,
    e: Emission,
    plan: PlanValue,
    subkeys: Subkeys,
    headers: Seq<Seq<u8>>,
    rev: u16,
    caps: ReaderCaps,
    answer: FooterAnswer,
)
    requires
        e.wf(plan.options.stripe_width),
    ensures
        suffix_outcome(codec, e, plan, subkeys, headers, rev, caps, answer) matches Ok(closed)
            ==> holds_all(e, closed.emission, plan.options.stripe_width),
{
    let seal = ArchiveSeal {
        subkeys,
        archive_uuid: plan.archive_uuid,
        session_id: plan.session_id,
    };
    the_body_only_adds(codec, e, plan, seal, rev);
    if let (Ok(body), Ok(footer)) = (body_outcome(codec, e, plan, seal, rev), answer) {
        let width = plan.options.stripe_width;
        tails_only_add(
            codec,
            body.emission,
            plan,
            subkeys,
            headers,
            footer,
            caps,
            width as nat,
        );
        if let Ok(after) = with_tails(
            codec,
            body.emission,
            plan,
            subkeys,
            headers,
            footer,
            caps,
            width as nat,
        ) {
            holding_is_transitive(e, body.emission, after, width);
        }
    }
}

} // verus!
