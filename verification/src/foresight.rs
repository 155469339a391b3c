//! What is planned from sources is what is written from them, as long as they say the same.
use crate::archive::replay_setting;
use crate::capture::{captured, prepared};
use crate::codec::{ArchiveCodec, ObjectDomain};
use crate::emit::{begun, with_blocks, with_object, Emission};
use crate::errors::{ArchiveWriteError, FormatError};
use crate::keys::{KdfValue, Subkeys};
use crate::members::{with_member, with_members, MembersValue};
use crate::object_plan::{classed_plan, payload_fit, ObjectExtent};
use crate::options::{parity_ignores_the_class_sizes, WriterOptions};
use crate::packing::{
    envelope_extent, flushed_plan, nothing_packed, planned_frame, PackValue, PayloadPacking,
};
use crate::payload::{chosen_frame, framed_member, needs_flush, next_frame, FramePlace};
use crate::plan::{PlanRequest, PlanValue};
use crate::planning::{
    finished_payload, is_source_plan, payload_outcome, PlannedPayload, RecordsAnswer,
};
use crate::profile::MetadataProfile;
use crate::replay::{
    flushed_replay, nothing_replayed, replayed_frame, replayed_member, replayed_members,
    replayed_payload, PayloadReplay, ReplaySetting, ReplayValue,
};
use crate::seal::{encrypted_outcome, sealed_payload};
use crate::single_pass::{sent_payload, stream_setting, DeclaredValue};
use crate::sink::ArchiveWriteSink;
use crate::source::SourceRun;
use crate::stream::{feed_of, Feed};
use crate::streaming::{
    flushed_stream, streamed_frame, StreamSetting, StreamValue, StreamingArchiveWriter,
};
use crate::wire::BlockValue;
use vstd::prelude::*;

verus! {

/// Whether two requests differ at most in the class of the index root.
pub open spec fn same_but_root_class(a: WriterOptions, b: WriterOptions) -> bool {
    b == WriterOptions {
        index_root_fec_data_shards: b.index_root_fec_data_shards,
        index_root_fec_parity_shards: b.index_root_fec_parity_shards,
        ..a
    }
}

/// Whether sealing or writing some envelope fails so.
pub open spec fn is_sealing_failure<C: ArchiveCodec>(
    codec: &C,
    s: ReplaySetting,
    f: FormatError,
) -> bool {
    exists|e: Emission, payload: Seq<u8>, counter: u64, extent: ObjectExtent| #[trigger]
        with_object(
            codec,
            e,
            payload,
            s.seal.spec_context(ObjectDomain::Envelope, counter, s.plan.options),
            s.plan.options,
            extent,
            None,
            s.rev,
        ) matches Err(g) && g == f
}

/// Whether the plan and the writing of it have come equally far.
pub open spec fn in_step(a: PackValue, b: ReplayValue) -> bool {
    &&& b.envelope_index == a.envelope_index
    &&& b.plaintext == a.plaintext
    &&& b.next_frame == a.next_frame
    &&& a.next_frame == a.frames.len()
    &&& a.envelope_index == a.objects.len()
}

/// Whether a plan has the frames and envelopes of `p`, and maybe more behind them.
pub open spec fn is_covered(p: PackValue, plan: PlanValue) -> bool {
    p.frames.is_prefix_of(plan.frames) && p.objects.is_prefix_of(plan.objects)
}

/// Whether `q` has the frames and envelopes of `p`, and maybe more behind them.
pub open spec fn grows(p: PackValue, q: PackValue) -> bool {
    p.frames.is_prefix_of(q.frames) && p.objects.is_prefix_of(q.objects)
}

proof fn fit_ignores_the_root_class(len: int, a: WriterOptions, b: WriterOptions)
    requires
        same_but_root_class(a, b),
    ensures
        payload_fit(len, a) == payload_fit(len, b),
        classed_plan(len, a.fec_data_shards as int, a.fec_parity_shards as int, a) == classed_plan(
            len,
            b.fec_data_shards as int,
            b.fec_parity_shards as int,
            b,
        ),
{
    assert forall|data: int| crate::options::parity_outcome(a, data)
        == #[trigger] crate::options::parity_outcome(b, data) by {
        parity_ignores_the_class_sizes(a, b, data);
    }
}

pub(crate) proof fn chosen_frame_ignores_the_root_class<C: ArchiveCodec>(
    codec: &C,
    chunk: Seq<u8>,
    len: int,
    a: WriterOptions,
    b: WriterOptions,
    dictionary: Option<Seq<u8>>,
)
    requires
        same_but_root_class(a, b),
    ensures
        chosen_frame(codec, chunk, len, a, dictionary) == chosen_frame(
            codec,
            chunk,
            len,
            b,
            dictionary,
        ),
    decreases len,
{
    if let Ok(frame) = codec.compressed(chunk.take(len), a.zstd_level, dictionary, a.jobs) {
        fit_ignores_the_root_class(frame.len() as int, a, b);
        if len > 1 {
            chosen_frame_ignores_the_root_class(codec, chunk, len / 2, a, b, dictionary);
        }
    }
}

pub(crate) proof fn flush_ignores_the_root_class(len: int, frame_len: int, a: WriterOptions, b: WriterOptions)
    requires
        0 <= len,
        0 <= frame_len,
        same_but_root_class(a, b),
    ensures
        needs_flush(len, frame_len, a) == needs_flush(len, frame_len, b),
{
    fit_ignores_the_root_class(len + frame_len, a, b);
}

/// A frame that the plan took is written where the plan has it.
pub(crate) proof fn frames_are_written_as_planned<C: ArchiveCodec>(
    codec: &C,
    s: ReplaySetting,
    o: WriterOptions,
    a: PackValue,
    b: ReplayValue,
    chunk: Seq<u8>,
    frame: Seq<u8>,
    place: FramePlace,
)
    requires
        same_but_root_class(o, s.plan.options),
        in_step(a, b),
        planned_frame(a, chunk, frame, place, o) matches Ok(a2) && is_covered(a2, s.plan),
    ensures
        match replayed_frame(codec, s, b, chunk, frame, place) {
            Ok(b2) => in_step(planned_frame(a, chunk, frame, place, o)->Ok_0, b2),
            Err(f) => is_sealing_failure(codec, s, f),
        },
{
    let a2 = planned_frame(a, chunk, frame, place, o)->Ok_0;
    flush_ignores_the_root_class(a.plaintext.len() as int, frame.len() as int, o, s.plan.options);
    fit_ignores_the_root_class(frame.len() as int, o, s.plan.options);
    fit_ignores_the_root_class(a.plaintext.len() as int, o, s.plan.options);
    if needs_flush(a.plaintext.len() as int, frame.len() as int, o) == Ok::<bool, FormatError>(
        true,
    ) {
        let m = flushed_plan(a, o)->Ok_0;
        assert(m.objects.len() == a.objects.len() + 1);
        assert(a2.objects == m.objects);
        assert(s.plan.objects[a.envelope_index as int] == m.objects.last()) by {
            assert(a2.objects[a.objects.len() as int] == m.objects.last());
        }
        if let Ok(w) = flushed_replay(codec, s, b) {
            assert(in_step(m, w));
            assert(a2.frames[m.frames.len() as int] == s.plan.frames[m.frames.len() as int]);
        }
    } else {
        assert(a2.frames[a.frames.len() as int] == s.plan.frames[a.frames.len() as int]);
    }
}

proof fn frames_only_add(
    p: PackValue,
    chunk: Seq<u8>,
    frame: Seq<u8>,
    place: FramePlace,
    o: WriterOptions,
)
    ensures
        planned_frame(p, chunk, frame, place, o) matches Ok(q) ==> grows(p, q),
{
    if let Ok(q) = planned_frame(p, chunk, frame, place, o) {
        assert(p.frames =~= q.frames.subrange(0, p.frames.len() as int));
        assert(p.objects =~= q.objects.subrange(0, p.objects.len() as int));
    }
}

proof fn growth_is_transitive(p: PackValue, q: PackValue, r: PackValue)
    requires
        grows(p, q),
        grows(q, r),
    ensures
        grows(p, r),
{
    assert(p.frames =~= r.frames.subrange(0, p.frames.len() as int));
    assert(p.objects =~= r.objects.subrange(0, p.objects.len() as int));
}

pub(crate) proof fn covered_by_growth(p: PackValue, q: PackValue, plan: PlanValue)
    requires
        grows(p, q),
        is_covered(q, plan),
    ensures
        is_covered(p, plan),
{
    assert(p.frames =~= plan.frames.subrange(0, p.frames.len() as int));
    assert(p.objects =~= plan.objects.subrange(0, p.objects.len() as int));
}

pub(crate) proof fn members_only_add<C: ArchiveCodec>(
    codec: &C,
    p: PackValue,
    o: WriterOptions,
    dictionary: Option<Seq<u8>>,
    feed: Feed,
    place: FramePlace,
    offset: int,
)
    ensures
        framed_member::<C, (), PayloadPacking>(
            codec,
            o,
            p,
            o,
            dictionary,
            feed,
            place,
            offset,
        ) matches Ok(q) ==> grows(p, q),
    decreases
            if offset < place.member_group_size {
                place.member_group_size - offset
            } else {
                0
            },
{
    if offset >= place.member_group_size {
        assert(p.frames =~= p.frames.subrange(0, p.frames.len() as int));
        assert(p.objects =~= p.objects.subrange(0, p.objects.len() as int));
    } else if let Ok(z) = framed_member::<C, (), PayloadPacking>(
        codec,
        o,
        p,
        o,
        dictionary,
        feed,
        place,
        offset,
    ) {
        let n = crate::payload::next_chunk_len(place.member_group_size - offset, o);
        let bytes = feed.reads(offset + n)->Ok_0;
        let chosen = chosen_frame(codec, bytes.skip(offset), n, o, dictionary)->Ok_0;
        let chunk = bytes.skip(offset).take(chosen.len);
        let at = FramePlace { member_offset: offset as u64, ..place };
        let q = planned_frame(p, chunk, chosen.frame, at, o)->Ok_0;
        frames_only_add(p, chunk, chosen.frame, at, o);
        if chosen.len >= 1 {
            members_only_add(codec, q, o, dictionary, feed, place, offset + chosen.len);
            growth_is_transitive(p, q, z);
        }
    }
}

/// The frames of a member that the plan took are written where the plan has them.
proof fn members_are_written_as_planned<C: ArchiveCodec, O: ArchiveWriteSink>(
    codec: &C,
    s: ReplaySetting,
    o: WriterOptions,
    a: PackValue,
    b: ReplayValue,
    z: PackValue,
    dictionary: Option<Seq<u8>>,
    feed: Feed,
    place: FramePlace,
    offset: int,
)
    requires
        same_but_root_class(o, s.plan.options),
        in_step(a, b),
        framed_member::<C, (), PayloadPacking>(
            codec,
            o,
            a,
            o,
            dictionary,
            feed,
            place,
            offset,
        ) == Ok::<PackValue, ArchiveWriteError>(z),
        is_covered(z, s.plan),
    ensures
        match framed_member::<C, O, PayloadReplay<'static>>(
            codec,
            s,
            b,
            s.plan.options,
            dictionary,
            feed,
            place,
            offset,
        ) {
            Ok(b2) => in_step(z, b2),
            Err(ArchiveWriteError::Format(f)) => is_sealing_failure(codec, s, f),
            Err(_) => false,
        },
    decreases
            if offset < place.member_group_size {
                place.member_group_size - offset
            } else {
                0
            },
{
    if offset < place.member_group_size {
        let n = crate::payload::next_chunk_len(place.member_group_size - offset, o);
        let bytes = feed.reads(offset + n)->Ok_0;
        chosen_frame_ignores_the_root_class(
            codec,
            bytes.skip(offset),
            n,
            o,
            s.plan.options,
            dictionary,
        );
        let chosen = chosen_frame(codec, bytes.skip(offset), n, o, dictionary)->Ok_0;
        let chunk = bytes.skip(offset).take(chosen.len);
        let at = FramePlace { member_offset: offset as u64, ..place };
        let a2 = planned_frame(a, chunk, chosen.frame, at, o)->Ok_0;
        if chosen.len >= 1 {
            members_only_add(codec, a2, o, dictionary, feed, place, offset + chosen.len);
            covered_by_growth(a2, z, s.plan);
        }
        frames_are_written_as_planned(codec, s, o, a, b, chunk, chosen.frame, at);
        if chosen.len >= 1 {
            if let Ok(b2) = replayed_frame(codec, s, b, chunk, chosen.frame, at) {
                members_are_written_as_planned::<C, O>(
                    codec,
                    s,
                    o,
                    a2,
                    b2,
                    z,
                    dictionary,
                    feed,
                    place,
                    offset + chosen.len,
                );
            }
        }
    }
}

/// The payload that is planned from the first `count` sources.
pub open spec fn planned_members<C: ArchiveCodec + MetadataProfile>(
    codec: &C,
    o: WriterOptions,
    dictionary: Option<Seq<u8>>,
    runs: Seq<SourceRun>,
    count: nat,
) -> Result<MembersValue<PackValue>, ArchiveWriteError> {
    with_members::<C, (), PayloadPacking>(
        codec,
        o,
        o,
        dictionary,
        MembersValue { members: Seq::empty(), state: nothing_packed(0) },
        runs,
        count,
    )
}

proof fn a_source_only_adds<C: ArchiveCodec + MetadataProfile>(
    codec: &C,
    o: WriterOptions,
    dictionary: Option<Seq<u8>>,
    y: MembersValue<PackValue>,
    run: SourceRun,
)
    ensures
        with_member::<C, (), PayloadPacking>(codec, o, o, dictionary, y, run) matches Ok(z) ==> {
            &&& z.members.len() == y.members.len() + 1
            &&& y.members.is_prefix_of(z.members)
            &&& grows(y.state, z.state)
        },
{
    reveal(with_member);
    if let Ok(z) = with_member::<C, (), PayloadPacking>(codec, o, o, dictionary, y, run) {
        let v = captured(codec, run.described, o.max_path_length)->Ok_0;
        let p = prepared(codec, v)->Ok_0;
        members_only_add(
            codec,
            y.state,
            o,
            dictionary,
            feed_of(p.sections, run),
            FramePlace {
                member_index: y.members.len() as usize,
                member_start: y.state.tar_total,
                member_offset: 0,
                member_group_size: p.group_size,
            },
            0,
        );
        assert(y.members =~= z.members.subrange(0, y.members.len() as int));
    }
}

/// Each source adds a member behind those before it, and frames behind theirs.
pub(crate) proof fn sources_only_add<C: ArchiveCodec + MetadataProfile>(
    codec: &C,
    o: WriterOptions,
    dictionary: Option<Seq<u8>>,
    runs: Seq<SourceRun>,
    count: nat,
    total: nat,
)
    requires
        count <= total,
        planned_members(codec, o, dictionary, runs, total) is Ok,
    ensures
        planned_members(codec, o, dictionary, runs, count) is Ok,
        ({
            let m = planned_members(codec, o, dictionary, runs, count)->Ok_0;
            let z = planned_members(codec, o, dictionary, runs, total)->Ok_0;
            &&& z.members.len() == total
            &&& m.members.len() == count
            &&& m.members.is_prefix_of(z.members)
            &&& grows(m.state, z.state)
        }),
    decreases total,
{
    let z = planned_members(codec, o, dictionary, runs, total)->Ok_0;
    if total == 0 {
        assert(z.members =~= z.members.subrange(0, 0));
        assert(z.state.frames =~= z.state.frames.subrange(0, 0));
        assert(z.state.objects =~= z.state.objects.subrange(0, 0));
    } else {
        let before = (total - 1) as nat;
        let y = planned_members(codec, o, dictionary, runs, before)->Ok_0;
        a_source_only_adds(codec, o, dictionary, y, runs[before as int]);
        sources_only_add(codec, o, dictionary, runs, before, before);
        if count < total {
            sources_only_add(codec, o, dictionary, runs, count, before);
            let m = planned_members(codec, o, dictionary, runs, count)->Ok_0;
            growth_is_transitive(m.state, y.state, z.state);
            assert(m.members =~= z.members.subrange(0, m.members.len() as int));
        } else {
            assert(z.members =~= z.members.subrange(0, z.members.len() as int));
            assert(z.state.frames =~= z.state.frames.subrange(0, z.state.frames.len() as int));
            assert(z.state.objects =~= z.state.objects.subrange(0, z.state.objects.len() as int));
        }
    }
}

/// The members of the first `count` sources are written as planned.
proof fn sources_are_written_as_planned<C: ArchiveCodec + MetadataProfile, O: ArchiveWriteSink>(
    codec: &C,
    s: ReplaySetting,
    e: Emission,
    o: WriterOptions,
    dictionary: Option<Seq<u8>>,
    runs: Seq<SourceRun>,
    count: nat,
    total: nat,
)
    requires
        count <= total <= usize::MAX,
        same_but_root_class(o, s.plan.options),
        planned_members(codec, o, dictionary, runs, total) matches Ok(z) && z.members
            == s.plan.members && is_covered(z.state, s.plan),
    ensures
        planned_members(codec, o, dictionary, runs, count) is Ok,
        match replayed_members::<C, O>(
            codec,
            s,
            nothing_replayed(e),
            dictionary,
            runs,
            count,
        ) {
            Ok(b) => in_step(planned_members(codec, o, dictionary, runs, count)->Ok_0.state, b),
            Err(ArchiveWriteError::Format(f)) => is_sealing_failure(codec, s, f),
            Err(_) => false,
        },
    decreases count,
{
    sources_only_add(codec, o, dictionary, runs, count, total);
    if count > 0 {
        let before = (count - 1) as nat;
        sources_are_written_as_planned::<C, O>(
            codec,
            s,
            e,
            o,
            dictionary,
            runs,
            before,
            total,
        );
        sources_only_add(codec, o, dictionary, runs, before, count);
        let z = planned_members(codec, o, dictionary, runs, total)->Ok_0;
        let y = planned_members(codec, o, dictionary, runs, before)->Ok_0;
        let m = planned_members(codec, o, dictionary, runs, count)->Ok_0;
        covered_by_growth(m.state, z.state, s.plan);
        if let Ok(b) = replayed_members::<C, O>(
            codec,
            s,
            nothing_replayed(e),
            dictionary,
            runs,
            before,
        ) {
            reveal(with_member);
            reveal(replayed_member);
            let run = runs[before as int];
            let v = captured(codec, run.described, o.max_path_length)->Ok_0;
            let p = prepared(codec, v)->Ok_0;
            let place = FramePlace {
                member_index: before as usize,
                member_start: y.state.tar_total,
                member_offset: 0,
                member_group_size: p.group_size,
            };
            assert(m.members[before as int] == z.members[before as int]);
            members_are_written_as_planned::<C, O>(
                codec,
                s,
                o,
                y.state,
                b,
                m.state,
                dictionary,
                feed_of(p.sections, run),
                place,
                0,
            );
        }
    }
}

/// Sources that contribute to the volumes what they contributed to the plan are written as
/// planned: nothing stands in the way but a failure to seal or write an envelope.
pub proof fn steady_sources_are_written_as_planned<
    C: ArchiveCodec + MetadataProfile,
    O: ArchiveWriteSink,
>(
    codec: &C,
    plan: PlanValue,
    subkeys: Subkeys,
    e: Emission,
    runs: Seq<SourceRun>,
    answer: RecordsAnswer,
    o: WriterOptions,
    dictionary: Option<Seq<u8>>,
    kdf: KdfValue,
    request: PlanRequest,
)
    requires
        runs.len() <= usize::MAX,
        is_source_plan(codec, runs, answer, o, dictionary, kdf, request, Ok(plan)),
    ensures
        match replayed_payload::<C, O>(
            codec,
            replay_setting(codec, plan, subkeys),
            e,
            dictionary,
            runs,
        ) {
            Ok(q) => q.next_frame == plan.frames.len() && q.envelope_index == plan.objects.len(),
            Err(ArchiveWriteError::Format(f)) => is_sealing_failure(
                codec,
                replay_setting(codec, plan, subkeys),
                f,
            ),
            Err(_) => false,
        },
{
    let s = replay_setting(codec, plan, subkeys);
    let planned = payload_outcome(codec, runs, o, dictionary)->Ok_0;
    assert(plan.members == planned.payload.members);
    assert(plan.frames == planned.payload.frames);
    assert(plan.objects == planned.payload.objects);
    assert(same_but_root_class(o, plan.options));
    let z = planned_members(codec, o, dictionary, runs, runs.len())->Ok_0;
    assert(is_covered(z.state, plan)) by {
        assert(z.state.frames =~= plan.frames.subrange(0, z.state.frames.len() as int));
        assert(z.state.objects =~= plan.objects.subrange(0, z.state.objects.len() as int));
    }
    sources_are_written_as_planned::<C, O>(
        codec,
        s,
        e,
        o,
        dictionary,
        runs,
        runs.len(),
        runs.len(),
    );
    if let Ok(b) = replayed_members::<C, O>(
        codec,
        s,
        nothing_replayed(e),
        dictionary,
        runs,
        runs.len(),
    ) {
        if b.plaintext.len() > 0 {
            let m = flushed_plan(z.state, o)->Ok_0;
            fit_ignores_the_root_class(z.state.plaintext.len() as int, o, plan.options);
            assert(plan.objects[z.state.envelope_index as int] == m.objects.last());
            if let Ok(w) = flushed_replay(codec, s, b) {
                assert(in_step(m, w));
            }
        }
    }
}

// ---------------------------------------------------------------------------------------------
// One pass and two
// ---------------------------------------------------------------------------------------------

pub(crate) proof fn blocks_leave_the_next_number<C: ArchiveCodec>(
    codec: &C,
    e: Emission,
    stripe_width: u32,
    rev: u16,
    blocks: Seq<BlockValue>,
    count: nat,
)
    ensures
        with_blocks(codec, e, stripe_width, rev, blocks, count) matches Ok(after)
            ==> after.next_block_index == e.next_block_index,
    decreases count,
{
    if count > 0 {
        blocks_leave_the_next_number(codec, e, stripe_width, rev, blocks, (count - 1) as nat);
    }
}

/// Whether the next block has the number that the plan foresees.
pub open spec fn is_level(p: StreamValue) -> bool {
    p.emission.next_block_index == p.pack.next_block
}

pub(crate) proof fn streamed_envelopes_are_planned<C: ArchiveCodec>(codec: &C, s: StreamSetting, p: StreamValue)
    requires
        s.options.block_size > 0,
        is_level(p),
    ensures
        flushed_stream(codec, s, p) matches Ok(q) ==> is_level(q) && flushed_plan(
            p.pack,
            s.options,
        ) == Ok::<PackValue, FormatError>(q.pack),
{
    if let Ok(q) = flushed_stream(codec, s, p) {
        assert(PackValue { next_block: p.emission.next_block_index, ..p.pack } == p.pack);
        let extent = envelope_extent(p.pack, s.options)->Ok_0;
        let context = s.seal.spec_context(
            ObjectDomain::Envelope,
            p.pack.envelope_index,
            s.options,
        );
        let object = encrypted_outcome(
            codec,
            p.pack.plaintext,
            context,
            p.emission.next_block_index,
            s.options,
        )->Ok_0;
        assert(object.extent == extent);
        let sealed = sealed_payload(codec, p.pack.plaintext, context, s.options)->Ok_0;
        let n = sealed.len() as int / s.options.block_size as int;
        vstd::arithmetic::div_mod::lemma_div_pos_is_pos(
            sealed.len() as int,
            s.options.block_size as int,
        );
        assert(extent.data_block_count == n as u32);
        assert(extent.data_block_count <= n) by {
            if n <= u32::MAX {
                assert(n as u32 == n);
            }
        }
        blocks_leave_the_next_number(
            codec,
            Emission {
                next_block_index: (p.emission.next_block_index + object.extent.total()) as u64,
                ..p.emission
            },
            s.options.stripe_width,
            s.rev,
            object.records,
            object.records.len(),
        );
    }
}

pub(crate) proof fn streamed_frames_are_planned<C: ArchiveCodec>(
    codec: &C,
    s: StreamSetting,
    p: StreamValue,
    chunk: Seq<u8>,
    frame: Seq<u8>,
    place: FramePlace,
)
    requires
        s.options.block_size > 0,
        is_level(p),
    ensures
        streamed_frame(codec, s, p, chunk, frame, place) matches Ok(q) ==> is_level(q)
            && planned_frame(p.pack, chunk, frame, place, s.options) == Ok::<
            PackValue,
            FormatError,
        >(q.pack),
{
    streamed_envelopes_are_planned(codec, s, p);
}

proof fn streamed_members_are_planned<C: ArchiveCodec, O: ArchiveWriteSink>(
    codec: &C,
    s: StreamSetting,
    p: StreamValue,
    feed: Feed,
    place: FramePlace,
    offset: int,
)
    requires
        s.options.block_size > 0,
        is_level(p),
    ensures
        framed_member::<C, O, StreamingArchiveWriter>(
            codec,
            s,
            p,
            s.options,
            None,
            feed,
            place,
            offset,
        ) matches Ok(q) ==> is_level(q) && framed_member::<C, (), PayloadPacking>(
            codec,
            s.options,
            p.pack,
            s.options,
            None,
            feed,
            place,
            offset,
        ) == Ok::<PackValue, ArchiveWriteError>(q.pack),
    decreases
            if offset < place.member_group_size {
                place.member_group_size - offset
            } else {
                0
            },
{
    if offset < place.member_group_size {
        if let Ok(q) = framed_member::<C, O, StreamingArchiveWriter>(
            codec,
            s,
            p,
            s.options,
            None,
            feed,
            place,
            offset,
        ) {
            let n = crate::payload::next_chunk_len(place.member_group_size - offset, s.options);
            let bytes = feed.reads(offset + n)->Ok_0;
            let chosen = chosen_frame(codec, bytes.skip(offset), n, s.options, None)->Ok_0;
            let chunk = bytes.skip(offset).take(chosen.len);
            let at = FramePlace { member_offset: offset as u64, ..place };
            streamed_frames_are_planned(codec, s, p, chunk, chosen.frame, at);
            let next = streamed_frame(codec, s, p, chunk, chosen.frame, at)->Ok_0;
            if chosen.len >= 1 {
                streamed_members_are_planned::<C, O>(
                    codec,
                    s,
                    next,
                    feed,
                    place,
                    offset + chosen.len,
                );
            }
        }
    }
}

proof fn a_streamed_source_is_planned<C: ArchiveCodec + MetadataProfile, O: ArchiveWriteSink>(
    codec: &C,
    s: StreamSetting,
    m: MembersValue<StreamValue>,
    run: SourceRun,
)
    requires
        s.options.block_size > 0,
        is_level(m.state),
    ensures
        with_member::<C, O, StreamingArchiveWriter>(codec, s, s.options, None, m, run) matches Ok(z)
            ==> is_level(z.state) && with_member::<C, (), PayloadPacking>(
            codec,
            s.options,
            s.options,
            None,
            MembersValue { members: m.members, state: m.state.pack },
            run,
        ) == Ok::<MembersValue<PackValue>, ArchiveWriteError>(
            MembersValue { members: z.members, state: z.state.pack },
        ),
{
    reveal(with_member);
    if let Ok(v) = captured(codec, run.described, s.options.max_path_length) {
        if let Ok(p) = prepared(codec, v) {
            streamed_members_are_planned::<C, O>(
                codec,
                s,
                m.state,
                feed_of(p.sections, run),
                FramePlace {
                    member_index: m.members.len() as usize,
                    member_start: m.state.pack.tar_total,
                    member_offset: 0,
                    member_group_size: p.group_size,
                },
                0,
            );
        }
    }
}

pub(crate) proof fn streamed_sources_are_planned<C: ArchiveCodec + MetadataProfile, O: ArchiveWriteSink>(
    codec: &C,
    s: StreamSetting,
    start: Emission,
    runs: Seq<SourceRun>,
    count: nat,
)
    requires
        s.options.block_size > 0,
        start.next_block_index == 0,
    ensures
        with_members::<C, O, StreamingArchiveWriter>(
            codec,
            s,
            s.options,
            None,
            MembersValue {
                members: Seq::empty(),
                state: StreamValue { pack: nothing_packed(0), emission: start },
            },
            runs,
            count,
        ) matches Ok(z) ==> is_level(z.state) && planned_members(
            codec,
            s.options,
            None,
            runs,
            count,
        ) == Ok::<MembersValue<PackValue>, ArchiveWriteError>(
            MembersValue { members: z.members, state: z.state.pack },
        ),
    decreases count,
{
    if count > 0 {
        let before = (count - 1) as nat;
        streamed_sources_are_planned::<C, O>(codec, s, start, runs, before);
        if let Ok(m) = with_members::<C, O, StreamingArchiveWriter>(
            codec,
            s,
            s.options,
            None,
            MembersValue {
                members: Seq::empty(),
                state: StreamValue { pack: nothing_packed(0), emission: start },
            },
            runs,
            before,
        ) {
            a_streamed_source_is_planned::<C, O>(codec, s, m, runs[before as int]);
        }
    }
}

/// An archive that is written while its sources are read has the payload that would be planned
/// from them: the same members, frames, envelopes and blocks.
pub proof fn one_pass_writes_the_planned_payload<
    C: ArchiveCodec + MetadataProfile,
    O: ArchiveWriteSink,
>(
    codec: &C,
    declared: DeclaredValue,
    o: WriterOptions,
    request: PlanRequest,
    runs: Seq<SourceRun>,
)
    requires
        o.block_size > 0,
    ensures
        sent_payload::<C, O, StreamingArchiveWriter>(codec, declared, o, request, runs) matches Ok(
            sent,
        ) ==> payload_outcome(codec, runs, o, None) == Ok::<PlannedPayload, ArchiveWriteError>(
            finished_payload(sent.members, sent.value.pack),
        ) && sent.value.emission.next_block_index == sent.value.pack.next_block,
{
    if let Ok(sent) = sent_payload::<C, O, StreamingArchiveWriter>(
        codec,
        declared,
        o,
        request,
        runs,
    ) {
        let s = stream_setting(codec, declared, o, request);
        let start = begun(
            codec,
            o.stripe_width,
            declared.header.bytes,
            declared.table,
            request.archive_uuid,
            request.session_id,
            request.volume_format_rev,
            request.root_auth is Some,
        )->Ok_0;
        streamed_sources_are_planned::<C, O>(codec, s, start, runs, runs.len());
        let taken = with_members::<C, O, StreamingArchiveWriter>(
            codec,
            s,
            o,
            None,
            MembersValue {
                members: Seq::empty(),
                state: StreamValue { pack: nothing_packed(0), emission: start },
            },
            runs,
            runs.len(),
        )->Ok_0;
        streamed_envelopes_are_planned(codec, s, taken.state);
    }
}

} // verus!
