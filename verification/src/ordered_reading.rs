//! Reading an archive whose frames and envelopes were made apart and written in order.
use crate::capture::{captured, prepared};
use crate::codec::{ArchiveCodec, ObjectDomain};
use crate::emit::{begun, with_object, Emission};
use crate::errors::FormatError;
use crate::members::{with_member, with_members, MembersValue};
use crate::object_plan::ObjectExtent;
use crate::options::{ReaderCaps, WriterOptions};
use crate::ordered::{
    flushed_ordered, ordered_frame, serialized_blocks_are_written_alike, with_job, EnvelopeJobValue,
    OrderedParallelState,
};
use crate::packing::{
    envelope_extent, flushed_plan, nothing_packed, planned_frame, with_hashed, with_packed_frame,
    PackValue,
};
use crate::payload::{framed_member, needs_flush, next_chunk_len, FramePlace};
use crate::plan::{PlanRequest, PlanValue};
use crate::profile::MetadataProfile;
use crate::readback::{
    a_frame_leaves_written_envelopes, an_envelope_is_written, closing_only_adds,
    envelopes_are_written, everything_holds_itself, nothing_is_written, the_next_number_is_kept,
};
use crate::reading::{
    begins_with_payload, members_in_place_read_back, payloads_stay, reads_back, undoes,
    written_envelopes_leave_order, Decoder,
};
use crate::seal::{direct_serialization_matches_sealing, encrypted_outcome};
use crate::seek::{
    a_closed_payload_is_in_order, a_frame_and_the_rest, a_member_takes_its_place,
    closing_keeps_order, fitting_frames_are_short, frame_bytes, frame_keeps_order, group_of,
    is_packed, joined_groups, member_in_place, member_packed, members_feed_their_group,
    members_in_place, packing_keeps_order,
};
use crate::single_pass::{sent_payload, stream_setting, DeclaredValue};
use crate::sink::ArchiveWriteSink;
use crate::source::SourceRun;
use crate::stream::{feed_of, Feed};
use crate::streaming::{StreamSetting, StreamValue};
use crate::suffix::{suffix_outcome, FooterAnswer};
use vstd::prelude::*;

verus! {

/// What a frame is compressed by where frames are made apart: each by itself.
pub open spec fn apart(o: WriterOptions) -> WriterOptions {
    WriterOptions { jobs: 1, ..o }
}

/// The archive in the making, with the next block where the payload has it.
pub open spec fn settled(p: StreamValue) -> Emission {
    Emission { next_block_index: p.pack.next_block, ..p.emission }
}

/// Whether a payload that is written in order is in order.
pub open spec fn is_ordered<C: ArchiveCodec>(
    codec: &C,
    s: StreamSetting,
    start: Emission,
    p: StreamValue,
) -> bool {
    &&& is_packed(codec, apart(s.options), None, p.pack)
    &&& envelopes_are_written(
        codec,
        apart(s.options),
        None,
        s,
        start,
        p.pack.hashed,
        p.pack.frames,
        p.pack.objects,
        settled(p),
    )
}

/// An envelope that was sealed apart is written as one that is sealed in its turn.
pub proof fn jobs_write_their_object<C: ArchiveCodec>(
    codec: &C,
    s: StreamSetting,
    e: Emission,
    p: PackValue,
    extent: ObjectExtent,
)
    requires
        s.options.block_size > 0,
        envelope_extent(p, s.options) == Ok::<ObjectExtent, FormatError>(extent),
        extent.first_block_index + extent.total() <= u64::MAX,
    ensures
        with_job(
            codec,
            s,
            e,
            (EnvelopeJobValue {
                envelope_index: p.envelope_index,
                plaintext: p.plaintext,
                extent,
                collect: e.leaves is Some,
            }),
        ) matches Ok(after) ==> {
            &&& with_object(
                codec,
                Emission { next_block_index: p.next_block, ..e },
                p.plaintext,
                s.seal.spec_context(ObjectDomain::Envelope, p.envelope_index, s.options),
                s.options,
                extent,
                None,
                s.rev,
            ) matches Ok(w)
            &&& w.emission == Emission {
                next_block_index: (p.next_block + extent.total()) as u64,
                ..after
            }
        },
{
    let o = s.options;
    let context = s.seal.spec_context(ObjectDomain::Envelope, p.envelope_index, o);
    let job = EnvelopeJobValue {
        envelope_index: p.envelope_index,
        plaintext: p.plaintext,
        extent,
        collect: e.leaves is Some,
    };
    if let Ok(after) = with_job(codec, s, e, job) {
        if extent.parity_block_count == 0 && !job.collect {
            direct_serialization_matches_sealing(codec, p.plaintext, context, extent, o);
        }
        let object = encrypted_outcome(
            codec,
            p.plaintext,
            context,
            extent.first_block_index,
            o,
        )->Ok_0;
        if extent.parity_block_count == 0 && !job.collect {
            serialized_blocks_are_written_alike(
                codec,
                e,
                o.stripe_width,
                s.rev,
                object.records,
                object.records.len(),
            );
        }
        the_next_number_is_kept(
            codec,
            e,
            (p.next_block + extent.total()) as u64,
            o.stripe_width,
            s.rev,
            object.records,
            object.records.len(),
        );
    }
}

proof fn ordered_envelopes_keep_order<C: ArchiveCodec>(
    codec: &C,
    s: StreamSetting,
    start: Emission,
    p: StreamValue,
)
    requires
        s.options.block_size > 0,
        is_ordered(codec, s, start, p),
    ensures
        flushed_ordered(codec, s, p) matches Ok(q) ==> {
            &&& is_ordered(codec, s, start, q)
            &&& flushed_plan(p.pack, s.options) == Ok::<PackValue, FormatError>(q.pack)
        },
{
    let o = s.options;
    if let Ok(q) = flushed_ordered(codec, s, p) {
        closing_keeps_order(codec, apart(o), o, None, p.pack);
        let object = q.pack.objects.last();
        jobs_write_their_object(codec, s, p.emission, p.pack, object.object);
        assert(q.pack.objects == p.pack.objects.push(object));
        assert(Seq::<EnvelopeJobValue>::empty().push(
            EnvelopeJobValue {
                envelope_index: p.pack.envelope_index,
                plaintext: p.pack.plaintext,
                extent: object.object,
                collect: p.emission.leaves is Some,
            },
        )[0].extent == object.object);
        an_envelope_is_written(
            codec,
            apart(o),
            None,
            s,
            start,
            p.pack,
            settled(p),
            object,
        );
    }
}

/// A frame that goes to an envelope is no longer than its length field can say.
proof fn taken_frames_are_short(
    p: PackValue,
    chunk: Seq<u8>,
    frame: Seq<u8>,
    place: FramePlace,
    o: WriterOptions,
)
    requires
        o.block_size > 0,
        planned_frame(p, chunk, frame, place, o) is Ok,
    ensures
        frame.len() <= u32::MAX,
{
    let len = p.plaintext.len() as int;
    match needs_flush(len, frame.len() as int, o) {
        Ok(false) => {
            if len > 0 {
                fitting_frames_are_short(len + frame.len(), o);
            } else {
                fitting_frames_are_short(frame.len() as int, o);
            }
        },
        _ => {
            fitting_frames_are_short(frame.len() as int, o);
        },
    }
}

/// A frame in its turn is packed as a planned one.
proof fn ordered_frames_are_planned<C: ArchiveCodec>(
    codec: &C,
    s: StreamSetting,
    p: StreamValue,
    chunk: Seq<u8>,
    frame: Seq<u8>,
    place: FramePlace,
)
    ensures
        ordered_frame(codec, s, p, chunk, frame, place) matches Ok(q) ==> {
            &&& planned_frame(p.pack, chunk, frame, place, s.options) == Ok::<
                PackValue,
                FormatError,
            >(q.pack)
            &&& match needs_flush(
                p.pack.plaintext.len() as int,
                frame.len() as int,
                s.options,
            ) {
                Ok(true) => {
                    &&& flushed_ordered(codec, s, p) matches Ok(ready)
                    &&& q.emission == ready.emission
                    &&& q.pack.next_block == ready.pack.next_block
                    &&& with_packed_frame(ready.pack, chunk, frame, place, s.options) == Ok::<
                        PackValue,
                        FormatError,
                    >(q.pack)
                },
                _ => {
                    &&& q.emission == p.emission
                    &&& q.pack.next_block == p.pack.next_block
                    &&& with_packed_frame(p.pack, chunk, frame, place, s.options) == Ok::<
                        PackValue,
                        FormatError,
                    >(q.pack)
                },
            }
        },
{
    if let Ok(q) = ordered_frame(codec, s, p, chunk, frame, place) {
        let o = s.options;
        let hashed = with_hashed(p.pack, chunk);
        if needs_flush(p.pack.plaintext.len() as int, frame.len() as int, o) == Ok::<
            bool,
            FormatError,
        >(true) {
            let f = flushed_plan(p.pack, o)->Ok_0;
            assert(flushed_plan(hashed, o) == Ok::<PackValue, FormatError>(with_hashed(f, chunk)));
        }
    }
}

#[verifier::rlimit(40)]
#[verifier::spinoff_prover]
proof fn ordered_frames_keep_order<C: ArchiveCodec>(
    codec: &C,
    s: StreamSetting,
    start: Emission,
    p: StreamValue,
    chunk: Seq<u8>,
    frame: Seq<u8>,
    place: FramePlace,
)
    requires
        s.options.block_size > 0,
        is_ordered(codec, s, start, p),
        place.member_start + place.member_offset == p.pack.tar_total,
        frame_bytes(codec, apart(s.options), None, chunk) == Ok::<Seq<u8>, FormatError>(frame),
        chunk.len() <= u32::MAX,
    ensures
        ordered_frame(codec, s, p, chunk, frame, place) matches Ok(q) ==> {
            &&& is_ordered(codec, s, start, q)
            &&& planned_frame(p.pack, chunk, frame, place, s.options) == Ok::<
                PackValue,
                FormatError,
            >(q.pack)
            &&& frame.len() <= u32::MAX
        },
{
    if let Ok(q) = ordered_frame(codec, s, p, chunk, frame, place) {
        let o = s.options;
        ordered_frames_are_planned(codec, s, p, chunk, frame, place);
        taken_frames_are_short(p.pack, chunk, frame, place, o);
        frame_keeps_order(codec, apart(o), o, None, p.pack, chunk, frame, place);
        let flush = needs_flush(p.pack.plaintext.len() as int, frame.len() as int, o) == Ok::<
            bool,
            FormatError,
        >(true);
        if flush {
            ordered_envelopes_keep_order(codec, s, start, p);
            closing_keeps_order(codec, apart(o), o, None, p.pack);
        }
        let ready = if flush {
            flushed_ordered(codec, s, p)->Ok_0
        } else {
            p
        };
        packing_keeps_order(codec, apart(o), o, None, ready.pack, chunk, frame, place);
        assert(q.pack.hashed.take(ready.pack.hashed.len() as int) =~= ready.pack.hashed);
        assert(settled(q) == settled(ready));
        a_frame_leaves_written_envelopes(
            codec,
            apart(o),
            None,
            s,
            start,
            ready.pack,
            q.pack,
            settled(q),
        );
    }
}

#[verifier::rlimit(40)]
#[verifier::spinoff_prover]
proof fn ordered_members_keep_order<C: ArchiveCodec, O: ArchiveWriteSink>(
    codec: &C,
    s: StreamSetting,
    start: Emission,
    p: StreamValue,
    feed: Feed,
    place: FramePlace,
    offset: int,
)
    requires
        s.options.block_size > 0,
        s.options.chunk_size > 0,
        is_ordered(codec, s, start, p),
        0 <= offset <= place.member_group_size,
        place.member_start + offset == p.pack.tar_total,
        feed.bytes.len() == place.member_group_size,
    ensures
        framed_member::<C, O, OrderedParallelState>(
            codec,
            s,
            p,
            s.options,
            None,
            feed,
            place,
            offset,
        ) matches Ok(q) ==> {
            &&& is_ordered(codec, s, start, q)
            &&& member_packed(p.pack, q.pack, feed, place, offset)
            &&& offset == place.member_group_size ==> q == p
        },
    decreases place.member_group_size - offset,
{
    let o = s.options;
    let size = place.member_group_size as int;
    if offset >= size {
        reveal(member_packed);
        assert(p.pack.hashed + feed.bytes.subrange(offset, size) =~= p.pack.hashed);
        assert(p.pack.frames.take(p.pack.frames.len() as int) =~= p.pack.frames);
    } else if let Ok(q) = framed_member::<C, O, OrderedParallelState>(
        codec,
        s,
        p,
        o,
        None,
        feed,
        place,
        offset,
    ) {
        let n = next_chunk_len(size - offset, o);
        let bytes = feed.reads(offset + n)->Ok_0;
        let rest = bytes.skip(offset);
        let chunk = rest.take(n);
        let frame = codec.compressed(chunk, o.zstd_level, None, 1)->Ok_0;
        let here = FramePlace { member_offset: offset as u64, ..place };
        assert(frame_bytes(codec, apart(o), None, chunk) == Ok::<Seq<u8>, FormatError>(frame));
        ordered_frames_keep_order(codec, s, start, p, chunk, frame, here);
        let next = ordered_frame(codec, s, p, chunk, frame, here)->Ok_0;
        frame_keeps_order(codec, apart(o), o, None, p.pack, chunk, frame, here);
        ordered_members_keep_order::<C, O>(codec, s, start, next, feed, place, offset + n);
        assert(chunk =~= feed.bytes.subrange(offset, offset + n));
        a_frame_and_the_rest(p.pack, next.pack, q.pack, feed, place, offset, n);
    }
}

/// The members and their packed frames, without what was written of them.
pub open spec fn packed_members(m: MembersValue<StreamValue>) -> MembersValue<PackValue> {
    MembersValue { members: m.members, state: m.state.pack }
}

proof fn an_ordered_source_keeps_order<C: ArchiveCodec + MetadataProfile, O: ArchiveWriteSink>(
    codec: &C,
    s: StreamSetting,
    start: Emission,
    runs: Seq<SourceRun>,
    m: MembersValue<StreamValue>,
    count: nat,
)
    requires
        s.options.block_size > 0,
        s.options.chunk_size > 0,
        count < runs.len() <= usize::MAX,
        is_ordered(codec, s, start, m.state),
        members_in_place(codec, apart(s.options), None, runs, packed_members(m), count),
    ensures
        with_member::<C, O, OrderedParallelState>(
            codec,
            s,
            s.options,
            None,
            m,
            runs[count as int],
        ) matches Ok(next) ==> {
            &&& is_ordered(codec, s, start, next.state)
            &&& members_in_place(
                codec,
                apart(s.options),
                None,
                runs,
                packed_members(next),
                count + 1,
            )
        },
{
    reveal(with_member);
    let o = s.options;
    let run = runs[count as int];
    if let Ok(next) = with_member::<C, O, OrderedParallelState>(codec, s, o, None, m, run) {
        let v = captured(codec, run.described, o.max_path_length)->Ok_0;
        let prep = prepared(codec, v)->Ok_0;
        members_feed_their_group(codec, v, run);
        let feed = feed_of(prep.sections, run);
        assert(m.members.len() == count) by {
            reveal(members_in_place);
        }
        let place = FramePlace {
            member_index: m.members.len() as usize,
            member_start: m.state.pack.tar_total,
            member_offset: 0,
            member_group_size: prep.group_size,
        };
        ordered_members_keep_order::<C, O>(codec, s, start, m.state, feed, place, 0);
        let member = next.members.last();
        assert(next.members =~= m.members.push(member));
        assert(feed.bytes == group_of(codec, apart(o), run));
        a_member_takes_its_place(
            codec,
            apart(o),
            None,
            runs,
            packed_members(m),
            count,
            packed_members(next),
            feed,
            place,
            member,
        );
    }
}

proof fn ordered_sources_keep_order<C: ArchiveCodec + MetadataProfile, O: ArchiveWriteSink>(
    codec: &C,
    s: StreamSetting,
    start: Emission,
    runs: Seq<SourceRun>,
    count: nat,
)
    requires
        s.options.block_size > 0,
        s.options.chunk_size > 0,
        count <= runs.len() <= usize::MAX,
        start.next_block_index == 0,
    ensures
        with_members::<C, O, OrderedParallelState>(
            codec,
            s,
            s.options,
            None,
            MembersValue {
                members: Seq::empty(),
                state: StreamValue { pack: nothing_packed(0), emission: start },
            },
            runs,
            count,
        ) matches Ok(m) ==> {
            &&& is_ordered(codec, s, start, m.state)
            &&& members_in_place(codec, apart(s.options), None, runs, packed_members(m), count)
        },
    decreases count,
{
    let first = MembersValue::<StreamValue> {
        members: Seq::empty(),
        state: StreamValue { pack: nothing_packed(0), emission: start },
    };
    if count == 0 {
        nothing_is_written(codec, apart(s.options), None, s, start);
        assert(settled(first.state) == start);
        reveal(members_in_place);
    } else {
        let before = (count - 1) as nat;
        ordered_sources_keep_order::<C, O>(codec, s, start, runs, before);
        if let Ok(m) = with_members::<C, O, OrderedParallelState>(
            codec,
            s,
            s.options,
            None,
            first,
            runs,
            before,
        ) {
            an_ordered_source_keeps_order::<C, O>(codec, s, start, runs, m, before);
        }
    }
}

/// The payload of an archive whose frames and envelopes were made apart is in order: its frames
/// and envelopes follow one another, every envelope was written, and every member is in its place.
#[verifier::rlimit(40)]
#[verifier::spinoff_prover]
pub proof fn ordered_payloads_are_in_order<
    C: ArchiveCodec + MetadataProfile,
    O: ArchiveWriteSink,
>(
    codec: &C,
    declared: DeclaredValue,
    o: WriterOptions,
    request: PlanRequest,
    runs: Seq<SourceRun>,
)
    requires
        o.block_size > 0,
        o.chunk_size > 0,
        o.stripe_width > 0,
        runs.len() <= usize::MAX,
    ensures
        sent_payload::<C, O, OrderedParallelState>(codec, declared, o, request, runs) matches Ok(
            sent,
        ) ==> {
            let start = begun(
                codec,
                o.stripe_width,
                declared.header.bytes,
                declared.table,
                request.archive_uuid,
                request.session_id,
                request.volume_format_rev,
                request.root_auth is Some,
            )->Ok_0;
            let stream = joined_groups(codec, apart(o), runs, runs.len());
            let pack = sent.value.pack;
            let e = settled(sent.value);
            &&& e.wf(o.stripe_width)
            &&& begins_with_payload(
                codec,
                apart(o),
                None,
                stream_setting(codec, declared, o, request),
                start,
                stream,
                pack.frames,
                pack.objects,
                e,
            )
            &&& sent.members.len() == runs.len()
            &&& forall|i: int|
                0 <= i < runs.len() ==> member_in_place(
                    pack.frames,
                    stream,
                    #[trigger] sent.members[i],
                    i,
                    group_of(codec, o, runs[i]),
                )
        },
{
    if let Ok(sent) = sent_payload::<C, O, OrderedParallelState>(
        codec,
        declared,
        o,
        request,
        runs,
    ) {
        let s = stream_setting(codec, declared, o, request);
        let start = begun(
            codec,
            o.stripe_width,
            declared.header.bytes,
            declared.table,
            request.archive_uuid,
            request.session_id,
            request.volume_format_rev,
            request.root_auth is Some,
        )->Ok_0;
        ordered_sources_keep_order::<C, O>(codec, s, start, runs, runs.len());
        let last = with_members::<C, O, OrderedParallelState>(
            codec,
            s,
            o,
            None,
            MembersValue {
                members: Seq::empty(),
                state: StreamValue { pack: nothing_packed(0), emission: start },
            },
            runs,
            runs.len(),
        )->Ok_0;
        if last.state.pack.plaintext.len() > 0 {
            ordered_envelopes_keep_order(codec, s, start, last.state);
            closing_keeps_order(codec, apart(o), o, None, last.state.pack);
        }
        let pack = sent.value.pack;
        let e = settled(sent.value);
        a_closed_payload_is_in_order(codec, apart(o), None, pack);
        assert(pack.hashed == joined_groups(codec, apart(o), runs, runs.len())) by {
            reveal(members_in_place);
        }
        written_envelopes_leave_order(
            codec,
            apart(o),
            None,
            s,
            start,
            pack.hashed,
            pack.frames,
            pack.objects,
            e,
        );
        assert(begins_with_payload(
            codec,
            apart(o),
            None,
            s,
            start,
            pack.hashed,
            pack.frames,
            pack.objects,
            e,
        )) by {
            reveal(begins_with_payload);
            everything_holds_itself(e, o.stripe_width);
        }
        assert(sent.members.len() == runs.len()) by {
            reveal(members_in_place);
        }
        assert forall|i: int| 0 <= i < runs.len() implies member_in_place(
            pack.frames,
            pack.hashed,
            #[trigger] sent.members[i],
            i,
            group_of(codec, o, runs[i]),
        ) by {
            reveal(members_in_place);
            assert(packed_members(last).members[i] == sent.members[i]);
            assert(group_of(codec, o, runs[i]) == group_of(codec, apart(o), runs[i]));
        }
    }
}

/// An archive whose frames and envelopes were made apart and written in order, and that was then
/// closed with the metadata of some plan, gives every member back: what undoes the codec reads
/// the tar records of each source from the volumes, by its frames and envelopes.
#[verifier::rlimit(40)]
#[verifier::spinoff_prover]
pub proof fn ordered_archives_read_back<C: ArchiveCodec + MetadataProfile, O: ArchiveWriteSink>(
    d: Decoder,
    codec: &C,
    declared: DeclaredValue,
    o: WriterOptions,
    request: PlanRequest,
    runs: Seq<SourceRun>,
    plan: PlanValue,
    headers: Seq<Seq<u8>>,
    caps: ReaderCaps,
    answer: FooterAnswer,
)
    requires
        o.block_size > 0,
        o.chunk_size > 0,
        o.stripe_width > 0,
        runs.len() <= usize::MAX,
        plan.options.stripe_width == o.stripe_width,
        undoes(d, codec, apart(o), None, o),
    ensures
        sent_payload::<C, O, OrderedParallelState>(codec, declared, o, request, runs) matches Ok(
            sent,
        ) ==> (suffix_outcome(
            codec,
            settled(sent.value),
            plan,
            declared.subkeys,
            headers,
            request.volume_format_rev,
            caps,
            answer,
        ) matches Ok(closed) ==> {
            let start = begun(
                codec,
                o.stripe_width,
                declared.header.bytes,
                declared.table,
                request.archive_uuid,
                request.session_id,
                request.volume_format_rev,
                request.root_auth is Some,
            )->Ok_0;
            &&& sent.members.len() == runs.len()
            &&& forall|i: int|
                0 <= i < runs.len() ==> reads_back(
                    d,
                    start.volumes,
                    closed.emission.volumes,
                    stream_setting(codec, declared, o, request),
                    sent.value.pack.objects,
                    sent.value.pack.frames,
                    #[trigger] sent.members[i],
                    i,
                    group_of(codec, o, runs[i]),
                )
        }),
{
    if let Ok(sent) = sent_payload::<C, O, OrderedParallelState>(
        codec,
        declared,
        o,
        request,
        runs,
    ) {
        ordered_payloads_are_in_order::<C, O>(codec, declared, o, request, runs);
        let e = settled(sent.value);
        if let Ok(closed) = suffix_outcome(
            codec,
            e,
            plan,
            declared.subkeys,
            headers,
            request.volume_format_rev,
            caps,
            answer,
        ) {
            let start = begun(
                codec,
                o.stripe_width,
                declared.header.bytes,
                declared.table,
                request.archive_uuid,
                request.session_id,
                request.volume_format_rev,
                request.root_auth is Some,
            )->Ok_0;
            let s = stream_setting(codec, declared, o, request);
            let stream = joined_groups(codec, apart(o), runs, runs.len());
            let pack = sent.value.pack;
            closing_only_adds(
                codec,
                e,
                plan,
                declared.subkeys,
                headers,
                request.volume_format_rev,
                caps,
                answer,
            );
            payloads_stay(
                codec,
                apart(o),
                None,
                s,
                start,
                stream,
                pack.frames,
                pack.objects,
                e,
                closed.emission,
            );
            assert forall|i: int| 0 <= i < runs.len() implies reads_back(
                d,
                start.volumes,
                closed.emission.volumes,
                s,
                pack.objects,
                pack.frames,
                #[trigger] sent.members[i],
                i,
                group_of(codec, o, runs[i]),
            ) by {
                members_in_place_read_back(
                    d,
                    codec,
                    apart(o),
                    None,
                    s,
                    start,
                    stream,
                    pack.frames,
                    pack.objects,
                    closed.emission,
                    sent.members[i],
                    i,
                    group_of(codec, o, runs[i]),
                );
            }
        }
    }
}

} // verus!
