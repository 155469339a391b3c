//! Writing the payload that was planned: the sources are read again, and have to say the same.
use crate::arith::{checked_u64_add, fit_u32, u32_len};
use crate::bytes::{append, same_bytes};
use crate::capture::{
    capture_member, captured, declares_all, may_describe, open_member, prepared,
    StreamingRegularMember,
};
use crate::codec::{ArchiveCodec, ObjectDomain};
use crate::emit::{
    emission, emit_encrypted_object, lift, with_object, Emission, WriterEmissionState,
};
use crate::errors::{ArchiveWriteError, FormatError};
use crate::member::{layout_outcome, source_payload_size_outcome};
use crate::members::may_run_all;
use crate::metadata::same_extents;
use crate::object_plan::payload_object_can_fit;
use crate::objects::ArchiveSeal;
use crate::options::{opt_bytes, WriterOptions};
use crate::packing::{placed_frame, PackValue};
use crate::payload::{
    bounded_chunk_len, frame_member, framed_member, goes, needs_flush, next_chunk_len,
    payload_envelope_needs_flush, payload_frame_metadata, FramePlace, FrameTaker, Framing,
    PayloadEnvelopeBuilder, PayloadFrameMetadataInput,
};
use crate::plan::{PlanValue, WriterPlan};
use crate::profile::MetadataProfile;
use crate::progress::{phases_of, ArchiveWriteProgressSink, SourceProgressState};
use crate::root_auth::PayloadObject;
use crate::rows::TarMember;
use crate::seal::ObjectEncryptionContext;
use crate::shard::PayloadFrame;
use crate::sink::{failure_of, standing, ArchiveWriteSink, Standing};
use crate::source::{may_run, take_requests, Described, RegularFileSource, SourceRun};
use crate::stream::feed_of;
use crate::suffix::header_values;
use crate::tally::{
    drawn_members_are_told, no_members_are_told, one_more_is_told, tells_member, tells_members,
};
use vstd::prelude::*;

verus! {

/// How far the planned payload is written.
pub struct ReplayValue {
    pub envelope_index: u64,
    pub plaintext: Seq<u8>,
    pub next_frame: u64,
    pub emission: Emission,
}

/// What the payload is written by.
pub struct ReplaySetting {
    pub plan: PlanValue,
    pub seal: ArchiveSeal,
    pub rev: u16,
    pub headers: Seq<Seq<u8>>,
}

/// The payload after the current envelope was written as planned.
pub open spec fn flushed_replay<C: ArchiveCodec>(
    codec: &C,
    s: ReplaySetting,
    p: ReplayValue,
) -> Result<ReplayValue, FormatError> {
    if p.envelope_index >= s.plan.objects.len() {
        Err(FormatError::WriterInvariant("planned payload envelope is missing"))
    } else {
        let expected = s.plan.objects[p.envelope_index as int];
        if expected.envelope_index != p.envelope_index {
            Err(FormatError::WriterInvariant("emitted payload envelope does not match plan"))
        } else {
            match fit_u32(p.plaintext.len() as int, "EnvelopeEntry.plaintext_size") {
                Err(e) => Err(e),
                Ok(size) => if expected.plaintext_size != size {
                    Err(
                        FormatError::WriterInvariant(
                            "emitted payload envelope does not match plan",
                        ),
                    )
                } else {
                    match with_object(
                        codec,
                        p.emission,
                        p.plaintext,
                        s.seal.spec_context(
                            ObjectDomain::Envelope,
                            p.envelope_index,
                            s.plan.options,
                        ),
                        s.plan.options,
                        expected.object,
                        None,
                        s.rev,
                    ) {
                        Err(e) => Err(e),
                        Ok(w) => if p.envelope_index + 1 > u64::MAX {
                            Err(FormatError::WriterUnsupported("EnvelopeEntry"))
                        } else {
                            Ok(
                                ReplayValue {
                                    envelope_index: (p.envelope_index + 1) as u64,
                                    plaintext: Seq::empty(),
                                    emission: w.emission,
                                    ..p
                                },
                            )
                        },
                    }
                },
            }
        }
    }
}

/// Whether two frames are the same but for their number.
pub open spec fn same_frame(a: PayloadFrame, b: PayloadFrame) -> bool {
    a == PayloadFrame { frame_index: a.frame_index, ..b }
}

/// The payload as far as it bears on where a frame goes.
pub open spec fn replay_pack(p: ReplayValue) -> PackValue {
    PackValue {
        envelope_index: p.envelope_index,
        plaintext: p.plaintext,
        next_frame: p.next_frame,
        ..crate::packing::nothing_packed(0)
    }
}

/// The payload after a frame that the plan foresees.
pub open spec fn with_replayed_frame(
    s: ReplaySetting,
    p: ReplayValue,
    chunk: Seq<u8>,
    frame: Seq<u8>,
    place: FramePlace,
) -> Result<ReplayValue, FormatError> {
    match placed_frame(
        replay_pack(p),
        chunk.len() as int,
        frame.len() as int,
        place,
        s.plan.options,
    ) {
        Err(e) => Err(e),
        Ok(actual) => if p.next_frame >= s.plan.frames.len() {
            Err(FormatError::WriterInvariant("planned payload frame is missing"))
        } else if !same_frame(s.plan.frames[p.next_frame as int], actual) {
            Err(FormatError::WriterInvariant("emitted payload frame does not match plan"))
        } else if p.next_frame + 1 > u64::MAX {
            Err(FormatError::WriterUnsupported("PayloadFrame.frame_index"))
        } else {
            Ok(
                ReplayValue {
                    plaintext: p.plaintext + frame,
                    next_frame: (p.next_frame + 1) as u64,
                    ..p
                },
            )
        },
    }
}

pub open spec fn replayed_frame<C: ArchiveCodec>(
    codec: &C,
    s: ReplaySetting,
    p: ReplayValue,
    chunk: Seq<u8>,
    frame: Seq<u8>,
    place: FramePlace,
) -> Result<ReplayValue, FormatError> {
    match needs_flush(p.plaintext.len() as int, frame.len() as int, s.plan.options) {
        Err(e) => Err(e),
        Ok(false) => with_replayed_frame(s, p, chunk, frame, place),
        Ok(true) => match flushed_replay(codec, s, p) {
            Err(e) => Err(e),
            Ok(q) => with_replayed_frame(s, q, chunk, frame, place),
        },
    }
}

/// Writes the planned payload.
pub struct PayloadReplay<'p> {
    pub plan: &'p WriterPlan,
    pub seal: ArchiveSeal,
    pub envelope: PayloadEnvelopeBuilder,
    pub next_frame_index: u64,
    pub state: WriterEmissionState,
}

impl<'p> PayloadReplay<'p> {
    pub open spec fn value<O: ArchiveWriteSink>(&self, sink: O) -> ReplayValue {
        ReplayValue {
            envelope_index: self.envelope.envelope_index,
            plaintext: self.envelope.plaintext@,
            next_frame: self.next_frame_index,
            emission: emission(sink, self.state),
        }
    }

    pub open spec fn kept(&self) -> ReplaySetting {
        ReplaySetting {
            plan: self.plan@,
            seal: self.seal,
            rev: self.state.volume_format_rev,
            headers: header_values(self.state),
        }
    }

    pub open spec fn in_order<O: ArchiveWriteSink>(&self, sink: O) -> bool {
        &&& self.plan.wf()
        &&& self.plan.options.block_size > 0
        &&& emission(sink, self.state).wf(self.plan.options.stripe_width)
    }
}

/// Whether writing went as `outcome` says.
pub open spec fn replays(
    before: Standing,
    now: Standing,
    after: ReplayValue,
    outcome: Result<ReplayValue, FormatError>,
    r: Result<(), ArchiveWriteError>,
) -> bool {
    &&& r is Ok ==> outcome == Ok::<ReplayValue, FormatError>(after)
    &&& before.hands_on(now, failure_of(r))
    &&& before.undisturbed(now) ==> match outcome {
        Ok(_) => r is Ok,
        Err(e) => r == Err::<(), ArchiveWriteError>(ArchiveWriteError::Format(e)),
    }
}

/// Writes the current envelope as planned.
pub fn flush_payload_envelope_emit<'p, C: ArchiveCodec, O: ArchiveWriteSink>(
    codec: &C,
    replay: &mut PayloadReplay<'p>,
    sink: &mut O,
) -> (r: Result<(), ArchiveWriteError>)
    requires
        old(replay).in_order(*old(sink)),
    ensures
        final(replay).kept() == old(replay).kept(),
        final(replay).plan == old(replay).plan,
        r is Ok ==> final(replay).in_order(*final(sink)),
        replays(
            standing(*old(sink)),
            standing(*final(sink)),
            final(replay).value(*final(sink)),
            flushed_replay(codec, old(replay).kept(), old(replay).value(*old(sink))),
            r,
        ),
{
    let plan: &'p WriterPlan = replay.plan;
    let options: WriterOptions = plan.options;
    let index: u64 = replay.envelope.envelope_index;
    if index >= plan.payload_objects.len() as u64 {
        return Err(
            ArchiveWriteError::Format(
                FormatError::WriterInvariant("planned payload envelope is missing"),
            ),
        );
    }
    let expected: PayloadObject = plan.payload_objects[index as usize];
    if expected.envelope_index != index {
        return Err(
            ArchiveWriteError::Format(
                FormatError::WriterInvariant("emitted payload envelope does not match plan"),
            ),
        );
    }
    let size: u32 = lift(
        u32_len(replay.envelope.plaintext.len(), "EnvelopeEntry.plaintext_size"),
    )?;
    if expected.plaintext_size != size {
        return Err(
            ArchiveWriteError::Format(
                FormatError::WriterInvariant("emitted payload envelope does not match plan"),
            ),
        );
    }
    let context: ObjectEncryptionContext = replay.seal.context(
        ObjectDomain::Envelope,
        index,
        options,
    );
    emit_encrypted_object(
        codec,
        replay.envelope.plaintext.as_slice(),
        &context,
        options,
        expected.object,
        None,
        sink,
        &mut replay.state,
    )?;
    replay.envelope.envelope_index = lift(checked_u64_add(index, 1, "EnvelopeEntry"))?;
    replay.envelope.plaintext = Vec::new();
    assert(replay.envelope.plaintext@ =~= Seq::<u8>::empty());
    Ok(())
}

/// Takes a frame that the plan foresees.
pub fn append_payload_frame_to_emit<'p, C: ArchiveCodec, O: ArchiveWriteSink>(
    codec: &C,
    replay: &mut PayloadReplay<'p>,
    sink: &mut O,
    chunk: &[u8],
    frame: &[u8],
    place: FramePlace,
) -> (r: Result<(), ArchiveWriteError>)
    requires
        old(replay).in_order(*old(sink)),
    ensures
        final(replay).kept() == old(replay).kept(),
        final(replay).plan == old(replay).plan,
        r is Ok ==> final(replay).in_order(*final(sink)),
        replays(
            standing(*old(sink)),
            standing(*final(sink)),
            final(replay).value(*final(sink)),
            replayed_frame(
                codec,
                old(replay).kept(),
                old(replay).value(*old(sink)),
                chunk@,
                frame@,
                place,
            ),
            r,
        ),
{
    let plan: &'p WriterPlan = replay.plan;
    let options: WriterOptions = plan.options;
    if lift(payload_envelope_needs_flush(&replay.envelope, frame.len(), options))? {
        flush_payload_envelope_emit(codec, replay, sink)?;
    }
    if replay.envelope.plaintext.len() == 0 {
        if !lift(payload_object_can_fit(frame.len(), options))? {
            return Err(
                ArchiveWriteError::Format(
                    FormatError::WriterUnsupported("payload frame exceeds envelope object limits"),
                ),
            );
        }
    }
    let offset: u32 = lift(
        u32_len(replay.envelope.plaintext.len(), "FrameEntry.offset_in_envelope"),
    )?;
    let actual: PayloadFrame = lift(
        payload_frame_metadata(
            PayloadFrameMetadataInput {
                frame_index: replay.next_frame_index,
                envelope_index: replay.envelope.envelope_index,
                member_index: place.member_index,
                offset_in_envelope: offset,
                compressed_size: frame.len(),
                decompressed_size: chunk.len(),
                member_start: place.member_start,
                member_offset: place.member_offset,
                member_group_size: place.member_group_size,
            },
        ),
    )?;
    if replay.next_frame_index >= plan.frames.len() as u64 {
        return Err(
            ArchiveWriteError::Format(
                FormatError::WriterInvariant("planned payload frame is missing"),
            ),
        );
    }
    let expected: PayloadFrame = plan.frames[replay.next_frame_index as usize];
    if expected.envelope_index != actual.envelope_index || expected.member_index
        != actual.member_index || expected.offset_in_envelope != actual.offset_in_envelope
        || expected.compressed_size != actual.compressed_size || expected.decompressed_size
        != actual.decompressed_size || expected.flags != actual.flags || expected.tar_stream_offset
        != actual.tar_stream_offset {
        return Err(
            ArchiveWriteError::Format(
                FormatError::WriterInvariant("emitted payload frame does not match plan"),
            ),
        );
    }
    append(&mut replay.envelope.plaintext, frame);
    replay.next_frame_index = lift(
        checked_u64_add(replay.next_frame_index, 1, "PayloadFrame.frame_index"),
    )?;
    Ok(())
}

impl<'p, C: ArchiveCodec, O: ArchiveWriteSink> FrameTaker<C, O> for PayloadReplay<'p> {
    type State = ReplayValue;

    type Setting = ReplaySetting;

    open spec fn state(&self, out: O) -> ReplayValue {
        self.value(out)
    }

    open spec fn setting(&self) -> ReplaySetting {
        self.kept()
    }

    open spec fn wf(&self, out: O) -> bool {
        self.in_order(out)
    }

    open spec fn standing(out: O) -> Standing {
        standing(out)
    }

    open spec fn framing() -> Framing {
        Framing::Fitting
    }

    fn frames_by() -> (r: Framing) {
        Framing::Fitting
    }

    open spec fn chunk_len(state: ReplayValue, left: int, o: WriterOptions) -> int {
        next_chunk_len(left, o)
    }

    fn next_len(&self, out: &O, left: u64, options: WriterOptions) -> (r: usize) {
        bounded_chunk_len(left, options)
    }

    open spec fn with_frame(
        codec: &C,
        setting: ReplaySetting,
        state: ReplayValue,
        chunk: Seq<u8>,
        frame: Seq<u8>,
        place: FramePlace,
    ) -> Result<ReplayValue, FormatError> {
        replayed_frame(codec, setting, state, chunk, frame, place)
    }

    fn take_frame(
        &mut self,
        codec: &C,
        out: &mut O,
        chunk: &[u8],
        frame: &[u8],
        place: FramePlace,
    ) -> (r: Result<(), ArchiveWriteError>) {
        append_payload_frame_to_emit(codec, self, out, chunk, frame, place)
    }
}

// ---------------------------------------------------------------------------------------------
// Members
// ---------------------------------------------------------------------------------------------

fn same_link(a: &Option<Vec<u8>>, b: &Option<Vec<u8>>) -> (r: bool)
    ensures
        r == (crate::key_wrap::opt_vec(*a) == crate::key_wrap::opt_vec(*b)),
{
    match (a, b) {
        (Some(a), Some(b)) => same_bytes(a.as_slice(), b.as_slice()),
        (None, None) => true,
        _ => false,
    }
}

/// Whether a source says of its member what it said before.
pub fn same_member(a: &StreamingRegularMember, b: &TarMember) -> (r: bool)
    requires
        a.portable_metadata.wf(),
        b.portable_metadata.wf(),
    ensures
        r == (a@ == b@.primary),
{
    if !same_bytes(a.archive_path.as_slice(), b.path.as_slice()) {
        return false;
    }
    if !same_link(&a.link_target, &b.link_target) {
        return false;
    }
    let extents: bool = match (&a.sparse_extents, &b.sparse_extents) {
        (Some(x), Some(y)) => same_extents(x.as_slice(), y.as_slice()),
        (None, None) => true,
        _ => false,
    };
    if !extents {
        return false;
    }
    if a.entry_kind != b.entry_kind || a.file_data_size != b.file_data_size || a.mode != b.mode {
        return false;
    }
    if a.mtime.seconds != b.mtime.seconds || a.mtime.nanoseconds != b.mtime.nanoseconds {
        return false;
    }
    a.portable_metadata.same_as(&b.portable_metadata)
}

/// The payload after the member of a source was written as planned.
#[verifier::opaque]
pub open spec fn replayed_member<C: ArchiveCodec + MetadataProfile, O: ArchiveWriteSink>(
    codec: &C,
    s: ReplaySetting,
    p: ReplayValue,
    dictionary: Option<Seq<u8>>,
    run: SourceRun,
    index: int,
) -> Result<ReplayValue, ArchiveWriteError> {
    if index >= s.plan.members.len() {
        Err(
            ArchiveWriteError::Format(
                FormatError::WriterInvariant("planned tar member is missing"),
            ),
        )
    } else {
        let member = s.plan.members[index];
        match captured(codec, run.described, s.plan.options.max_path_length) {
            Err(e) => Err(ArchiveWriteError::Format(e)),
            Ok(v) => if v != member.primary {
                Err(
                    ArchiveWriteError::Format(
                        FormatError::WriterInvariant(
                            "file source changed between planning and emission",
                        ),
                    ),
                )
            } else {
                match prepared(codec, v) {
                    Err(e) => Err(ArchiveWriteError::Format(e)),
                    Ok(laid_out) => if laid_out.group_size != member.tar_member_group_size {
                        Err(
                            ArchiveWriteError::Format(
                                FormatError::WriterInvariant(
                                    "streamed auxiliary layout changed between planning and emission",
                                ),
                            ),
                        )
                    } else {
                        framed_member::<C, O, PayloadReplay<'static>>(
                            codec,
                            s,
                            p,
                            s.plan.options,
                            dictionary,
                            feed_of(laid_out.sections, run),
                            FramePlace {
                                member_index: index as usize,
                                member_start: member.tar_member_group_start,
                                member_offset: 0,
                                member_group_size: member.tar_member_group_size,
                            },
                            0,
                        )
                    },
                }
            },
        }
    }
}

/// The payload after the members of the first `count` sources.
pub open spec fn replayed_members<C: ArchiveCodec + MetadataProfile, O: ArchiveWriteSink>(
    codec: &C,
    s: ReplaySetting,
    p: ReplayValue,
    dictionary: Option<Seq<u8>>,
    runs: Seq<SourceRun>,
    count: nat,
) -> Result<ReplayValue, ArchiveWriteError>
    decreases count,
{
    if count == 0 {
        Ok(p)
    } else {
        match replayed_members::<C, O>(codec, s, p, dictionary, runs, (count - 1) as nat) {
            Err(e) => Err(e),
            Ok(before) => replayed_member::<C, O>(
                codec,
                s,
                before,
                dictionary,
                runs[count - 1],
                count - 1,
            ),
        }
    }
}

/// Writes the member of a source as planned.
#[verifier::rlimit(30)]
pub fn emit_planned_member<
    'p,
    C: ArchiveCodec + MetadataProfile,
    O: ArchiveWriteSink,
    S: RegularFileSource,
    P: ArchiveWriteProgressSink,
>(
    codec: &C,
    replay: &mut PayloadReplay<'p>,
    sink: &mut O,
    source: &S,
    dictionary: Option<&[u8]>,
    index: usize,
    progress: &mut P,
    ledger: &mut SourceProgressState,
) -> (r: Result<(), ArchiveWriteError>)
    requires
        source.most() >= old(replay).plan.options.chunk_size,
        old(replay).in_order(*old(sink)),
        old(replay).plan.options.chunk_size > 0,
        old(ledger).wf(),
    ensures
        final(ledger).wf(),
        phases_of(final(progress).events()) == phases_of(old(progress).events()),
        r is Ok ==> tells_member(
            codec,
            *source,
            *old(ledger),
            old(progress).events(),
            *final(ledger),
            final(progress).events(),
        ),
        final(replay).kept() == old(replay).kept(),
        r is Ok ==> final(replay).in_order(*final(sink)),
        standing(*old(sink)).hands_on(standing(*final(sink)), failure_of(r)),
        exists|run: SourceRun| #[trigger]
            may_run(source, run) && goes(
                standing(*old(sink)),
                standing(*final(sink)),
                r,
                final(replay).value(*final(sink)),
                replayed_member::<C, O>(
                    codec,
                    old(replay).kept(),
                    old(replay).value(*old(sink)),
                    opt_bytes(dictionary),
                    run,
                    index as int,
                ),
            ),
{
    reveal(replayed_member);
    let plan: &'p WriterPlan = replay.plan;
    let options: WriterOptions = plan.options;
    let ghost dict = opt_bytes(dictionary);
    let captured_member: Result<StreamingRegularMember, FormatError> = capture_member(
        codec,
        source,
        options.max_path_length,
    );
    let ghost d: Described = choose|d: Described| #[trigger]
        may_describe(source, d) && match (
            captured_member,
            captured(codec, d, options.max_path_length),
        ) {
            (Ok(member), Ok(value)) => member@ == value,
            (Err(e), Err(f)) => e == f,
            _ => false,
        };
    let ghost early = SourceRun { described: d, ..source.run() };
    assert(may_run(source, early));
    if index >= plan.tar_members.len() {
        return Err(
            ArchiveWriteError::Format(
                FormatError::WriterInvariant("planned tar member is missing"),
            ),
        );
    }
    let expected: &TarMember = &plan.tar_members[index];
    assert(plan@.members[index as int] == expected@);
    let member: StreamingRegularMember = lift(captured_member)?;
    if !same_member(&member, expected) {
        return Err(
            ArchiveWriteError::Format(
                FormatError::WriterInvariant("file source changed between planning and emission"),
            ),
        );
    }
    let (mut reader, size) = lift(open_member(codec, source, &member, options.chunk_size))?;
    if size != expected.tar_member_group_size {
        return Err(
            ArchiveWriteError::Format(
                FormatError::WriterInvariant(
                    "streamed auxiliary layout changed between planning and emission",
                ),
            ),
        );
    }
    let ghost v = member@;
    let ghost sections = reader.values();
    let place = FramePlace {
        member_index: index,
        member_start: expected.tar_member_group_start,
        member_offset: 0,
        member_group_size: size,
    };
    let r: Result<(), ArchiveWriteError> = frame_member(
        codec,
        replay,
        sink,
        &mut reader,
        options,
        dictionary,
        place,
        progress,
        ledger,
    );
    proof {
        let payload_size = source_payload_size_outcome(
            v.file_size,
            v.sparse_extents,
            codec.extent_limit(),
        )->Ok_0;
        let layout = layout_outcome(codec, v)->Ok_0;
        let run = reader.seen_run(early);
        assert(reader.values() =~= sections);
        reader.feed_is_the_sources(layout, v.metadata, payload_size, early);
        assert(may_run(source, run));
        assert(run.described == d);
        if r is Ok {
            reveal(declares_all);
            drawn_members_are_told(
                codec,
                *source,
                reader.source_bytes,
                reader.drawn@,
                *old(ledger),
                old(progress).events(),
                *ledger,
                progress.events(),
            );
        }
    }
    r
}

proof fn first_replay_error_stays<C: ArchiveCodec + MetadataProfile, O: ArchiveWriteSink>(
    codec: &C,
    s: ReplaySetting,
    p: ReplayValue,
    dictionary: Option<Seq<u8>>,
    runs: Seq<SourceRun>,
    count: nat,
    total: nat,
)
    requires
        count <= total,
        replayed_members::<C, O>(codec, s, p, dictionary, runs, count) is Err,
    ensures
        replayed_members::<C, O>(codec, s, p, dictionary, runs, total) == replayed_members::<C, O>(
            codec,
            s,
            p,
            dictionary,
            runs,
            count,
        ),
    decreases total,
{
    if count < total {
        first_replay_error_stays::<C, O>(
            codec,
            s,
            p,
            dictionary,
            runs,
            count,
            (total - 1) as nat,
        );
    }
}

proof fn replays_are_local<C: ArchiveCodec + MetadataProfile, O: ArchiveWriteSink>(
    codec: &C,
    s: ReplaySetting,
    p: ReplayValue,
    dictionary: Option<Seq<u8>>,
    a: Seq<SourceRun>,
    b: Seq<SourceRun>,
    count: nat,
)
    requires
        forall|i: int| 0 <= i < count ==> a[i] == b[i],
    ensures
        replayed_members::<C, O>(codec, s, p, dictionary, a, count) == replayed_members::<C, O>(
            codec,
            s,
            p,
            dictionary,
            b,
            count,
        ),
    decreases count,
{
    if count > 0 {
        replays_are_local::<C, O>(codec, s, p, dictionary, a, b, (count - 1) as nat);
    }
}

/// The payload before its first frame.
pub open spec fn nothing_replayed(e: Emission) -> ReplayValue {
    ReplayValue { envelope_index: 0, plaintext: Seq::empty(), next_frame: 0, emission: e }
}

/// The archive after its payload was written as planned.
pub open spec fn replayed_payload<C: ArchiveCodec + MetadataProfile, O: ArchiveWriteSink>(
    codec: &C,
    s: ReplaySetting,
    e: Emission,
    dictionary: Option<Seq<u8>>,
    runs: Seq<SourceRun>,
) -> Result<ReplayValue, ArchiveWriteError> {
    match replayed_members::<C, O>(
        codec,
        s,
        nothing_replayed(e),
        dictionary,
        runs,
        runs.len(),
    ) {
        Err(f) => Err(f),
        Ok(p) => match if p.plaintext.len() == 0 {
            Ok(p)
        } else {
            flushed_replay(codec, s, p)
        } {
            Err(f) => Err(ArchiveWriteError::Format(f)),
            Ok(q) => if q.next_frame != s.plan.frames.len() || q.envelope_index
                != s.plan.objects.len() {
                Err(
                    ArchiveWriteError::Format(
                        FormatError::WriterInvariant("streaming payload plan mismatch"),
                    ),
                )
            } else {
                Ok(q)
            },
        },
    }
}

/// Writes the planned payload from its sources.
#[verifier::rlimit(30)]
#[verifier::loop_isolation(false)]
pub fn emit_payload_stream<
    'p,
    C: ArchiveCodec + MetadataProfile,
    O: ArchiveWriteSink,
    S: RegularFileSource,
    P: ArchiveWriteProgressSink,
>(
    codec: &C,
    files: &[S],
    dictionary: Option<&[u8]>,
    replay: &mut PayloadReplay<'p>,
    sink: &mut O,
    progress: &mut P,
    ledger: &mut SourceProgressState,
) -> (r: Result<(), ArchiveWriteError>)
    requires
        take_requests(files@, old(replay).plan.options.chunk_size as int),
        old(replay).in_order(*old(sink)),
        old(replay).plan.options.chunk_size > 0,
        old(replay).value(*old(sink)) == nothing_replayed(
            emission(*old(sink), old(replay).state),
        ),
        old(ledger).wf(),
    ensures
        final(ledger).wf(),
        phases_of(final(progress).events()) == phases_of(old(progress).events()),
        r is Ok ==> tells_members(
            codec,
            files@,
            files@.len(),
            *old(ledger),
            old(progress).events(),
            *final(ledger),
            final(progress).events(),
        ),
        final(replay).kept() == old(replay).kept(),
        r is Ok ==> final(replay).in_order(*final(sink)),
        standing(*old(sink)).hands_on(standing(*final(sink)), failure_of(r)),
        exists|runs: Seq<SourceRun>| #[trigger]
            may_run_all(files@, runs) && goes(
                standing(*old(sink)),
                standing(*final(sink)),
                r,
                final(replay).value(*final(sink)),
                replayed_payload::<C, O>(
                    codec,
                    old(replay).kept(),
                    emission(*old(sink), old(replay).state),
                    opt_bytes(dictionary),
                    runs,
                ),
            ),
{
    let ghost dict = opt_bytes(dictionary);
    let ghost s = replay.kept();
    let ghost start = replay.value(*sink);
    let ghost began = standing(*sink);
    let ghost mut runs: Seq<SourceRun> = Seq::new(files@.len(), |i: int| files@[i].run());
    proof {
        no_members_are_told(codec, files@, *ledger, progress.events());
    }
    let mut i: usize = 0;
    while i < files.len()
        invariant
            i <= files@.len(),
            replay.in_order(*sink),
            replay.kept() == s,
            replay.plan.options.chunk_size > 0,
            began.goes_on(standing(*sink)),
            ledger.wf(),
            phases_of(progress.events()) == phases_of(old(progress).events()),
            tells_members(
                codec,
                files@,
                i as nat,
                *old(ledger),
                old(progress).events(),
                *ledger,
                progress.events(),
            ),
            may_run_all(files@, runs),
            replayed_members::<C, O>(codec, s, start, dict, runs, i as nat) == Ok::<
                ReplayValue,
                ArchiveWriteError,
            >(replay.value(*sink)),
        decreases files.len() - i,
    {
        let ghost before = replay.value(*sink);
        let ghost mid = standing(*sink);
        let ghost old_runs = runs;
        let ghost noted = *ledger;
        let ghost told = progress.events();
        let r: Result<(), ArchiveWriteError> = emit_planned_member(
            codec,
            replay,
            sink,
            &files[i],
            dictionary,
            i,
            progress,
            ledger,
        );
        proof {
            let run = choose|run: SourceRun| #[trigger]
                may_run(&files@[i as int], run) && goes(
                    mid,
                    standing(*sink),
                    r,
                    replay.value(*sink),
                    replayed_member::<C, O>(codec, s, before, dict, run, i as int),
                );
            if r is Ok {
                one_more_is_told(
                    codec,
                    files@,
                    i as nat,
                    *old(ledger),
                    old(progress).events(),
                    noted,
                    told,
                    *ledger,
                    progress.events(),
                );
            }
            runs = old_runs.update(i as int, run);
            assert forall|k: int| 0 <= k < files@.len() implies may_run(
                &#[trigger] files@[k],
                runs[k],
            ) by {
                assert(may_run(&files@[k], old_runs[k]));
            }
            assert(may_run_all(files@, runs));
            replays_are_local::<C, O>(codec, s, start, dict, runs, old_runs, i as nat);
            if replayed_members::<C, O>(codec, s, start, dict, runs, (i + 1) as nat) is Err {
                first_replay_error_stays::<C, O>(
                    codec,
                    s,
                    start,
                    dict,
                    runs,
                    (i + 1) as nat,
                    files@.len(),
                );
            }
        }
        if r.is_err() {
            return r;
        }
        i = i + 1;
    }
    if replay.envelope.plaintext.len() != 0 {
        flush_payload_envelope_emit(codec, replay, sink)?;
    }
    if replay.next_frame_index != replay.plan.frames.len() as u64
        || replay.envelope.envelope_index != replay.plan.payload_objects.len() as u64 {
        return Err(
            ArchiveWriteError::Format(
                FormatError::WriterInvariant("streaming payload plan mismatch"),
            ),
        );
    }
    Ok(())
}

} // verus!
