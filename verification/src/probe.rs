//! A measure of how fast a payload can be sealed: batches of the stream of all members become
//! envelopes in any order, and no metadata follows them.
use crate::archive::finishes;
use crate::arith::checked_u64_add;
use crate::bytes::append;
use crate::clock::{nanos_since, now, WriterTimings};
use crate::codec::{ArchiveCodec, ObjectDomain};
use crate::emit::{
    begin_writer_emission_state, begun, emission, emit_block_records, lift, with_blocks, Emission,
    WriterEmissionState,
};
use crate::errors::{ArchiveWriteError, FormatError};
use crate::ids::{choose_id, may_identify};
use crate::key_wrap::source_answers;
use crate::members::{may_run_all, with_members, write_members, MembersValue, StreamTaker};
use crate::object_plan::{
    classed_plan, payload_fit, payload_object_can_fit, plan_encrypted_object, ObjectExtent,
    PlannedEncryptedObject,
};
use crate::objects::ArchiveSeal;
use crate::options::{
    plan_single_pass_writer_options, planned_single_pass_options, single_pass_refusal,
    validate_single_pass_writer_options, WriterOptions,
};
use crate::payload::{goes, FramePlace, FrameTaker, Framing};
use crate::plan::PlanRequest;
use crate::planning::RecordsAnswer;
use crate::profile::MetadataProfile;
use crate::progress::{SourceProgressState, Unobserved};
use crate::rows::{tar_member_values, TarMember};
use crate::seal::{
    encrypt_object, encrypted_outcome, extent_check, validate_planned_extent, EncryptedObject,
    EncryptedValue, ObjectEncryptionContext,
};
use crate::single_pass::{
    declare_archive, declared_outcome, declared_value, stream_setting, Declared, DeclaredValue,
};
use crate::sink::{failure_of, is_untouched, standing, ArchiveWriteSink, Standing};
use crate::source::{take_requests, RegularFileSource, SourceRun};
use crate::streaming::StreamSetting;
use crate::suffix::{header_values, sum_written, ClosedArchive, WrittenArchiveSummary};
use crate::two_pass::ArchiveOrder;
use vstd::prelude::*;

verus! {

// ---------------------------------------------------------------------------------------------
// Batches
// ---------------------------------------------------------------------------------------------

/// Bytes of members that make a batch: four envelopes, and a chunk at least.
pub open spec fn batch_target(o: WriterOptions) -> int {
    let four = if 4 * o.envelope_target_size > usize::MAX {
        usize::MAX as int
    } else {
        4 * o.envelope_target_size
    };
    if four < o.chunk_size {
        o.chunk_size as int
    } else {
        four
    }
}

pub fn probe_batch_target(options: WriterOptions) -> (r: usize)
    ensures
        r == batch_target(options),
{
    let four: usize = match (options.envelope_target_size as usize).checked_mul(4) {
        Some(four) => four,
        None => usize::MAX,
    };
    if four < options.chunk_size as usize {
        options.chunk_size as usize
    } else {
        four
    }
}

/// The frames of a batch, one for each chunk of it.
pub open spec fn batch_envelope<C: ArchiveCodec>(codec: &C, batch: Seq<u8>, o: WriterOptions) -> Result<
    Seq<u8>,
    FormatError,
>
    decreases batch.len(),
{
    if batch.len() == 0 || o.chunk_size == 0 {
        Ok(Seq::empty())
    } else {
        let n = if batch.len() < o.chunk_size {
            batch.len() as int
        } else {
            o.chunk_size as int
        };
        match codec.compressed(batch.take(n), o.zstd_level, None, 1) {
            Err(e) => Err(e),
            Ok(frame) => match batch_envelope(codec, batch.skip(n), o) {
                Err(e) => Err(e),
                Ok(rest) => Ok(frame + rest),
            },
        }
    }
}

/// Compresses a batch.
pub fn build_probe_envelope<C: ArchiveCodec>(codec: &C, batch: &[u8], options: WriterOptions) -> (r:
    Result<Vec<u8>, FormatError>)
    requires
        options.chunk_size > 0,
    ensures
        match (r, batch_envelope(codec, batch@, options)) {
            (Ok(envelope), Ok(expected)) => envelope@ == expected,
            (Err(e), Err(f)) => e == f,
            _ => false,
        },
{
    let mut envelope: Vec<u8> = Vec::new();
    let mut at: usize = 0;
    proof {
        assert(batch@.skip(0) =~= batch@);
        if let Ok(all) = batch_envelope(codec, batch@, options) {
            assert(envelope@ + all =~= all);
        }
    }
    while at < batch.len()
        invariant
            at <= batch@.len(),
            options.chunk_size > 0,
            match batch_envelope(codec, batch@.skip(at as int), options) {
                Err(e) => batch_envelope(codec, batch@, options) == Err::<Seq<u8>, FormatError>(e),
                Ok(rest) => batch_envelope(codec, batch@, options) == Ok::<Seq<u8>, FormatError>(
                    envelope@ + rest,
                ),
            },
        decreases batch.len() - at,
    {
        let left: usize = batch.len() - at;
        let len: usize = if left < options.chunk_size as usize {
            left
        } else {
            options.chunk_size as usize
        };
        let chunk: &[u8] = vstd::slice::slice_subrange(batch, at, at + len);
        let ghost rest = batch@.skip(at as int);
        let ghost before = envelope@;
        proof {
            assert(chunk@ =~= rest.take(len as int));
            assert(rest.skip(len as int) =~= batch@.skip(at + len));
        }
        let frame: Vec<u8> = codec.compress(chunk, options.zstd_level, None, 1)?;
        append(&mut envelope, frame.as_slice());
        at = at + len;
        proof {
            if let Ok(behind) = batch_envelope(codec, batch@.skip(at as int), options) {
                assert(envelope@ + behind =~= before + (frame@ + behind));
            }
        }
    }
    assert(batch@.skip(at as int).len() == 0);
    assert(envelope@ + Seq::<u8>::empty() =~= envelope@);
    Ok(envelope)
}

/// Where a compressed batch goes whose first block has the number `first`.
pub open spec fn probe_extent(envelope: Seq<u8>, first: u64, o: WriterOptions) -> Result<
    ObjectExtent,
    FormatError,
> {
    match payload_fit(envelope.len() as int, o) {
        Err(e) => Err(e),
        Ok(false) => Err(
            FormatError::WriterUnsupported(
                "unordered probe payload batch exceeds envelope object limits",
            ),
        ),
        Ok(true) => match classed_plan(
            envelope.len() as int,
            o.fec_data_shards as int,
            o.fec_parity_shards as int,
            o,
        ) {
            Err(e) => Err(e),
            Ok(plan) => Ok(ObjectExtent::placed(first, plan)),
        },
    }
}

/// Plans the blocks of a compressed batch.
pub fn plan_probe_envelope(envelope: &[u8], first_block_index: u64, options: WriterOptions) -> (r:
    Result<ObjectExtent, FormatError>)
    requires
        options.block_size > 0,
    ensures
        r == probe_extent(envelope@, first_block_index, options),
{
    if !payload_object_can_fit(envelope.len(), options)? {
        return Err(
            FormatError::WriterUnsupported(
                "unordered probe payload batch exceeds envelope object limits",
            ),
        );
    }
    let object_plan: PlannedEncryptedObject = plan_encrypted_object(
        envelope.len(),
        options.fec_data_shards,
        options.fec_parity_shards,
        options,
    )?;
    ObjectExtent::new(first_block_index, object_plan)
}

/// A compressed batch, sealed where it was planned.
pub open spec fn probe_object<C: ArchiveCodec>(
    codec: &C,
    envelope: Seq<u8>,
    envelope_index: u64,
    extent: ObjectExtent,
    seal: ArchiveSeal,
    o: WriterOptions,
) -> Result<EncryptedValue, FormatError> {
    match encrypted_outcome(
        codec,
        envelope,
        seal.spec_context(ObjectDomain::Envelope, envelope_index, o),
        extent.first_block_index,
        o,
    ) {
        Err(e) => Err(e),
        Ok(object) => match extent_check(object.extent, extent) {
            Err(e) => Err(e),
            Ok(_) => Ok(object),
        },
    }
}

/// Seals a compressed batch.
pub fn seal_probe_envelope<C: ArchiveCodec>(
    codec: &C,
    envelope: &[u8],
    envelope_index: u64,
    extent: ObjectExtent,
    seal: &ArchiveSeal,
    options: WriterOptions,
) -> (r: Result<EncryptedObject, FormatError>)
    requires
        options.block_size > 0,
    ensures
        match (r, probe_object(codec, envelope@, envelope_index, extent, *seal, options)) {
            (Ok(object), Ok(value)) => {
                &&& object.value() == value
                &&& value.extent == extent
                &&& extent.first_block_index + extent.total() <= u64::MAX
            },
            (Err(e), Err(f)) => e == f,
            _ => false,
        },
{
    let context: ObjectEncryptionContext = seal.context(
        ObjectDomain::Envelope,
        envelope_index,
        options,
    );
    let mut next_block_index: u64 = extent.first_block_index;
    let object: EncryptedObject = encrypt_object(
        codec,
        envelope,
        &context,
        &mut next_block_index,
        options,
    )?;
    validate_planned_extent(&object, extent)?;
    Ok(object)
}

// ---------------------------------------------------------------------------------------------
// One batch after the other
// ---------------------------------------------------------------------------------------------

/// The batch in the making, and what is written.
pub struct ProbeValue {
    pub batch: Seq<u8>,
    pub envelope_index: u64,
    pub next_block: u64,
    pub emission: Emission,
}

/// The probe after the current batch was written.
pub open spec fn sent_batch<C: ArchiveCodec>(codec: &C, s: StreamSetting, p: ProbeValue) -> Result<
    ProbeValue,
    FormatError,
> {
    if p.envelope_index == u64::MAX {
        Err(FormatError::WriterUnsupported("EnvelopeEntry"))
    } else {
        match batch_envelope(codec, p.batch, s.options) {
            Err(e) => Err(e),
            Ok(envelope) => match probe_extent(envelope, p.next_block, s.options) {
                Err(e) => Err(e),
                Ok(extent) => match probe_object(
                    codec,
                    envelope,
                    p.envelope_index,
                    extent,
                    s.seal,
                    s.options,
                ) {
                    Err(e) => Err(e),
                    Ok(object) => match with_blocks(
                        codec,
                        p.emission,
                        s.options.stripe_width,
                        s.rev,
                        object.records,
                        object.records.len(),
                    ) {
                        Err(e) => Err(e),
                        Ok(emission) => Ok(
                            ProbeValue {
                                batch: Seq::empty(),
                                envelope_index: (p.envelope_index + 1) as u64,
                                next_block: (p.next_block + extent.total()) as u64,
                                emission,
                            },
                        ),
                    },
                },
            },
        }
    }
}

/// The probe after a chunk.
pub open spec fn probed_chunk<C: ArchiveCodec>(
    codec: &C,
    s: StreamSetting,
    p: ProbeValue,
    chunk: Seq<u8>,
) -> Result<ProbeValue, FormatError> {
    let q = ProbeValue { batch: p.batch + chunk, ..p };
    if q.batch.len() >= batch_target(s.options) {
        sent_batch(codec, s, q)
    } else {
        Ok(q)
    }
}

/// Gathers batches and writes them.
pub struct ProbeWriter {
    pub options: WriterOptions,
    pub seal: ArchiveSeal,
    pub batch: Vec<u8>,
    pub envelope_index: u64,
    pub next_block_index: u64,
    pub state: WriterEmissionState,
}

impl ProbeWriter {
    pub open spec fn value<O: ArchiveWriteSink>(&self, sink: O) -> ProbeValue {
        ProbeValue {
            batch: self.batch@,
            envelope_index: self.envelope_index,
            next_block: self.next_block_index,
            emission: emission(sink, self.state),
        }
    }

    pub open spec fn kept(&self) -> StreamSetting {
        StreamSetting {
            options: self.options,
            seal: self.seal,
            rev: self.state.volume_format_rev,
            headers: header_values(self.state),
        }
    }

    pub open spec fn in_order<O: ArchiveWriteSink>(&self, sink: O) -> bool {
        &&& self.options.block_size > 0
        &&& self.options.chunk_size > 0
        &&& emission(sink, self.state).wf(self.options.stripe_width)
    }

    /// Compresses, seals and writes the current batch.
    pub fn send_unordered_probe_job<C: ArchiveCodec, O: ArchiveWriteSink>(
        &mut self,
        codec: &C,
        sink: &mut O,
    ) -> (r: Result<(), ArchiveWriteError>)
        requires
            old(self).in_order(*old(sink)),
        ensures
            final(self).kept() == old(self).kept(),
            r is Ok ==> final(self).in_order(*final(sink)),
            probes(
                standing(*old(sink)),
                standing(*final(sink)),
                final(self).value(*final(sink)),
                sent_batch(codec, old(self).kept(), old(self).value(*old(sink))),
                r,
            ),
    {
        let envelope_index: u64 = self.envelope_index;
        let next_index: u64 = lift(checked_u64_add(envelope_index, 1, "EnvelopeEntry"))?;
        let envelope: Vec<u8> = lift(
            build_probe_envelope(codec, self.batch.as_slice(), self.options),
        )?;
        let extent: ObjectExtent = lift(
            plan_probe_envelope(envelope.as_slice(), self.next_block_index, self.options),
        )?;
        let object: EncryptedObject = lift(
            seal_probe_envelope(
                codec,
                envelope.as_slice(),
                envelope_index,
                extent,
                &self.seal,
                self.options,
            ),
        )?;
        emit_block_records(codec, sink, self.options, &mut self.state, &object.records)?;
        self.batch = Vec::new();
        self.envelope_index = next_index;
        self.next_block_index = extent.first_block_index + (extent.data_block_count as u64
            + extent.parity_block_count as u64);
        assert(self.batch@ =~= Seq::<u8>::empty());
        Ok(())
    }
}

/// Whether writing went as `outcome` says.
pub open spec fn probes(
    before: Standing,
    now: Standing,
    after: ProbeValue,
    outcome: Result<ProbeValue, FormatError>,
    r: Result<(), ArchiveWriteError>,
) -> bool {
    &&& r is Ok ==> outcome == Ok::<ProbeValue, FormatError>(after)
    &&& before.hands_on(now, failure_of(r))
    &&& before.undisturbed(now) ==> match outcome {
        Ok(_) => r is Ok,
        Err(e) => r == Err::<(), ArchiveWriteError>(ArchiveWriteError::Format(e)),
    }
}

impl<C: ArchiveCodec, O: ArchiveWriteSink> FrameTaker<C, O> for ProbeWriter {
    type State = ProbeValue;

    type Setting = StreamSetting;

    open spec fn state(&self, out: O) -> ProbeValue {
        self.value(out)
    }

    open spec fn setting(&self) -> StreamSetting {
        self.kept()
    }

    open spec fn wf(&self, out: O) -> bool {
        self.in_order(out)
    }

    open spec fn standing(out: O) -> Standing {
        standing(out)
    }

    open spec fn framing() -> Framing {
        Framing::Raw
    }

    fn frames_by() -> (r: Framing) {
        Framing::Raw
    }

    /// What is missing to a batch, and a byte at least.
    open spec fn chunk_len(state: ProbeValue, left: int, o: WriterOptions) -> int {
        let missing = batch_target(o) - state.batch.len();
        let available = if missing < 1 {
            1
        } else {
            missing
        };
        if left < available {
            left
        } else {
            available
        }
    }

    fn next_len(&self, out: &O, left: u64, options: WriterOptions) -> (r: usize) {
        let target: usize = probe_batch_target(options);
        let available: usize = if self.batch.len() < target {
            target - self.batch.len()
        } else {
            1
        };
        if left < available as u64 {
            left as usize
        } else {
            available
        }
    }

    open spec fn with_frame(
        codec: &C,
        setting: StreamSetting,
        state: ProbeValue,
        chunk: Seq<u8>,
        frame: Seq<u8>,
        place: FramePlace,
    ) -> Result<ProbeValue, FormatError> {
        probed_chunk(codec, setting, state, chunk)
    }

    fn take_frame(
        &mut self,
        codec: &C,
        out: &mut O,
        chunk: &[u8],
        frame: &[u8],
        place: FramePlace,
    ) -> (r: Result<(), ArchiveWriteError>) {
        append(&mut self.batch, chunk);
        if self.batch.len() >= probe_batch_target(self.options) {
            self.send_unordered_probe_job(codec, out)?;
        }
        Ok(())
    }
}

impl<C: ArchiveCodec, O: ArchiveWriteSink> StreamTaker<C, O> for ProbeWriter {
    open spec fn total_of(state: ProbeValue) -> u64 {
        0
    }

    fn stream_total(&self, out: &O) -> (r: u64) {
        0
    }
}

// ---------------------------------------------------------------------------------------------
// The whole probe
// ---------------------------------------------------------------------------------------------

/// The batches of an archive, over what the sources contribute.
pub open spec fn probed_payload<C: ArchiveCodec + MetadataProfile, O: ArchiveWriteSink>(
    codec: &C,
    declared: DeclaredValue,
    o: WriterOptions,
    request: PlanRequest,
    runs: Seq<SourceRun>,
) -> Result<ClosedArchive, ArchiveWriteError> {
    let setting = stream_setting(codec, declared, o, request);
    match begun(
        codec,
        o.stripe_width,
        declared.header.bytes,
        declared.table,
        request.archive_uuid,
        request.session_id,
        request.volume_format_rev,
        false,
    ) {
        Err(e) => Err(ArchiveWriteError::Format(e)),
        Ok(start) => match with_members::<C, O, ProbeWriter>(
            codec,
            setting,
            o,
            None,
            MembersValue {
                members: Seq::empty(),
                state: ProbeValue {
                    batch: Seq::empty(),
                    envelope_index: 0,
                    next_block: 0,
                    emission: start,
                },
            },
            runs,
            runs.len(),
        ) {
            Err(e) => Err(e),
            Ok(taken) => if taken.state.batch.len() == 0 {
                Ok(ClosedArchive { emission: taken.state.emission, sidecar_bytes: 0 })
            } else {
                match sent_batch(codec, setting, taken.state) {
                    Err(e) => Err(ArchiveWriteError::Format(e)),
                    Ok(p) => Ok(ClosedArchive { emission: p.emission, sidecar_bytes: 0 }),
                }
            },
        },
    }
}

/// Whether a declared archive was probed as it should.
#[verifier::opaque]
pub open spec fn probes_declared<
    C: ArchiveCodec + MetadataProfile,
    O: ArchiveWriteSink,
    S: RegularFileSource,
>(
    codec: &C,
    files: Seq<S>,
    declared: DeclaredValue,
    o: WriterOptions,
    request: PlanRequest,
    calm: bool,
    sink: O,
    r: Result<WrittenArchiveSummary, ArchiveWriteError>,
) -> bool {
    exists|runs: Seq<SourceRun>|
        {
            &&& #[trigger] may_run_all(files, runs)
            &&& finishes(
                calm,
                sink,
                probed_payload::<C, O>(codec, declared, o, request, runs),
                o.stripe_width,
                request.archive_uuid,
                request.session_id,
                r,
            )
        }
}

/// Writes the batches of a declared archive.
#[verifier::rlimit(60)]
pub fn probe_declared_archive<
    C: ArchiveCodec + MetadataProfile,
    O: ArchiveWriteSink,
    S: RegularFileSource,
>(
    codec: &C,
    files: &[S],
    declared: &Declared,
    options: WriterOptions,
    request: &PlanRequest<'_>,
    started: &std::time::Instant,
    sink: &mut O,
) -> (r: Result<WrittenArchiveSummary, ArchiveWriteError>)
    requires
        take_requests(files@, options.chunk_size as int),
        options.chunk_size > 0,
        options.block_size > 0,
        options.stripe_width > 0,
    ensures
        standing(*old(sink)).hands_on(standing(*final(sink)), failure_of(r)),
        standing(*old(sink)).undisturbed(standing(*final(sink))) || r is Ok ==> probes_declared(
            codec,
            files@,
            declared@,
            options,
            *request,
            standing(*old(sink)).undisturbed(standing(*final(sink))),
            *final(sink),
            r,
        ),
{
    reveal(probes_declared);
    let ghost began = standing(*sink);
    let ghost setting = stream_setting(codec, declared@, options, *request);
    let ghost any_runs: Seq<SourceRun> = Seq::new(files@.len(), |i: int| files@[i].run());
    assert(may_run_all(files@, any_runs));
    let table: Option<&[u8]> = match &declared.table {
        Some(table) => Some(table.as_slice()),
        None => None,
    };
    let state: WriterEmissionState = begin_writer_emission_state(
        codec,
        sink,
        options,
        declared.header.bytes.as_slice(),
        table,
        request.archive_uuid,
        request.session_id,
        request.volume_format_rev,
        false,
    )?;
    assert(header_values(state) =~= setting.headers);
    let mut writer = ProbeWriter {
        options,
        seal: ArchiveSeal {
            subkeys: declared.subkeys,
            archive_uuid: request.archive_uuid,
            session_id: request.session_id,
        },
        batch: Vec::new(),
        envelope_index: 0,
        next_block_index: 0,
        state,
    };
    assert(writer.batch@ =~= Seq::<u8>::empty());
    let emit_payload_started: std::time::Instant = now();
    let mut progress: Unobserved = Unobserved::new();
    let mut ledger: SourceProgressState = SourceProgressState::new();
    let mut tar_members: Vec<TarMember> = Vec::new();
    assert(tar_member_values(tar_members@) =~= Seq::empty());
    let ghost first = MembersValue {
        members: tar_member_values(tar_members@),
        state: writer.value(*sink),
    };
    let ghost paid = standing(*sink);
    let taken: Result<(), ArchiveWriteError> = write_members(
        codec,
        &mut writer,
        sink,
        &mut tar_members,
        files,
        options,
        None,
        &mut progress,
        &mut ledger,
    );
    let ghost runs = choose|runs: Seq<SourceRun>| #[trigger]
        may_run_all(files@, runs) && goes(
            paid,
            standing(*sink),
            taken,
            MembersValue {
                members: tar_member_values(tar_members@),
                state: writer.value(*sink),
            },
            with_members::<C, O, ProbeWriter>(
                codec,
                setting,
                options,
                None,
                first,
                runs,
                files@.len(),
            ),
        );
    assert(may_run_all(files@, runs));
    taken?;
    if writer.batch.len() > 0 {
        writer.send_unordered_probe_job(codec, sink)?;
    }
    let archive_bytes: u64 = sum_written(&writer.state.bytes_written);
    Ok(
        WrittenArchiveSummary {
            volume_count: options.stripe_width as usize,
            archive_bytes,
            bootstrap_sidecar_bytes: 0,
            archive_uuid: request.archive_uuid,
            session_id: request.session_id,
            timings: WriterTimings {
                total: nanos_since(started),
                plan_payload: 0,
                plan_metadata: 0,
                emit_payload: nanos_since(&emit_payload_started),
                emit_metadata: 0,
            },
        },
    )
}

/// The options of a probe, or why it cannot be made.
pub open spec fn probe_options(order: ArchiveOrder, o: WriterOptions) -> Result<
    WriterOptions,
    FormatError,
> {
    match single_pass_refusal(o) {
        Some(rule) => Err(FormatError::WriterUnsupported(rule)),
        None => planned_single_pass_options(o, order.caps),
    }
}

/// Whether an order was probed as it should, under identities that may be random. An order that is
/// refused leaves the sink alone.
#[verifier::opaque]
pub open spec fn probes_order<
    C: ArchiveCodec + MetadataProfile,
    O: ArchiveWriteSink,
    S: RegularFileSource,
>(
    codec: &C,
    files: Seq<S>,
    order: ArchiveOrder,
    options: WriterOptions,
    first: O,
    sink: O,
    r: Result<WrittenArchiveSummary, ArchiveWriteError>,
) -> bool {
    match probe_options(order, options) {
        Err(e) => is_untouched(first, sink) && r == Err::<WrittenArchiveSummary, ArchiveWriteError>(
            ArchiveWriteError::Format(e),
        ),
        Ok(o) => exists|archive_uuid: [u8; 16], session_id: [u8; 16], answer: RecordsAnswer|
            {
                &&& #[trigger] may_identify(o.archive_uuid, archive_uuid)
                &&& #[trigger] may_identify(o.session_id, session_id)
                &&& #[trigger] source_answers(order.key_wrap_records, answer)
                &&& match declared_outcome(codec, order, o, archive_uuid, session_id, answer) {
                    Err(e) => is_untouched(first, sink) && r == Err::<
                        WrittenArchiveSummary,
                        ArchiveWriteError,
                    >(ArchiveWriteError::Format(e)),
                    Ok(declared) => standing(first).undisturbed(standing(sink))
                        || r is Ok ==> probes_declared(
                        codec,
                        files,
                        declared,
                        o,
                        order.spec_request(archive_uuid, session_id).plan,
                        standing(first).undisturbed(standing(sink)),
                        sink,
                        r,
                    ),
                }
            },
    }
}

/// Writes the payload of an order in batches, and nothing behind it. Neither a dictionary nor a
/// signer has a part in it.
pub fn write_unordered_probe_archive_to_sink<
    C: ArchiveCodec + MetadataProfile,
    O: ArchiveWriteSink,
    S: RegularFileSource,
>(
    codec: &C,
    files: &[S],
    order: &ArchiveOrder<'_>,
    options: WriterOptions,
    sink: &mut O,
) -> (r: Result<WrittenArchiveSummary, ArchiveWriteError>)
    requires
        take_requests(files@, options.chunk_size as int),
    ensures
        standing(*old(sink)).hands_on(standing(*final(sink)), failure_of(r)),
        probes_order(codec, files@, *order, options, *old(sink), *final(sink), r),
{
    reveal(probes_order);
    let started: std::time::Instant = now();
    lift(validate_single_pass_writer_options(options))?;
    let planned: WriterOptions = lift(plan_single_pass_writer_options(options, &order.caps))?;
    let archive_uuid: [u8; 16] = choose_id(planned.archive_uuid);
    let session_id: [u8; 16] = choose_id(planned.session_id);
    let settled: Result<Declared, FormatError> = declare_archive(
        codec,
        order,
        planned,
        &archive_uuid,
        &session_id,
    );
    let ghost answer = choose|answer: RecordsAnswer| #[trigger]
        source_answers(order.key_wrap_records, answer) && declared_value(settled)
            == declared_outcome(codec, *order, planned, archive_uuid, session_id, answer);
    assert(source_answers(order.key_wrap_records, answer));
    let declared: Declared = lift(settled)?;
    let request: PlanRequest<'_> = order.request(archive_uuid, session_id).plan;
    probe_declared_archive(codec, files, &declared, planned, &request, &started, sink)
}

} // verus!
