//! Planning an archive from its sources.
use crate::clock::{nanos_since, now, WriterTimings};
use crate::codec::ArchiveCodec;
use crate::digest::{hasher_finalize, sha256};
use crate::emit::lift;
use crate::errors::{ArchiveWriteError, FormatError};
use crate::key_wrap::{
    key_wrap_agree, key_wrap_outcome, resolve_key_wrap_artifacts, source_answers,
    KeyWrapRecordSource,
};
use crate::keys::{KdfParams, KdfValue};
use crate::members::{may_run_all, with_members, write_members, MembersValue};
use crate::options::{opt_bytes, WriterOptions};
use crate::packing::{
    flush_payload_envelope_plan, flushed_plan, nothing_packed, PackValue, PayloadPacking,
};
use crate::payload::goes;
use crate::plan::{
    build_writer_plan_from_payload, is_plan, PayloadPlanning, PayloadValue, PlanRequest, PlanValue,
    WriterPlan,
};
use crate::profile::MetadataProfile;
use crate::progress::{phases_of, ArchiveWritePhase, ArchiveWriteProgressSink, SourceProgressState};
use crate::rows::{members_wf, tar_member_values, MemberValue, TarMember};
use crate::sink::Standing;
use crate::source::{take_requests, RegularFileSource, SourceRun};
use crate::tally::{all_members_are_told, tells_members, tells_sources};
use crate::wire::RecipientValue;
use vstd::prelude::*;

verus! {

/// A planned payload and the block behind it.
pub struct PlannedPayload {
    pub payload: PayloadValue,
    pub next: u64,
}

/// A payload whose last envelope is closed.
pub open spec fn finished_payload(members: Seq<MemberValue>, p: PackValue) -> PlannedPayload {
    PlannedPayload {
        payload: PayloadValue {
            members,
            frames: p.frames,
            objects: p.objects,
            block_count: p.block_count,
            tar_total: p.tar_total,
            content_sha256: sha256(p.hashed),
        },
        next: p.next_block,
    }
}

/// The payload over what the sources contribute.
pub open spec fn payload_outcome<C: ArchiveCodec + MetadataProfile>(
    codec: &C,
    runs: Seq<SourceRun>,
    o: WriterOptions,
    dictionary: Option<Seq<u8>>,
) -> Result<PlannedPayload, ArchiveWriteError> {
    match with_members::<C, (), PayloadPacking>(
        codec,
        o,
        o,
        dictionary,
        MembersValue { members: Seq::empty(), state: nothing_packed(0) },
        runs,
        runs.len(),
    ) {
        Err(e) => Err(e),
        Ok(packed) => if packed.state.plaintext.len() == 0 {
            Ok(finished_payload(packed.members, packed.state))
        } else {
            match flushed_plan(packed.state, o) {
                Err(e) => Err(ArchiveWriteError::Format(e)),
                Ok(p) => Ok(finished_payload(packed.members, p)),
            }
        },
    }
}

/// Whether `r` is the outcome `s`.
pub open spec fn payload_agrees(
    r: Result<(PayloadPlanning, u64), ArchiveWriteError>,
    s: Result<PlannedPayload, ArchiveWriteError>,
) -> bool {
    match (r, s) {
        (Ok((payload, next)), Ok(planned)) => payload@ == planned.payload && next == planned.next,
        (Err(e), Err(f)) => e == f,
        _ => false,
    }
}

/// Reads all sources once and plans where their frames go.
pub fn plan_payload_stream<
    C: ArchiveCodec + MetadataProfile,
    S: RegularFileSource,
    P: ArchiveWriteProgressSink,
>(
    codec: &C,
    files: &[S],
    options: WriterOptions,
    dictionary: Option<&[u8]>,
    progress: &mut P,
    ledger: &mut SourceProgressState,
) -> (r: Result<(PayloadPlanning, u64), ArchiveWriteError>)
    requires
        take_requests(files@, options.chunk_size as int),
        options.block_size > 0,
        options.chunk_size > 0,
        old(ledger).wf(),
    ensures
        final(ledger).wf(),
        phases_of(final(progress).events()) == phases_of(old(progress).events()),
        r is Ok ==> tells_members(
            codec,
            files@,
            files@.len(),
            *old(ledger),
            old(progress).events(),
            *final(ledger),
            final(progress).events(),
        ),
        r matches Ok((payload, _)) ==> members_wf(payload.tar_members@),
        exists|runs: Seq<SourceRun>| #[trigger]
            may_run_all(files@, runs) && payload_agrees(
                r,
                payload_outcome(codec, runs, options, opt_bytes(dictionary)),
            ),
{
    let ghost dict = opt_bytes(dictionary);
    let mut tar_members: Vec<TarMember> = Vec::new();
    let mut packing = PayloadPacking::new(options, 0);
    let ghost first = MembersValue { members: tar_member_values(tar_members@), state: packing@ };
    proof {
        assert(tar_member_values(tar_members@) =~= Seq::empty());
    }
    let taken: Result<(), ArchiveWriteError> = write_members(
        codec,
        &mut packing,
        &mut (),
        &mut tar_members,
        files,
        options,
        dictionary,
        progress,
        ledger,
    );
    let ghost after = MembersValue { members: tar_member_values(tar_members@), state: packing@ };
    let ghost runs = choose|runs: Seq<SourceRun>| #[trigger]
        may_run_all(files@, runs) && goes(
            (Standing { reliable: true, refusal: None, refusals: 0 }),
            (Standing { reliable: true, refusal: None, refusals: 0 }),
            taken,
            after,
            with_members::<C, (), PayloadPacking>(
                codec,
                options,
                options,
                dict,
                first,
                runs,
                files@.len(),
            ),
        );
    assert(may_run_all(files@, runs));
    taken?;
    if packing.envelope.plaintext.len() != 0 {
        lift(flush_payload_envelope_plan(&mut packing))?;
    }
    let content_sha256: [u8; 32] = hasher_finalize(packing.hasher);
    Ok(
        (
            PayloadPlanning {
                tar_members,
                frames: packing.frames,
                payload_objects: packing.payload_objects,
                payload_block_count: packing.payload_block_count,
                tar_total_size: packing.tar_total_size,
                content_sha256,
            },
            packing.next_block_index,
        ),
    )
}

/// What a set of recipient records was asked for.
pub type RecordsAnswer = Result<Option<Seq<RecipientValue>>, FormatError>;

/// Whether `r` is the plan over what the sources contribute and the recipient records answer.
pub open spec fn is_source_plan<C: ArchiveCodec + MetadataProfile>(
    codec: &C,
    runs: Seq<SourceRun>,
    answer: RecordsAnswer,
    o: WriterOptions,
    dictionary: Option<Seq<u8>>,
    kdf: KdfValue,
    request: PlanRequest,
    r: Result<PlanValue, ArchiveWriteError>,
) -> bool {
    match payload_outcome(codec, runs, o, dictionary) {
        Err(e) => r == Err::<PlanValue, ArchiveWriteError>(e),
        Ok(planned) => match key_wrap_outcome(
            codec,
            kdf,
            request.archive_uuid,
            request.session_id,
            answer,
        ) {
            Err(e) => r == Err::<PlanValue, ArchiveWriteError>(ArchiveWriteError::Format(e)),
            Ok((resolved, table)) => match r {
                Ok(plan) => is_plan(
                    codec,
                    planned.payload,
                    planned.next,
                    o,
                    dictionary,
                    resolved,
                    table,
                    request,
                    Ok(plan),
                ),
                Err(ArchiveWriteError::Format(e)) => is_plan(
                    codec,
                    planned.payload,
                    planned.next,
                    o,
                    dictionary,
                    resolved,
                    table,
                    request,
                    Err(e),
                ),
                Err(_) => false,
            },
        },
    }
}

/// A plan and how long it took.
pub struct TimedWriterPlan {
    pub plan: WriterPlan,
    pub timings: WriterTimings,
}

pub open spec fn timed_plan_value(r: Result<TimedWriterPlan, ArchiveWriteError>) -> Result<
    PlanValue,
    ArchiveWriteError,
> {
    match r {
        Ok(timed) => Ok(timed.plan@),
        Err(e) => Err(e),
    }
}

/// Plans an archive.
pub fn build_writer_plan<
    C: ArchiveCodec + MetadataProfile,
    S: RegularFileSource,
    P: ArchiveWriteProgressSink,
>(
    codec: &C,
    files: &[S],
    options: WriterOptions,
    dictionary: Option<&[u8]>,
    kdf_params: &KdfParams,
    key_wrap_records: Option<&KeyWrapRecordSource>,
    request: &PlanRequest<'_>,
    progress: &mut P,
    ledger: &mut SourceProgressState,
) -> (r: Result<TimedWriterPlan, ArchiveWriteError>)
    requires
        take_requests(files@, options.chunk_size as int),
        options.block_size > 0,
        options.chunk_size > 0,
        old(ledger).wf(),
    ensures
        final(ledger).wf(),
        r is Ok ==> phases_of(final(progress).events()) == phases_of(old(progress).events()).push(
            ArchiveWritePhase::PlanningMetadata,
        ),
        r is Ok ==> tells_sources(
            codec,
            files@,
            *old(ledger),
            old(progress).events(),
            final(progress).events(),
        ),
        r matches Ok(timed) ==> timed.plan.wf(),
        exists|runs: Seq<SourceRun>, answer: RecordsAnswer|
            #![trigger may_run_all(files@, runs), source_answers(key_wrap_records, answer)]
            may_run_all(files@, runs) && source_answers(key_wrap_records, answer)
                && is_source_plan(
                codec,
                runs,
                answer,
                options,
                opt_bytes(dictionary),
                kdf_params@,
                *request,
                timed_plan_value(r),
            ),
{
    let payload_started = now();
    let planned: Result<(PayloadPlanning, u64), ArchiveWriteError> = plan_payload_stream(
        codec,
        files,
        options,
        dictionary,
        progress,
        ledger,
    );
    let ghost runs = choose|runs: Seq<SourceRun>| #[trigger]
        may_run_all(files@, runs) && payload_agrees(
            planned,
            payload_outcome(codec, runs, options, opt_bytes(dictionary)),
        );
    assert(may_run_all(files@, runs));
    proof {
        crate::key_wrap::some_answer_is_possible(key_wrap_records);
    }
    let (payload, next_block_index) = planned?;
    let plan_payload: u64 = nanos_since(&payload_started);
    let ghost noted = *ledger;
    let ghost told = progress.events();
    ledger.start_phase(progress, ArchiveWritePhase::PlanningMetadata);
    proof {
        all_members_are_told(
            codec,
            files@,
            *old(ledger),
            old(progress).events(),
            noted,
            told,
            progress.events(),
        );
    }
    let metadata_started = now();
    let resolved: Result<(KdfParams, Option<Vec<u8>>), FormatError> = resolve_key_wrap_artifacts(
        codec,
        kdf_params,
        &request.archive_uuid,
        &request.session_id,
        key_wrap_records,
    );
    let ghost answer = choose|answer: RecordsAnswer| #[trigger]
        source_answers(key_wrap_records, answer) && key_wrap_agree(
            resolved,
            key_wrap_outcome(
                codec,
                kdf_params@,
                request.archive_uuid,
                request.session_id,
                answer,
            ),
        );
    assert(source_answers(key_wrap_records, answer));
    let (kdf, table) = lift(resolved)?;
    let plan: WriterPlan = lift(
        build_writer_plan_from_payload(
            codec,
            payload,
            next_block_index,
            options,
            dictionary,
            &kdf,
            table,
            request,
        ),
    )?;
    Ok(
        TimedWriterPlan {
            plan,
            timings: WriterTimings {
                total: 0,
                plan_payload,
                plan_metadata: nanos_since(&metadata_started),
                emit_payload: 0,
                emit_metadata: 0,
            },
        },
    )
}

} // verus!
