//! Writing an archive in two passes: a plan over its sources, then the volumes.
use crate::clock::{nanos_since, now};
use crate::codec::ArchiveCodec;
use crate::emit::{
    begin_writer_emission_state, begun, emission, volume_header, Emission, WriterEmissionState,
};
use crate::errors::{ArchiveWriteError, FormatError};
use crate::keys::Subkeys;
use crate::members::may_run_all;
use crate::objects::ArchiveSeal;
use crate::options::{opt_bytes, ReaderCaps};
use crate::payload::{goes, PayloadEnvelopeBuilder};
use crate::plan::{PlanValue, WriterPlan};
use crate::profile::MetadataProfile;
use crate::progress::{phases_of, ArchiveWritePhase, ArchiveWriteProgressSink, SourceProgressState};
use crate::replay::{emit_payload_stream, replayed_payload, PayloadReplay, ReplaySetting};
use crate::root_auth::{always_answers, RootAuthSigningRequest, RootAuthWriterConfig};
use crate::sink::{failure_of, standing, ArchiveWriteSink};
use crate::source::{take_requests, RegularFileSource, SourceRun};
use crate::suffix::{
    closes, emit_writer_plan_suffix, header_values, suffix_answers, suffix_outcome, summarizes,
    ClosedArchive, FooterAnswer, WrittenArchiveSummary,
};
use crate::tally::{all_members_are_told, tells_sources};
use crate::wire::Record;
use vstd::prelude::*;

verus! {

// ---------------------------------------------------------------------------------------------
// Writing a plan
// ---------------------------------------------------------------------------------------------

/// The headers of all volumes.
pub open spec fn volume_headers<C: ArchiveCodec>(
    codec: &C,
    stripe_width: u32,
    crypto_header: Seq<u8>,
    archive_uuid: [u8; 16],
    session_id: [u8; 16],
    rev: u16,
) -> Seq<Seq<u8>> {
    Seq::new(
        stripe_width as nat,
        |i: int|
            codec.encoded(
                Record::VolumeHeader(
                    volume_header(
                        codec.spec_layout(),
                        stripe_width,
                        crypto_header.len() as int,
                        archive_uuid,
                        session_id,
                        rev,
                        i,
                    ),
                ),
            ),
    )
}

/// What the payload of a plan is written by.
pub open spec fn replay_setting<C: ArchiveCodec>(
    codec: &C,
    plan: PlanValue,
    subkeys: Subkeys,
) -> ReplaySetting {
    ReplaySetting {
        plan,
        seal: ArchiveSeal {
            subkeys,
            archive_uuid: plan.archive_uuid,
            session_id: plan.session_id,
        },
        rev: plan.volume_format_rev,
        headers: volume_headers(
            codec,
            plan.options.stripe_width,
            plan.crypto_header.bytes,
            plan.archive_uuid,
            plan.session_id,
            plan.volume_format_rev,
        ),
    }
}

/// The archive after its payload.
pub open spec fn plan_payload_emission<C: ArchiveCodec + MetadataProfile, O: ArchiveWriteSink>(
    codec: &C,
    plan: PlanValue,
    subkeys: Subkeys,
    collect: bool,
    dictionary: Option<Seq<u8>>,
    runs: Seq<SourceRun>,
) -> Result<Emission, ArchiveWriteError> {
    match begun(
        codec,
        plan.options.stripe_width,
        plan.crypto_header.bytes,
        plan.key_wrap_table,
        plan.archive_uuid,
        plan.session_id,
        plan.volume_format_rev,
        collect,
    ) {
        Err(e) => Err(ArchiveWriteError::Format(e)),
        Ok(start) => match replayed_payload::<C, O>(
            codec,
            replay_setting(codec, plan, subkeys),
            start,
            dictionary,
            runs,
        ) {
            Err(e) => Err(e),
            Ok(p) => Ok(p.emission),
        },
    }
}

/// The archive of a plan, from what its sources contribute and the signer answers.
pub open spec fn plan_emission<C: ArchiveCodec + MetadataProfile, O: ArchiveWriteSink>(
    codec: &C,
    plan: PlanValue,
    subkeys: Subkeys,
    collect: bool,
    dictionary: Option<Seq<u8>>,
    runs: Seq<SourceRun>,
    caps: ReaderCaps,
    answer: FooterAnswer,
) -> Result<ClosedArchive, ArchiveWriteError> {
    match plan_payload_emission::<C, O>(codec, plan, subkeys, collect, dictionary, runs) {
        Err(e) => Err(e),
        Ok(e) => match suffix_outcome(
            codec,
            e,
            plan,
            subkeys,
            replay_setting(codec, plan, subkeys).headers,
            plan.volume_format_rev,
            caps,
            answer,
        ) {
            Err(f) => Err(ArchiveWriteError::Format(f)),
            Ok(closed) => Ok(closed),
        },
    }
}

/// Whether a signer can have answered so, if it came to that.
pub open spec fn plan_answers<
    C: ArchiveCodec + MetadataProfile,
    O: ArchiveWriteSink,
    F: FnOnce(&RootAuthSigningRequest) -> Result<Vec<u8>, FormatError>,
>(
    codec: &C,
    plan: PlanValue,
    subkeys: Subkeys,
    dictionary: Option<Seq<u8>>,
    runs: Seq<SourceRun>,
    root_auth: Option<RootAuthWriterConfig>,
    authenticator: Option<F>,
    caps: ReaderCaps,
    answer: FooterAnswer,
) -> bool {
    match plan_payload_emission::<C, O>(
        codec,
        plan,
        subkeys,
        root_auth is Some,
        dictionary,
        runs,
    ) {
        Ok(e) => suffix_answers(
            codec,
            e,
            plan,
            subkeys,
            plan.volume_format_rev,
            root_auth,
            authenticator,
            caps,
            answer,
        ),
        Err(_) => true,
    }
}

/// Whether an archive was written as `outcome` says. Where the sink refused nothing, success and
/// failure are those of `outcome`.
pub open spec fn finishes<O: ArchiveWriteSink>(
    calm: bool,
    sink: O,
    outcome: Result<ClosedArchive, ArchiveWriteError>,
    stripe_width: u32,
    archive_uuid: [u8; 16],
    session_id: [u8; 16],
    r: Result<WrittenArchiveSummary, ArchiveWriteError>,
) -> bool {
    &&& match r {
        Ok(summary) => match outcome {
            Ok(closed) => {
                &&& sink.volumes() == closed.emission.volumes
                &&& sink.sidecar() == closed.emission.sidecar
                &&& summarizes(summary, closed, stripe_width, archive_uuid, session_id)
            },
            Err(_) => false,
        },
        Err(_) => true,
    }
    &&& calm ==> match outcome {
        Ok(_) => r is Ok,
        Err(e) => r == Err::<WrittenArchiveSummary, ArchiveWriteError>(e),
    }
}

/// Writes a plan from its sources.
#[verifier::rlimit(60)]
pub fn emit_writer_plan<
    C: ArchiveCodec + MetadataProfile,
    O: ArchiveWriteSink,
    S: RegularFileSource,
    P: ArchiveWriteProgressSink,
    F: FnOnce(&RootAuthSigningRequest) -> Result<Vec<u8>, FormatError>,
>(
    codec: &C,
    files: &[S],
    subkeys: &Subkeys,
    dictionary: Option<&[u8]>,
    root_auth: Option<RootAuthWriterConfig<'_>>,
    authenticator: Option<F>,
    plan: &WriterPlan,
    caps: &ReaderCaps,
    sink: &mut O,
    progress: &mut P,
    ledger: &mut SourceProgressState,
) -> (r: Result<WrittenArchiveSummary, ArchiveWriteError>)
    requires
        take_requests(files@, plan.options.chunk_size as int),
        plan.wf(),
        plan.options.block_size > 0,
        plan.options.chunk_size > 0,
        plan.options.stripe_width > 0,
        old(ledger).wf(),
        authenticator matches Some(signer) ==> always_answers(signer),
    ensures
        final(ledger).wf(),
        r is Ok ==> phases_of(final(progress).events()) == phases_of(old(progress).events()).push(
            ArchiveWritePhase::EmittingMetadata,
        ),
        r is Ok ==> tells_sources(
            codec,
            files@,
            *old(ledger),
            old(progress).events(),
            final(progress).events(),
        ),
        standing(*old(sink)).hands_on(standing(*final(sink)), failure_of(r)),
        standing(*old(sink)).undisturbed(standing(*final(sink))) || r is Ok ==> exists|
            runs: Seq<SourceRun>,
            answer: FooterAnswer,
        |
            #![trigger may_run_all(files@, runs), plan_answers::<C, O, F>(codec, plan@, *subkeys, opt_bytes(dictionary), runs, root_auth, authenticator, *caps, answer)]
            may_run_all(files@, runs) && plan_answers::<C, O, F>(
                codec,
                plan@,
                *subkeys,
                opt_bytes(dictionary),
                runs,
                root_auth,
                authenticator,
                *caps,
                answer,
            ) && finishes(
                standing(*old(sink)).undisturbed(standing(*final(sink))),
                *final(sink),
                plan_emission::<C, O>(
                    codec,
                    plan@,
                    *subkeys,
                    root_auth is Some,
                    opt_bytes(dictionary),
                    runs,
                    *caps,
                    answer,
                ),
                plan.options.stripe_width,
                plan.archive_uuid,
                plan.session_id,
                r,
            ),
{
    let ghost dict = opt_bytes(dictionary);
    let ghost collect = root_auth is Some;
    let ghost opened = standing(*sink);
    let ghost nobody: FooterAnswer = Ok(None);
    let ghost any_runs: Seq<SourceRun> = Seq::new(files@.len(), |i: int| files@[i].run());
    assert(may_run_all(files@, any_runs));
    let table: Option<&[u8]> = match &plan.key_wrap_table {
        Some(table) => Some(table.as_slice()),
        None => None,
    };
    let began: Result<WriterEmissionState, ArchiveWriteError> = begin_writer_emission_state(
        codec,
        sink,
        plan.options,
        plan.crypto_header.bytes.as_slice(),
        table,
        plan.archive_uuid,
        plan.session_id,
        plan.volume_format_rev,
        root_auth.is_some(),
    );
    let state: WriterEmissionState = match began {
        Ok(state) => state,
        Err(e) => {
            assert(opened.undisturbed(standing(*sink)) ==> plan_answers::<C, O, F>(
                codec,
                plan@,
                *subkeys,
                dict,
                any_runs,
                root_auth,
                authenticator,
                *caps,
                nobody,
            ));
            return Err(e);
        },
    };
    let seal = ArchiveSeal {
        subkeys: *subkeys,
        archive_uuid: plan.archive_uuid,
        session_id: plan.session_id,
    };
    let emit_payload_started = now();
    let mut replay = PayloadReplay {
        plan,
        seal,
        envelope: PayloadEnvelopeBuilder { envelope_index: 0, plaintext: Vec::new() },
        next_frame_index: 0,
        state,
    };
    let ghost start = emission(*sink, replay.state);
    let ghost setting = replay_setting(codec, plan@, *subkeys);
    proof {
        assert(replay.envelope.plaintext@ =~= Seq::<u8>::empty());
        assert(header_values(replay.state) =~= setting.headers);
        assert(replay.kept() == setting);
    }
    let ghost paid = standing(*sink);
    let emitted: Result<(), ArchiveWriteError> = emit_payload_stream(
        codec,
        files,
        dictionary,
        &mut replay,
        sink,
        progress,
        ledger,
    );
    let ghost runs = choose|runs: Seq<SourceRun>| #[trigger]
        may_run_all(files@, runs) && goes(
            paid,
            standing(*sink),
            emitted,
            replay.value(*sink),
            replayed_payload::<C, O>(codec, setting, start, dict, runs),
        );
    assert(may_run_all(files@, runs));
    if let Err(e) = emitted {
        assert(opened.undisturbed(standing(*sink)) ==> plan_answers::<C, O, F>(
            codec,
            plan@,
            *subkeys,
            dict,
            runs,
            root_auth,
            authenticator,
            *caps,
            nobody,
        ));
        return Err(e);
    }
    let emit_payload: u64 = nanos_since(&emit_payload_started);
    let ghost noted = *ledger;
    let ghost told = progress.events();
    ledger.start_phase(progress, ArchiveWritePhase::EmittingMetadata);
    proof {
        all_members_are_told(
            codec,
            files@,
            *old(ledger),
            old(progress).events(),
            noted,
            told,
            progress.events(),
        );
    }
    let mut state: WriterEmissionState = replay.state;
    let ghost before = emission(*sink, state);
    proof {
        assert(header_values(state) == setting.headers);
        assert forall|i: int| 0 <= i < plan.options.stripe_width implies (
        #[trigger] state.volume_headers@[i])@.len() == codec.spec_layout().volume_header by {
            assert(header_values(state)[i] == state.volume_headers@[i]@);
            assert(header_values(replay.state)[i] == setting.headers[i]);
        }
    }
    let ghost left = standing(*sink);
    let closed: Result<WrittenArchiveSummary, ArchiveWriteError> = emit_writer_plan_suffix(
        codec,
        subkeys,
        root_auth,
        authenticator,
        plan,
        caps,
        sink,
        &mut state,
    );
    proof {
        if opened.undisturbed(standing(*sink)) || closed is Ok {
            let answer = choose|answer: FooterAnswer| #[trigger]
                suffix_answers(
                    codec,
                    before,
                    plan@,
                    *subkeys,
                    plan.volume_format_rev,
                    root_auth,
                    authenticator,
                    *caps,
                    answer,
                ) && closes(
                    left,
                    standing(*sink),
                    emission(*sink, state),
                    suffix_outcome(
                        codec,
                        before,
                        plan@,
                        *subkeys,
                        setting.headers,
                        plan.volume_format_rev,
                        *caps,
                        answer,
                    ),
                    plan@,
                    closed,
                );
            assert(plan_answers::<C, O, F>(
                codec,
                plan@,
                *subkeys,
                dict,
                runs,
                root_auth,
                authenticator,
                *caps,
                answer,
            ));
        }
    }
    let mut summary: WrittenArchiveSummary = closed?;
    summary.timings.emit_payload = summary.timings.emit_payload.saturating_add(emit_payload);
    Ok(summary)
}

} // verus!
