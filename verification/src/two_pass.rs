//! Archives whose sources are read twice: once for the plan, once for the volumes.
use crate::archive::{emit_writer_plan, finishes, plan_answers, plan_emission};
use crate::clock::{nanos_since, now, WriterTimings};
use crate::codec::{ArchiveCodec, WireLayout};
use crate::emit::lift;
use crate::errors::{ArchiveWriteError, FormatError};
use crate::format::VOLUME_FORMAT_REV_45;
use crate::ids::{choose_id, may_identify};
use crate::key_wrap::{source_answers, KeyWrapRecordSource};
use crate::keys::{KdfParams, MasterKey, Subkeys};
use crate::members::may_run_all;
use crate::options::{
    dictionary_refusal, opt_bytes, plan_writer_options, planned_options, validate_dictionary_inputs,
    ReaderCaps, WriterOptions,
};
use crate::plan::{subkeys_outcome, writer_subkeys, PlanRequest, PlanValue, WriterPlan};
use crate::planning::{
    build_writer_plan, is_source_plan, timed_plan_value, RecordsAnswer, TimedWriterPlan,
};
use crate::profile::MetadataProfile;
use crate::progress::{
    phases_of, ArchiveWritePhase, ArchiveWriteProgressSink, ProgressEvent, SourceProgressState,
};
use crate::root_auth::{
    always_answers, footer_length_outcome, validate_root_auth_writer_config, RootAuthSigningRequest,
    RootAuthWriterConfig,
};
use crate::sink::{failure_of, is_untouched, standing, ArchiveWriteSink};
use crate::source::{take_requests, RegularFileSource, SourceRun};
use crate::suffix::{FooterAnswer, WrittenArchiveSummary};
use crate::tally::{counts_readings, one_reading_is_counted, readings_add_up};
use crate::volume_size::{required_stripe_width_for_plan, stripe_width_outcome};
use vstd::prelude::*;

verus! {

/// A request for an archive and what goes with it.
pub struct ArchiveRequest<'a> {
    pub dictionary: Option<&'a [u8]>,
    pub kdf_params: &'a KdfParams,
    pub key_wrap_records: Option<&'a KeyWrapRecordSource>,
    pub plan: PlanRequest<'a>,
}

/// Whether `r` is the plan of one pass over the sources.
#[verifier::opaque]
pub open spec fn plans_pass<C: ArchiveCodec + MetadataProfile, S: RegularFileSource>(
    codec: &C,
    files: Seq<S>,
    request: ArchiveRequest,
    o: WriterOptions,
    r: Result<PlanValue, ArchiveWriteError>,
) -> bool {
    exists|runs: Seq<SourceRun>, answer: RecordsAnswer|
        #![trigger may_run_all(files, runs), source_answers(request.key_wrap_records, answer)]
        may_run_all(files, runs) && source_answers(request.key_wrap_records, answer)
            && is_source_plan(
            codec,
            runs,
            answer,
            o,
            opt_bytes(request.dictionary),
            request.kdf_params@,
            request.plan,
            r,
        )
}

/// Whether a plan was written from the sources as it should. A plan for which no keys can be had
/// leaves the sink alone.
#[verifier::opaque]
pub open spec fn writes_plan<
    C: ArchiveCodec + MetadataProfile,
    O: ArchiveWriteSink,
    S: RegularFileSource,
    F: FnOnce(&RootAuthSigningRequest) -> Result<Vec<u8>, FormatError>,
>(
    codec: &C,
    files: Seq<S>,
    request: ArchiveRequest,
    plan: PlanValue,
    authenticator: Option<F>,
    first: O,
    sink: O,
    r: Result<WrittenArchiveSummary, ArchiveWriteError>,
) -> bool {
    match subkeys_outcome(
        codec,
        request.plan.master_key,
        plan.options.aead_algo,
        plan.archive_uuid,
        plan.session_id,
    ) {
        Err(e) => is_untouched(first, sink) && r == Err::<WrittenArchiveSummary, ArchiveWriteError>(
            ArchiveWriteError::Format(e),
        ),
        Ok(subkeys) => standing(first).undisturbed(standing(sink))
            || r is Ok ==> writes_from_sources(
            codec,
            files,
            request,
            plan,
            subkeys,
            authenticator,
            standing(first).undisturbed(standing(sink)),
            sink,
            r,
        ),
    }
}

pub open spec fn writes_from_sources<
    C: ArchiveCodec + MetadataProfile,
    O: ArchiveWriteSink,
    S: RegularFileSource,
    F: FnOnce(&RootAuthSigningRequest) -> Result<Vec<u8>, FormatError>,
>(
    codec: &C,
    files: Seq<S>,
    request: ArchiveRequest,
    plan: PlanValue,
    subkeys: Subkeys,
    authenticator: Option<F>,
    calm: bool,
    sink: O,
    r: Result<WrittenArchiveSummary, ArchiveWriteError>,
) -> bool {
    exists|runs: Seq<SourceRun>, answer: FooterAnswer|
        #![trigger may_run_all(files, runs), plan_answers::<C, O, F>(codec, plan, subkeys, opt_bytes(request.dictionary), runs, request.plan.root_auth, authenticator, request.plan.caps, answer)]
        may_run_all(files, runs) && plan_answers::<C, O, F>(
            codec,
            plan,
            subkeys,
            opt_bytes(request.dictionary),
            runs,
            request.plan.root_auth,
            authenticator,
            request.plan.caps,
            answer,
        ) && finishes(
            calm,
            sink,
            plan_emission::<C, O>(
                codec,
                plan,
                subkeys,
                request.plan.root_auth is Some,
                opt_bytes(request.dictionary),
                runs,
                request.plan.caps,
                answer,
            ),
            plan.options.stripe_width,
            plan.archive_uuid,
            plan.session_id,
            r,
        )
}

/// More volumes that a size limit takes, if it does.
pub open spec fn wider<C: ArchiveCodec>(
    codec: &C,
    request: ArchiveRequest,
    o: WriterOptions,
    plan: PlanValue,
) -> Result<Option<u32>, FormatError> {
    match o.target_volume_size {
        None => Ok(None),
        Some(target) => match stripe_width_outcome(
            codec,
            plan,
            request.plan.master_key,
            request.plan.caps,
            target,
        ) {
            Err(e) => Err(e),
            Ok(required) => if required > o.stripe_width {
                Ok(Some(required))
            } else {
                Ok(None)
            },
        },
    }
}

/// Whether the archive of a request was written as it should: planned, planned again with more
/// volumes as often as a volume came out larger than asked for, and written. Nothing reaches the
/// sink before there is a plan.
pub open spec fn writes_archive<
    C: ArchiveCodec + MetadataProfile,
    O: ArchiveWriteSink,
    S: RegularFileSource,
    F: FnOnce(&RootAuthSigningRequest) -> Result<Vec<u8>, FormatError>,
>(
    codec: &C,
    files: Seq<S>,
    request: ArchiveRequest,
    requested: WriterOptions,
    authenticator: Option<F>,
    first: O,
    sink: O,
    r: Result<WrittenArchiveSummary, ArchiveWriteError>,
) -> bool
    decreases u32::MAX - requested.stripe_width,
{
    match planned_options(requested, request.plan.caps) {
        Err(e) => is_untouched(first, sink) && r == Err::<WrittenArchiveSummary, ArchiveWriteError>(
            ArchiveWriteError::Format(e),
        ),
        Ok(o) => exists|planned: Result<PlanValue, ArchiveWriteError>|
            {
                &&& #[trigger] plans_pass(codec, files, request, o, planned)
                &&& match planned {
                    Err(e) => is_untouched(first, sink) && r == Err::<
                        WrittenArchiveSummary,
                        ArchiveWriteError,
                    >(e),
                    Ok(plan) => match wider(codec, request, o, plan) {
                        Err(e) => is_untouched(first, sink) && r == Err::<
                            WrittenArchiveSummary,
                            ArchiveWriteError,
                        >(ArchiveWriteError::Format(e)),
                        Ok(Some(width)) => requested.stripe_width < width && writes_archive(
                            codec,
                            files,
                            request,
                            WriterOptions { stripe_width: width, ..requested },
                            authenticator,
                            first,
                            sink,
                            r,
                        ),
                        Ok(None) => writes_plan(
                            codec,
                            files,
                            request,
                            plan,
                            authenticator,
                            first,
                            sink,
                            r,
                        ),
                    },
                }
            },
    }
}

/// The phases of `passes` plans and of one archive.
pub open spec fn two_pass_phases(passes: nat) -> Seq<ArchiveWritePhase>
    decreases passes,
{
    if passes == 0 {
        seq![ArchiveWritePhase::EmittingPayload, ArchiveWritePhase::EmittingMetadata]
    } else {
        seq![ArchiveWritePhase::PlanningPayload, ArchiveWritePhase::PlanningMetadata]
            + two_pass_phases((passes - 1) as nat)
    }
}

/// Whether `passes` plans, one of them at least, and one archive were reported, each with all bytes
/// of the sources. Where no size of the volumes is asked for, there is one plan.
pub open spec fn reports_passes<C: MetadataProfile, S: RegularFileSource>(
    codec: &C,
    files: Seq<S>,
    target_volume_size: Option<u64>,
    told: Seq<ProgressEvent>,
    new_told: Seq<ProgressEvent>,
    passes: nat,
) -> bool {
    &&& passes > 0
    &&& target_volume_size is None ==> passes == 1
    &&& phases_of(new_told) == phases_of(told) + two_pass_phases(passes)
    &&& counts_readings(codec, files, passes, 1, told, new_told)
}

/// Plans an archive from one pass over its sources.
fn plan_pass<
    C: ArchiveCodec + MetadataProfile,
    S: RegularFileSource,
    P: ArchiveWriteProgressSink,
>(
    codec: &C,
    files: &[S],
    request: &ArchiveRequest<'_>,
    options: WriterOptions,
    progress: &mut P,
    ledger: &mut SourceProgressState,
) -> (r: Result<TimedWriterPlan, ArchiveWriteError>)
    requires
        options.chunk_size > 0,
        options.block_size > 0,
        options.stripe_width > 0,
        take_requests(files@, options.chunk_size as int),
        old(ledger).wf(),
    ensures
        final(ledger).wf(),
        plans_pass(codec, files@, *request, options, timed_plan_value(r)),
        r matches Ok(timed) ==> {
            &&& timed.plan.wf()
            &&& timed.plan.options.block_size == options.block_size
            &&& timed.plan.options.chunk_size == options.chunk_size
            &&& timed.plan.options.stripe_width == options.stripe_width
            &&& phases_of(final(progress).events()) == phases_of(old(progress).events()) + seq![
                ArchiveWritePhase::PlanningPayload,
                ArchiveWritePhase::PlanningMetadata,
            ]
            &&& counts_readings(
                codec,
                files@,
                1,
                0,
                old(progress).events(),
                final(progress).events(),
            )
        },
{
    reveal(plans_pass);
    ledger.start_phase(progress, ArchiveWritePhase::PlanningPayload);
    let ghost noted = *ledger;
    let ghost told = progress.events();
    let built: Result<TimedWriterPlan, ArchiveWriteError> = build_writer_plan(
        codec,
        files,
        options,
        request.dictionary,
        request.kdf_params,
        request.key_wrap_records,
        &request.plan,
        progress,
        ledger,
    );
    proof {
        if built is Ok {
            one_reading_is_counted(
                codec,
                files@,
                noted,
                old(progress).events(),
                told,
                progress.events(),
            );
        }
    }
    built
}

/// Writes a planned archive.
fn write_plan<
    C: ArchiveCodec + MetadataProfile,
    O: ArchiveWriteSink,
    S: RegularFileSource,
    P: ArchiveWriteProgressSink,
    F: FnOnce(&RootAuthSigningRequest) -> Result<Vec<u8>, FormatError>,
>(
    codec: &C,
    files: &[S],
    request: &ArchiveRequest<'_>,
    plan: &WriterPlan,
    authenticator: Option<F>,
    sink: &mut O,
    progress: &mut P,
    ledger: &mut SourceProgressState,
) -> (r: Result<WrittenArchiveSummary, ArchiveWriteError>)
    requires
        plan.wf(),
        plan.options.chunk_size > 0,
        plan.options.block_size > 0,
        plan.options.stripe_width > 0,
        take_requests(files@, plan.options.chunk_size as int),
        old(ledger).wf(),
        authenticator matches Some(signer) ==> always_answers(signer),
    ensures
        final(ledger).wf(),
        standing(*old(sink)).hands_on(standing(*final(sink)), failure_of(r)),
        r is Ok ==> phases_of(final(progress).events()) == phases_of(old(progress).events())
            + seq![ArchiveWritePhase::EmittingPayload, ArchiveWritePhase::EmittingMetadata],
        r is Ok ==> counts_readings(
            codec,
            files@,
            0,
            1,
            old(progress).events(),
            final(progress).events(),
        ),
        writes_plan(
            codec,
            files@,
            *request,
            plan@,
            authenticator,
            *old(sink),
            *final(sink),
            r,
        ),
{
    reveal(writes_plan);
    ledger.start_phase(progress, ArchiveWritePhase::EmittingPayload);
    let ghost noted = *ledger;
    let ghost told = progress.events();
    let subkeys: Subkeys = lift(
        writer_subkeys(
            codec,
            &request.plan.master_key,
            plan.options.aead_algo,
            &plan.archive_uuid,
            &plan.session_id,
        ),
    )?;
    let emitted: Result<WrittenArchiveSummary, ArchiveWriteError> = emit_writer_plan(
        codec,
        files,
        &subkeys,
        request.dictionary,
        request.plan.root_auth,
        authenticator,
        plan,
        &request.plan.caps,
        sink,
        progress,
        ledger,
    );
    proof {
        if emitted is Ok {
            one_reading_is_counted(
                codec,
                files@,
                noted,
                old(progress).events(),
                told,
                progress.events(),
            );
        }
    }
    emitted
}

/// What was measured has no part in whether a plan was written.
proof fn timings_do_not_matter<
    C: ArchiveCodec + MetadataProfile,
    O: ArchiveWriteSink,
    S: RegularFileSource,
    F: FnOnce(&RootAuthSigningRequest) -> Result<Vec<u8>, FormatError>,
>(
    codec: &C,
    files: Seq<S>,
    request: ArchiveRequest,
    plan: PlanValue,
    authenticator: Option<F>,
    first: O,
    sink: O,
    summary: WrittenArchiveSummary,
    timings: WriterTimings,
)
    requires
        writes_plan(codec, files, request, plan, authenticator, first, sink, Ok(summary)),
    ensures
        writes_plan(
            codec,
            files,
            request,
            plan,
            authenticator,
            first,
            sink,
            Ok(WrittenArchiveSummary { timings, ..summary }),
        ),
{
    reveal(writes_plan);
    let dictionary = opt_bytes(request.dictionary);
    match subkeys_outcome(
        codec,
        request.plan.master_key,
        plan.options.aead_algo,
        plan.archive_uuid,
        plan.session_id,
    ) {
        Err(_) => {},
        Ok(subkeys) => {
            let (runs, answer) = choose|runs: Seq<SourceRun>, answer: FooterAnswer|
                #![trigger may_run_all(files, runs), plan_answers::<C, O, F>(codec, plan, subkeys, dictionary, runs, request.plan.root_auth, authenticator, request.plan.caps, answer)]
                may_run_all(files, runs) && plan_answers::<C, O, F>(
                    codec,
                    plan,
                    subkeys,
                    dictionary,
                    runs,
                    request.plan.root_auth,
                    authenticator,
                    request.plan.caps,
                    answer,
                ) && finishes(
                    standing(first).undisturbed(standing(sink)),
                    sink,
                    plan_emission::<C, O>(
                        codec,
                        plan,
                        subkeys,
                        request.plan.root_auth is Some,
                        dictionary,
                        runs,
                        request.plan.caps,
                        answer,
                    ),
                    plan.options.stripe_width,
                    plan.archive_uuid,
                    plan.session_id,
                    Ok(summary),
                );
            assert(may_run_all(files, runs));
            assert(plan_answers::<C, O, F>(
                codec,
                plan,
                subkeys,
                dictionary,
                runs,
                request.plan.root_auth,
                authenticator,
                request.plan.caps,
                answer,
            ));
        },
    }
}

/// Plans the archive of a request and writes it; plans it again where its volumes come out too
/// large.
#[verifier::rlimit(60)]
pub fn write_planned_archive<
    C: ArchiveCodec + MetadataProfile,
    O: ArchiveWriteSink,
    S: RegularFileSource,
    P: ArchiveWriteProgressSink,
    F: FnOnce(&RootAuthSigningRequest) -> Result<Vec<u8>, FormatError>,
>(
    codec: &C,
    files: &[S],
    request: &ArchiveRequest<'_>,
    requested: WriterOptions,
    authenticator: Option<F>,
    started: &std::time::Instant,
    timings: WriterTimings,
    sink: &mut O,
    progress: &mut P,
    ledger: &mut SourceProgressState,
) -> (r: Result<WrittenArchiveSummary, ArchiveWriteError>)
    requires
        take_requests(files@, requested.chunk_size as int),
        old(ledger).wf(),
        authenticator matches Some(signer) ==> always_answers(signer),
    ensures
        final(ledger).wf(),
        standing(*old(sink)).hands_on(standing(*final(sink)), failure_of(r)),
        r is Ok ==> exists|passes: nat| #[trigger]
            reports_passes(
                codec,
                files@,
                requested.target_volume_size,
                old(progress).events(),
                final(progress).events(),
                passes,
            ),
        writes_archive(
            codec,
            files@,
            *request,
            requested,
            authenticator,
            *old(sink),
            *final(sink),
            r,
        ),
    decreases u32::MAX - requested.stripe_width,
{
    let ghost before = progress.events();
    let options: WriterOptions = lift(plan_writer_options(requested, &request.plan.caps))?;
    let built: Result<TimedWriterPlan, ArchiveWriteError> = plan_pass(
        codec,
        files,
        request,
        options,
        progress,
        ledger,
    );
    assert(plans_pass(codec, files@, *request, options, timed_plan_value(built)));
    let timed: TimedWriterPlan = built?;
    let mut timings: WriterTimings = timings;
    timings.add_assign(timed.timings);
    let plan: WriterPlan = timed.plan;
    if let Some(target) = options.target_volume_size {
        let required: u32 = lift(
            required_stripe_width_for_plan(
                codec,
                &plan,
                &request.plan.master_key,
                &request.plan.caps,
                target,
            ),
        )?;
        if required > options.stripe_width {
            let mut wider_request: WriterOptions = requested;
            wider_request.stripe_width = required;
            let ghost planned = progress.events();
            let written: Result<WrittenArchiveSummary, ArchiveWriteError> = write_planned_archive(
                codec,
                files,
                request,
                wider_request,
                authenticator,
                started,
                timings,
                sink,
                progress,
                ledger,
            );
            proof {
                if written is Ok {
                    let after = progress.events();
                    let target = requested.target_volume_size;
                    let passes = choose|passes: nat| #[trigger]
                        reports_passes(codec, files@, target, planned, after, passes);
                    assert(phases_of(after) =~= phases_of(before) + two_pass_phases(passes + 1));
                    readings_add_up(codec, files@, 1, 0, passes, 1, before, planned, after);
                    assert(reports_passes(codec, files@, target, before, after, passes + 1));
                }
            }
            return written;
        }
    }
    let ghost planned = progress.events();
    let mut summary: WrittenArchiveSummary = write_plan(
        codec,
        files,
        request,
        &plan,
        authenticator,
        sink,
        progress,
        ledger,
    )?;
    let ghost untimed = summary;
    summary.timings.add_assign(timings);
    summary.timings.total = nanos_since(started);
    proof {
        timings_do_not_matter(
            codec,
            files@,
            *request,
            plan@,
            authenticator,
            *old(sink),
            *sink,
            untimed,
            summary.timings,
        );
        reveal_with_fuel(two_pass_phases, 2);
        let after = progress.events();
        let target = requested.target_volume_size;
        assert(phases_of(after) =~= phases_of(before) + two_pass_phases(1));
        readings_add_up(codec, files@, 1, 0, 0, 1, before, planned, after);
        assert(reports_passes(codec, files@, target, before, after, 1));
    }
    Ok(summary)
}

/// What goes into an archive beside its sources and its options.
pub struct ArchiveOrder<'a> {
    pub master_key: MasterKey,
    pub dictionary: Option<&'a [u8]>,
    pub kdf_params: &'a KdfParams,
    pub root_auth: Option<RootAuthWriterConfig<'a>>,
    pub key_wrap_records: Option<&'a KeyWrapRecordSource>,
    pub caps: ReaderCaps,
}

impl<'a> ArchiveOrder<'a> {
    /// The request for the archive of this order with these identities.
    pub open spec fn spec_request(
        self,
        archive_uuid: [u8; 16],
        session_id: [u8; 16],
    ) -> ArchiveRequest<'a> {
        ArchiveRequest {
            dictionary: self.dictionary,
            kdf_params: self.kdf_params,
            key_wrap_records: self.key_wrap_records,
            plan: PlanRequest {
                archive_uuid,
                session_id,
                volume_format_rev: VOLUME_FORMAT_REV_45,
                master_key: self.master_key,
                root_auth: self.root_auth,
                caps: self.caps,
            },
        }
    }

    pub fn request(&self, archive_uuid: [u8; 16], session_id: [u8; 16]) -> (r: ArchiveRequest<'a>)
        ensures
            r == self.spec_request(archive_uuid, session_id),
    {
        ArchiveRequest {
            dictionary: self.dictionary,
            kdf_params: self.kdf_params,
            key_wrap_records: self.key_wrap_records,
            plan: PlanRequest {
                archive_uuid,
                session_id,
                volume_format_rev: VOLUME_FORMAT_REV_45,
                master_key: self.master_key,
                root_auth: self.root_auth,
                caps: self.caps,
            },
        }
    }
}

/// Why no footer for a signer can be written, if none can.
pub open spec fn signer_objection(
    layout: WireLayout,
    root_auth: Option<RootAuthWriterConfig>,
    caps: ReaderCaps,
) -> Option<FormatError> {
    match root_auth {
        None => None,
        Some(config) => match footer_length_outcome(
            layout,
            config.signer_identity@.len() as int,
            config.authenticator_value_length as int,
            caps,
        ) {
            Err(e) => Some(e),
            Ok(_) => None,
        },
    }
}

/// Why an order is turned away before anything is planned.
pub open spec fn order_objection(
    layout: WireLayout,
    files_are_empty: bool,
    order: ArchiveOrder,
) -> Option<FormatError> {
    match dictionary_refusal(files_are_empty, opt_bytes(order.dictionary)) {
        Some(rule) => Some(FormatError::WriterUnsupported(rule)),
        None => signer_objection(layout, order.root_auth, order.caps),
    }
}

/// The options of an archive whose volumes are limited in size: enough volumes that the loss of
/// the tolerated number leaves one.
pub open spec fn widened(o: WriterOptions) -> WriterOptions {
    if o.target_volume_size is Some && o.stripe_width < o.volume_loss_tolerance + 1 {
        WriterOptions { stripe_width: (o.volume_loss_tolerance + 1) as u32, ..o }
    } else {
        o
    }
}

/// Whether an order was carried out as it should, under identities that may be random. An order
/// that is refused leaves the sink alone.
pub open spec fn carries_out<
    C: ArchiveCodec + MetadataProfile,
    O: ArchiveWriteSink,
    S: RegularFileSource,
    F: FnOnce(&RootAuthSigningRequest) -> Result<Vec<u8>, FormatError>,
>(
    codec: &C,
    files: Seq<S>,
    order: ArchiveOrder,
    options: WriterOptions,
    authenticator: Option<F>,
    first: O,
    sink: O,
    r: Result<WrittenArchiveSummary, ArchiveWriteError>,
) -> bool {
    match order_objection(codec.spec_layout(), files.len() == 0, order) {
        Some(e) => is_untouched(first, sink) && r == Err::<WrittenArchiveSummary, ArchiveWriteError>(
            ArchiveWriteError::Format(e),
        ),
        None => exists|archive_uuid: [u8; 16], session_id: [u8; 16]|
            {
                &&& #[trigger] may_identify(options.archive_uuid, archive_uuid)
                &&& #[trigger] may_identify(options.session_id, session_id)
                &&& writes_archive(
                    codec,
                    files,
                    order.spec_request(archive_uuid, session_id),
                    widened(options),
                    authenticator,
                    first,
                    sink,
                    r,
                )
            },
    }
}

/// Writes the archive of an order from sources that are read twice.
pub fn write_archive_stream_inner<
    C: ArchiveCodec + MetadataProfile,
    O: ArchiveWriteSink,
    S: RegularFileSource,
    P: ArchiveWriteProgressSink,
    F: FnOnce(&RootAuthSigningRequest) -> Result<Vec<u8>, FormatError>,
>(
    codec: &C,
    files: &[S],
    order: &ArchiveOrder<'_>,
    options: WriterOptions,
    authenticator: Option<F>,
    sink: &mut O,
    progress: &mut P,
) -> (r: Result<WrittenArchiveSummary, ArchiveWriteError>)
    requires
        take_requests(files@, options.chunk_size as int),
        authenticator matches Some(signer) ==> always_answers(signer),
    ensures
        standing(*old(sink)).hands_on(standing(*final(sink)), failure_of(r)),
        r is Ok ==> exists|passes: nat| #[trigger]
            reports_passes(
                codec,
                files@,
                options.target_volume_size,
                old(progress).events(),
                final(progress).events(),
                passes,
            ),
        carries_out(
            codec,
            files@,
            *order,
            options,
            authenticator,
            *old(sink),
            *final(sink),
            r,
        ),
{
    let started: std::time::Instant = now();
    lift(validate_dictionary_inputs(files.len() == 0, order.dictionary))?;
    let layout: WireLayout = codec.layout();
    if let Some(root_auth) = order.root_auth {
        lift(validate_root_auth_writer_config(&root_auth, &layout, &order.caps))?;
    }
    let mut requested: WriterOptions = options;
    if requested.target_volume_size.is_some() {
        let surviving: u32 = requested.volume_loss_tolerance as u32 + 1;
        if requested.stripe_width < surviving {
            requested.stripe_width = surviving;
        }
    }
    let archive_uuid: [u8; 16] = choose_id(requested.archive_uuid);
    let session_id: [u8; 16] = choose_id(requested.session_id);
    let request: ArchiveRequest<'_> = order.request(archive_uuid, session_id);
    let timings: WriterTimings = WriterTimings::default();
    let mut ledger: SourceProgressState = SourceProgressState::new();
    write_planned_archive(
        codec,
        files,
        &request,
        requested,
        authenticator,
        &started,
        timings,
        sink,
        progress,
        &mut ledger,
    )
}

} // verus!
