//! An archive whose signer turns it down is not written, and the signer's error is handed on.
use crate::archive::{finishes, plan_answers, plan_emission, plan_payload_emission, volume_headers};
use crate::archive_reading::members_are_captured;
use crate::codec::ArchiveCodec;
use crate::emit::{begun, Emission};
use crate::errors::{ArchiveWriteError, FormatError};
use crate::ids::may_identify;
use crate::key_wrap::{answers_alike, source_answers};
use crate::keys::Subkeys;
use crate::members::{may_run_all, MembersValue};
use crate::objects::{body_outcome, ArchiveSeal};
use crate::options::{opt_bytes, planned_options, ReaderCaps, WriterOptions};
use crate::packing::nothing_packed;
use crate::plan::{is_plan, subkeys_outcome, PlanRequest, PlanValue};
use crate::planning::{finished_payload, RecordsAnswer};
use crate::profile::MetadataProfile;
use crate::repeat::{passes_agree, plans_are_unique, steady_runs_are_unique};
use crate::root_auth::{
    footer_is_signed, leaves_in_order, DataLeaf, RootAuthInputValue, RootAuthSigningRequest,
    RootAuthWriterConfig,
};
use crate::single_pass::{
    carries_out_once, closes_plan, closes_stream, declared_outcome, once_options, sent_payload,
    stream_setting, writes_declared, DeclaredValue,
};
use crate::sink::{is_untouched, standing, ArchiveWriteSink, MemoryArchiveSink};
use crate::sorting::stable_sorts_are_unique;
use crate::source::{RegularFile, RegularFileSource, SourceRun};
use crate::streaming::{PayloadWriter, StreamValue};
use crate::suffix::{
    plan_manifest, root_auth_input, suffix_answers, suffix_outcome, FooterAnswer,
    WrittenArchiveSummary,
};
use crate::two_pass::{
    carries_out, order_objection, plans_pass, widened, wider, writes_archive, writes_from_sources,
    writes_plan, ArchiveOrder, ArchiveRequest,
};
use crate::writer::{archives, is_written_archive, WrittenArchive};
use vstd::prelude::*;

verus! {

/// Whether a signer turns every request down, so that `error` comes of it: with that error, or
/// with a signature of the wrong length.
pub open spec fn turns_down<F: FnOnce(&RootAuthSigningRequest) -> Result<Vec<u8>, FormatError>>(
    config: RootAuthWriterConfig,
    signer: F,
    error: FormatError,
) -> bool {
    forall|request: &RootAuthSigningRequest, answer: Result<Vec<u8>, FormatError>| #[trigger]
        signer.ensures((request,), answer) ==> match answer {
            Err(e) => e == error,
            Ok(signature) => signature@.len() != config.authenticator_value_length && error
                == FormatError::WriterUnsupported("root-auth authenticator length mismatch"),
        }
}

/// A footer that one signer signs ends, with a signer that turns it down, in that signer's error.
pub proof fn refused_footers_carry_the_error<
    C: ArchiveCodec,
    G: FnOnce(&RootAuthSigningRequest) -> Result<Vec<u8>, FormatError>,
    F: FnOnce(&RootAuthSigningRequest) -> Result<Vec<u8>, FormatError>,
>(
    codec: &C,
    config: RootAuthWriterConfig,
    good: G,
    signer: F,
    input: RootAuthInputValue,
    caps: ReaderCaps,
    footer: Seq<u8>,
    r: Result<Seq<u8>, FormatError>,
    error: FormatError,
)
    requires
        turns_down(config, signer, error),
        footer_is_signed(codec, config, good, input, caps, Ok(footer)),
        footer_is_signed(codec, config, signer, input, caps, r),
    ensures
        r == Err::<Seq<u8>, FormatError>(error),
{
    let leaves = input.data_leaf_hashes;
    assert forall|a: Seq<DataLeaf>, b: Seq<DataLeaf>|
        #![trigger leaves_in_order(leaves, a), leaves_in_order(leaves, b)]
        leaves_in_order(leaves, a) && leaves_in_order(leaves, b) implies a == b by {
        stable_sorts_are_unique(leaves, a, b);
    }
}

proof fn refused_emissions_carry_the_error<
    C: ArchiveCodec + MetadataProfile,
    O: ArchiveWriteSink,
    S: RegularFileSource,
    G: FnOnce(&RootAuthSigningRequest) -> Result<Vec<u8>, FormatError>,
    F: FnOnce(&RootAuthSigningRequest) -> Result<Vec<u8>, FormatError>,
>(
    codec: &C,
    files: Seq<S>,
    request: ArchiveRequest,
    plan: PlanValue,
    subkeys: Subkeys,
    good: G,
    signer: F,
    sink: O,
    other: O,
    summary: WrittenArchiveSummary,
    r: Result<WrittenArchiveSummary, ArchiveWriteError>,
    error: FormatError,
)
    requires
        forall|i: int| 0 <= i < files.len() ==> (#[trigger] files[i]).steady(),
        request.plan.root_auth matches Some(config) && turns_down(config, signer, error),
        writes_from_sources(
            codec,
            files,
            request,
            plan,
            subkeys,
            Some(good),
            true,
            sink,
            Ok(summary),
        ),
        writes_from_sources(codec, files, request, plan, subkeys, Some(signer), true, other, r),
    ensures
        r == Err::<WrittenArchiveSummary, ArchiveWriteError>(ArchiveWriteError::Format(error)),
{
    let dictionary = opt_bytes(request.dictionary);
    let caps = request.plan.caps;
    let root_auth = request.plan.root_auth;
    let config = root_auth->0;
    let (runs, answer) = choose|runs: Seq<SourceRun>, answer: FooterAnswer|
        #![trigger may_run_all(files, runs), plan_answers::<C, O, G>(codec, plan, subkeys, dictionary, runs, root_auth, Some(good), caps, answer)]
        may_run_all(files, runs) && plan_answers::<C, O, G>(
            codec,
            plan,
            subkeys,
            dictionary,
            runs,
            root_auth,
            Some(good),
            caps,
            answer,
        ) && finishes(
            true,
            sink,
            plan_emission::<C, O>(codec, plan, subkeys, true, dictionary, runs, caps, answer),
            plan.options.stripe_width,
            plan.archive_uuid,
            plan.session_id,
            Ok(summary),
        );
    let (other_runs, other_answer) = choose|runs: Seq<SourceRun>, answer: FooterAnswer|
        #![trigger may_run_all(files, runs), plan_answers::<C, O, F>(codec, plan, subkeys, dictionary, runs, root_auth, Some(signer), caps, answer)]
        may_run_all(files, runs) && plan_answers::<C, O, F>(
            codec,
            plan,
            subkeys,
            dictionary,
            runs,
            root_auth,
            Some(signer),
            caps,
            answer,
        ) && finishes(
            true,
            other,
            plan_emission::<C, O>(codec, plan, subkeys, true, dictionary, runs, caps, answer),
            plan.options.stripe_width,
            plan.archive_uuid,
            plan.session_id,
            r,
        );
    steady_runs_are_unique(files, runs, other_runs);
    let seal = ArchiveSeal {
        subkeys,
        archive_uuid: plan.archive_uuid,
        session_id: plan.session_id,
    };
    let e = plan_payload_emission::<C, O>(codec, plan, subkeys, true, dictionary, runs)->Ok_0;
    let body = body_outcome(codec, e, plan, seal, plan.volume_format_rev)->Ok_0;
    let manifest = plan_manifest(codec, plan, subkeys, 0)->Ok_0;
    let input = root_auth_input(plan, manifest, body.emission.leaves->0);
    let footer = answer->Ok_0->0;
    assert(footer_is_signed(codec, config, good, input, caps, Ok(footer)));
    let refused: Result<Seq<u8>, FormatError> = match other_answer {
        Ok(f) => Ok(f->0),
        Err(f) => Err(f),
    };
    refused_footers_carry_the_error(
        codec,
        config,
        good,
        signer,
        input,
        caps,
        footer,
        refused,
        error,
    );
}

proof fn refused_requests_carry_the_error<
    C: ArchiveCodec + MetadataProfile,
    O: ArchiveWriteSink,
    S: RegularFileSource,
    G: FnOnce(&RootAuthSigningRequest) -> Result<Vec<u8>, FormatError>,
    F: FnOnce(&RootAuthSigningRequest) -> Result<Vec<u8>, FormatError>,
>(
    codec: &C,
    files: Seq<S>,
    request: ArchiveRequest,
    requested: WriterOptions,
    good: G,
    signer: F,
    first: O,
    other_first: O,
    sink: O,
    other: O,
    summary: WrittenArchiveSummary,
    r: Result<WrittenArchiveSummary, ArchiveWriteError>,
    error: FormatError,
)
    requires
        files.len() <= usize::MAX,
        forall|i: int| 0 <= i < files.len() ==> (#[trigger] files[i]).steady(),
        answers_alike(request.key_wrap_records),
        request.plan.root_auth matches Some(config) && turns_down(config, signer, error),
        standing(first).undisturbed(standing(sink)),
        standing(other_first).undisturbed(standing(other)),
        writes_archive(
            codec,
            files,
            request,
            requested,
            Some(good),
            first,
            sink,
            Ok(summary),
        ),
        writes_archive(codec, files, request, requested, Some(signer), other_first, other, r),
    ensures
        r == Err::<WrittenArchiveSummary, ArchiveWriteError>(ArchiveWriteError::Format(error)),
    decreases u32::MAX - requested.stripe_width,
{
    let o = planned_options(requested, request.plan.caps)->Ok_0;
    let planned = choose|planned: Result<PlanValue, ArchiveWriteError>|
        {
            &&& #[trigger] plans_pass(codec, files, request, o, planned)
            &&& match planned {
                Err(_) => false,
                Ok(plan) => match wider(codec, request, o, plan) {
                    Err(_) => false,
                    Ok(Some(width)) => requested.stripe_width < width && writes_archive(
                        codec,
                        files,
                        request,
                        WriterOptions { stripe_width: width, ..requested },
                        Some(good),
                        first,
                        sink,
                        Ok(summary),
                    ),
                    Ok(None) => writes_plan(
                        codec,
                        files,
                        request,
                        plan,
                        Some(good),
                        first,
                        sink,
                        Ok(summary),
                    ),
                },
            }
        };
    let other_planned = choose|planned: Result<PlanValue, ArchiveWriteError>|
        {
            &&& #[trigger] plans_pass(codec, files, request, o, planned)
            &&& match planned {
                Err(e) => is_untouched(other_first, other) && r == Err::<
                    WrittenArchiveSummary,
                    ArchiveWriteError,
                >(e),
                Ok(plan) => match wider(codec, request, o, plan) {
                    Err(e) => is_untouched(other_first, other) && r == Err::<
                        WrittenArchiveSummary,
                        ArchiveWriteError,
                    >(ArchiveWriteError::Format(e)),
                    Ok(Some(width)) => requested.stripe_width < width && writes_archive(
                        codec,
                        files,
                        request,
                        WriterOptions { stripe_width: width, ..requested },
                        Some(signer),
                        other_first,
                        other,
                        r,
                    ),
                    Ok(None) => writes_plan(
                        codec,
                        files,
                        request,
                        plan,
                        Some(signer),
                        other_first,
                        other,
                        r,
                    ),
                },
            }
        };
    passes_agree(codec, files, request, o, planned, other_planned);
    let plan = planned->Ok_0;
    match wider(codec, request, o, plan)->Ok_0 {
        Some(width) => {
            refused_requests_carry_the_error(
                codec,
                files,
                request,
                WriterOptions { stripe_width: width, ..requested },
                good,
                signer,
                first,
                other_first,
                sink,
                other,
                summary,
                r,
                error,
            );
        },
        None => {
            reveal(writes_plan);
            let subkeys = subkeys_outcome(
                codec,
                request.plan.master_key,
                plan.options.aead_algo,
                plan.archive_uuid,
                plan.session_id,
            )->Ok_0;
            refused_emissions_carry_the_error(
                codec,
                files,
                request,
                plan,
                subkeys,
                good,
                signer,
                sink,
                other,
                summary,
                r,
                error,
            );
        },
    }
}

/// Whether an order was carried out under given identities as it should.
pub open spec fn carries_out_as<
    C: ArchiveCodec + MetadataProfile,
    O: ArchiveWriteSink,
    S: RegularFileSource,
    F: FnOnce(&RootAuthSigningRequest) -> Result<Vec<u8>, FormatError>,
>(
    codec: &C,
    files: Seq<S>,
    order: ArchiveOrder,
    options: WriterOptions,
    archive_uuid: [u8; 16],
    session_id: [u8; 16],
    authenticator: Option<F>,
    first: O,
    sink: O,
    r: Result<WrittenArchiveSummary, ArchiveWriteError>,
) -> bool {
    &&& may_identify(options.archive_uuid, archive_uuid)
    &&& may_identify(options.session_id, session_id)
    &&& writes_archive(
        codec,
        files,
        order.spec_request(archive_uuid, session_id),
        widened(options),
        authenticator,
        first,
        sink,
        r,
    )
}

/// An order that nothing speaks against is carried out under some identities: those it names, or
/// fresh ones.
pub proof fn archives_have_identities<
    C: ArchiveCodec + MetadataProfile,
    O: ArchiveWriteSink,
    S: RegularFileSource,
    F: FnOnce(&RootAuthSigningRequest) -> Result<Vec<u8>, FormatError>,
>(
    codec: &C,
    files: Seq<S>,
    order: ArchiveOrder,
    options: WriterOptions,
    authenticator: Option<F>,
    first: O,
    sink: O,
    r: Result<WrittenArchiveSummary, ArchiveWriteError>,
)
    requires
        order_objection(codec.spec_layout(), files.len() == 0, order) is None,
        carries_out(codec, files, order, options, authenticator, first, sink, r),
    ensures
        exists|archive_uuid: [u8; 16], session_id: [u8; 16]| #[trigger]
            carries_out_as(
                codec,
                files,
                order,
                options,
                archive_uuid,
                session_id,
                authenticator,
                first,
                sink,
                r,
            ),
{
    let (archive_uuid, session_id) = choose|archive_uuid: [u8; 16], session_id: [u8; 16]|
        {
            &&& #[trigger] may_identify(options.archive_uuid, archive_uuid)
            &&& #[trigger] may_identify(options.session_id, session_id)
            &&& writes_archive(
                codec,
                files,
                order.spec_request(archive_uuid, session_id),
                widened(options),
                authenticator,
                first,
                sink,
                r,
            )
        };
    assert(carries_out_as(
        codec,
        files,
        order,
        options,
        archive_uuid,
        session_id,
        authenticator,
        first,
        sink,
        r,
    ));
}

/// An order that is carried out with one signer, from sources and for recipients that stay as they
/// are, fails with a signer that turns it down under the same identities, and with that signer's
/// error.
pub proof fn refused_archives_carry_the_error<
    C: ArchiveCodec + MetadataProfile,
    O: ArchiveWriteSink,
    S: RegularFileSource,
    G: FnOnce(&RootAuthSigningRequest) -> Result<Vec<u8>, FormatError>,
    F: FnOnce(&RootAuthSigningRequest) -> Result<Vec<u8>, FormatError>,
>(
    codec: &C,
    files: Seq<S>,
    order: ArchiveOrder,
    options: WriterOptions,
    archive_uuid: [u8; 16],
    session_id: [u8; 16],
    good: G,
    signer: F,
    first: O,
    other_first: O,
    sink: O,
    other: O,
    summary: WrittenArchiveSummary,
    r: Result<WrittenArchiveSummary, ArchiveWriteError>,
    error: FormatError,
)
    requires
        files.len() <= usize::MAX,
        forall|i: int| 0 <= i < files.len() ==> (#[trigger] files[i]).steady(),
        answers_alike(order.key_wrap_records),
        order.root_auth matches Some(config) && turns_down(config, signer, error),
        standing(first).undisturbed(standing(sink)),
        standing(other_first).undisturbed(standing(other)),
        carries_out_as(
            codec,
            files,
            order,
            options,
            archive_uuid,
            session_id,
            Some(good),
            first,
            sink,
            Ok(summary),
        ),
        carries_out_as(
            codec,
            files,
            order,
            options,
            archive_uuid,
            session_id,
            Some(signer),
            other_first,
            other,
            r,
        ),
    ensures
        r == Err::<WrittenArchiveSummary, ArchiveWriteError>(ArchiveWriteError::Format(error)),
{
    refused_requests_carry_the_error(
        codec,
        files,
        order.spec_request(archive_uuid, session_id),
        widened(options),
        good,
        signer,
        first,
        other_first,
        sink,
        other,
        summary,
        r,
        error,
    );
}

// ---------------------------------------------------------------------------------------------
// Whatever the sources, the recipients and the identities
// ---------------------------------------------------------------------------------------------

proof fn refused_plans_fail<
    C: ArchiveCodec + MetadataProfile,
    O: ArchiveWriteSink,
    S: RegularFileSource,
    F: FnOnce(&RootAuthSigningRequest) -> Result<Vec<u8>, FormatError>,
>(
    codec: &C,
    files: Seq<S>,
    request: ArchiveRequest,
    plan: PlanValue,
    signer: F,
    first: O,
    sink: O,
    r: Result<WrittenArchiveSummary, ArchiveWriteError>,
    error: FormatError,
)
    requires
        request.plan.root_auth matches Some(config) && turns_down(config, signer, error),
        writes_plan(codec, files, request, plan, Some(signer), first, sink, r),
    ensures
        r is Err,
{
    reveal(writes_plan);
    if r is Ok {
        let subkeys = subkeys_outcome(
            codec,
            request.plan.master_key,
            plan.options.aead_algo,
            plan.archive_uuid,
            plan.session_id,
        )->Ok_0;
        let dictionary = opt_bytes(request.dictionary);
        let caps = request.plan.caps;
        let root_auth = request.plan.root_auth;
        let calm = standing(first).undisturbed(standing(sink));
        let (runs, answer) = choose|runs: Seq<SourceRun>, answer: FooterAnswer|
            #![trigger may_run_all(files, runs), plan_answers::<C, O, F>(codec, plan, subkeys, dictionary, runs, root_auth, Some(signer), caps, answer)]
            may_run_all(files, runs) && plan_answers::<C, O, F>(
                codec,
                plan,
                subkeys,
                dictionary,
                runs,
                root_auth,
                Some(signer),
                caps,
                answer,
            ) && finishes(
                calm,
                sink,
                plan_emission::<C, O>(codec, plan, subkeys, true, dictionary, runs, caps, answer),
                plan.options.stripe_width,
                plan.archive_uuid,
                plan.session_id,
                r,
            );
        let seal = ArchiveSeal {
            subkeys,
            archive_uuid: plan.archive_uuid,
            session_id: plan.session_id,
        };
        let e = plan_payload_emission::<C, O>(codec, plan, subkeys, true, dictionary, runs)->Ok_0;
        let body = body_outcome(codec, e, plan, seal, plan.volume_format_rev)->Ok_0;
        let manifest = plan_manifest(codec, plan, subkeys, 0)->Ok_0;
        let input = root_auth_input(plan, manifest, body.emission.leaves->0);
        assert(footer_is_signed(codec, root_auth->0, signer, input, caps, Ok(answer->Ok_0->0)));
    }
}

proof fn refused_requests_fail<
    C: ArchiveCodec + MetadataProfile,
    O: ArchiveWriteSink,
    S: RegularFileSource,
    F: FnOnce(&RootAuthSigningRequest) -> Result<Vec<u8>, FormatError>,
>(
    codec: &C,
    files: Seq<S>,
    request: ArchiveRequest,
    requested: WriterOptions,
    signer: F,
    first: O,
    sink: O,
    r: Result<WrittenArchiveSummary, ArchiveWriteError>,
    error: FormatError,
)
    requires
        request.plan.root_auth matches Some(config) && turns_down(config, signer, error),
        writes_archive(codec, files, request, requested, Some(signer), first, sink, r),
    ensures
        r is Err,
    decreases u32::MAX - requested.stripe_width,
{
    if r is Ok {
        let o = planned_options(requested, request.plan.caps)->Ok_0;
        let planned = choose|planned: Result<PlanValue, ArchiveWriteError>|
            {
                &&& #[trigger] plans_pass(codec, files, request, o, planned)
                &&& match planned {
                    Err(_) => false,
                    Ok(plan) => match wider(codec, request, o, plan) {
                        Err(_) => false,
                        Ok(Some(width)) => requested.stripe_width < width && writes_archive(
                            codec,
                            files,
                            request,
                            WriterOptions { stripe_width: width, ..requested },
                            Some(signer),
                            first,
                            sink,
                            r,
                        ),
                        Ok(None) => writes_plan(
                            codec,
                            files,
                            request,
                            plan,
                            Some(signer),
                            first,
                            sink,
                            r,
                        ),
                    },
                }
            };
        let plan = planned->Ok_0;
        match wider(codec, request, o, plan)->Ok_0 {
            Some(width) => {
                refused_requests_fail(
                    codec,
                    files,
                    request,
                    WriterOptions { stripe_width: width, ..requested },
                    signer,
                    first,
                    sink,
                    r,
                    error,
                );
            },
            None => {
                refused_plans_fail(codec, files, request, plan, signer, first, sink, r, error);
            },
        }
    }
}

/// No archive comes of an order that its signer turns down, whatever its sources, its recipients
/// and its identities.
pub proof fn refused_archives_fail<
    C: ArchiveCodec + MetadataProfile,
    O: ArchiveWriteSink,
    S: RegularFileSource,
    F: FnOnce(&RootAuthSigningRequest) -> Result<Vec<u8>, FormatError>,
>(
    codec: &C,
    files: Seq<S>,
    order: ArchiveOrder,
    options: WriterOptions,
    signer: F,
    first: O,
    sink: O,
    r: Result<WrittenArchiveSummary, ArchiveWriteError>,
    error: FormatError,
)
    requires
        order.root_auth matches Some(config) && turns_down(config, signer, error),
        carries_out(codec, files, order, options, Some(signer), first, sink, r),
    ensures
        r is Err,
{
    if order_objection(codec.spec_layout(), files.len() == 0, order) is None {
        archives_have_identities(codec, files, order, options, Some(signer), first, sink, r);
        let (archive_uuid, session_id) = choose|archive_uuid: [u8; 16], session_id: [u8; 16]|
            #[trigger]
            carries_out_as(
                codec,
                files,
                order,
                options,
                archive_uuid,
                session_id,
                Some(signer),
                first,
                sink,
                r,
            );
        refused_requests_fail(
            codec,
            files,
            order.spec_request(archive_uuid, session_id),
            widened(options),
            signer,
            first,
            sink,
            r,
            error,
        );
    }
}

// ---------------------------------------------------------------------------------------------
// Archives that are written in one pass
// ---------------------------------------------------------------------------------------------

/// Whether an order was carried out in one pass under given identities, and for the recipients that
/// were answered, as it should.
pub open spec fn carries_out_once_as<
    C: ArchiveCodec + MetadataProfile,
    O: ArchiveWriteSink,
    S: RegularFileSource,
    T: PayloadWriter<C, O>,
    F: FnOnce(&RootAuthSigningRequest) -> Result<Vec<u8>, FormatError>,
>(
    codec: &C,
    files: Seq<S>,
    order: ArchiveOrder,
    options: WriterOptions,
    rule: &'static str,
    archive_uuid: [u8; 16],
    session_id: [u8; 16],
    answer: RecordsAnswer,
    authenticator: Option<F>,
    first: O,
    sink: O,
    r: Result<WrittenArchiveSummary, ArchiveWriteError>,
) -> bool {
    once_options(codec.spec_layout(), order, options) matches Ok(o) && {
        &&& may_identify(o.archive_uuid, archive_uuid)
        &&& may_identify(o.session_id, session_id)
        &&& source_answers(order.key_wrap_records, answer)
        &&& match declared_outcome(codec, order, o, archive_uuid, session_id, answer) {
            Err(e) => is_untouched(first, sink) && r == Err::<
                WrittenArchiveSummary,
                ArchiveWriteError,
            >(ArchiveWriteError::Format(e)),
            Ok(declared) => standing(first).undisturbed(standing(sink)) || r is Ok
                ==> writes_declared::<C, O, S, T, F>(
                codec,
                files,
                declared,
                o,
                order.spec_request(archive_uuid, session_id).plan,
                rule,
                authenticator,
                standing(first).undisturbed(standing(sink)),
                sink,
                r,
            ),
        }
    }
}

/// An order whose options are taken is carried out in one pass under some identities and for some
/// recipients.
pub proof fn streams_have_identities<
    C: ArchiveCodec + MetadataProfile,
    O: ArchiveWriteSink,
    S: RegularFileSource,
    T: PayloadWriter<C, O>,
    F: FnOnce(&RootAuthSigningRequest) -> Result<Vec<u8>, FormatError>,
>(
    codec: &C,
    files: Seq<S>,
    order: ArchiveOrder,
    options: WriterOptions,
    rule: &'static str,
    authenticator: Option<F>,
    first: O,
    sink: O,
    r: Result<WrittenArchiveSummary, ArchiveWriteError>,
)
    requires
        once_options(codec.spec_layout(), order, options) is Ok,
        carries_out_once::<C, O, S, T, F>(
            codec,
            files,
            order,
            options,
            rule,
            authenticator,
            first,
            sink,
            r,
        ),
    ensures
        exists|archive_uuid: [u8; 16], session_id: [u8; 16], answer: RecordsAnswer| #[trigger]
            carries_out_once_as::<C, O, S, T, F>(
                codec,
                files,
                order,
                options,
                rule,
                archive_uuid,
                session_id,
                answer,
                authenticator,
                first,
                sink,
                r,
            ),
{
    reveal(carries_out_once);
    let o = once_options(codec.spec_layout(), order, options)->Ok_0;
    let (archive_uuid, session_id, answer) = choose|
        archive_uuid: [u8; 16],
        session_id: [u8; 16],
        answer: RecordsAnswer,
    |
        {
            &&& #[trigger] may_identify(o.archive_uuid, archive_uuid)
            &&& #[trigger] may_identify(o.session_id, session_id)
            &&& #[trigger] source_answers(order.key_wrap_records, answer)
            &&& match declared_outcome(codec, order, o, archive_uuid, session_id, answer) {
                Err(e) => is_untouched(first, sink) && r == Err::<
                    WrittenArchiveSummary,
                    ArchiveWriteError,
                >(ArchiveWriteError::Format(e)),
                Ok(declared) => standing(first).undisturbed(standing(sink)) || r is Ok
                    ==> writes_declared::<C, O, S, T, F>(
                    codec,
                    files,
                    declared,
                    o,
                    order.spec_request(archive_uuid, session_id).plan,
                    rule,
                    authenticator,
                    standing(first).undisturbed(standing(sink)),
                    sink,
                    r,
                ),
            }
        };
    assert(carries_out_once_as::<C, O, S, T, F>(
        codec,
        files,
        order,
        options,
        rule,
        archive_uuid,
        session_id,
        answer,
        authenticator,
        first,
        sink,
        r,
    ));
}

proof fn refused_closings_fail<
    C: ArchiveCodec,
    O: ArchiveWriteSink,
    F: FnOnce(&RootAuthSigningRequest) -> Result<Vec<u8>, FormatError>,
>(
    codec: &C,
    e: Emission,
    plan: PlanValue,
    declared: DeclaredValue,
    request: PlanRequest,
    signer: F,
    calm: bool,
    sink: O,
    r: Result<WrittenArchiveSummary, ArchiveWriteError>,
    error: FormatError,
)
    requires
        request.root_auth matches Some(config) && turns_down(config, signer, error),
        closes_plan(codec, e, plan, declared, request, Some(signer), calm, sink, r),
    ensures
        r is Err,
{
    if r is Ok {
        let answer = choose|answer: FooterAnswer|
            {
                &&& #[trigger] suffix_answers(
                    codec,
                    e,
                    plan,
                    declared.subkeys,
                    request.volume_format_rev,
                    request.root_auth,
                    Some(signer),
                    request.caps,
                    answer,
                )
                &&& finishes(
                    calm,
                    sink,
                    match suffix_outcome(
                        codec,
                        e,
                        plan,
                        declared.subkeys,
                        volume_headers(
                            codec,
                            plan.options.stripe_width,
                            declared.header.bytes,
                            request.archive_uuid,
                            request.session_id,
                            request.volume_format_rev,
                        ),
                        request.volume_format_rev,
                        request.caps,
                        answer,
                    ) {
                        Ok(closed) => Ok(closed),
                        Err(f) => Err(ArchiveWriteError::Format(f)),
                    },
                    plan.options.stripe_width,
                    request.archive_uuid,
                    request.session_id,
                    r,
                )
            };
        let seal = ArchiveSeal {
            subkeys: declared.subkeys,
            archive_uuid: plan.archive_uuid,
            session_id: plan.session_id,
        };
        let body = body_outcome(codec, e, plan, seal, request.volume_format_rev)->Ok_0;
        let manifest = plan_manifest(codec, plan, declared.subkeys, 0)->Ok_0;
        let input = root_auth_input(plan, manifest, body.emission.leaves->0);
        assert(footer_is_signed(
            codec,
            request.root_auth->0,
            signer,
            input,
            request.caps,
            Ok(answer->Ok_0->0),
        ));
    }
}

/// No archive comes of an order that is to be carried out in one pass and that its signer turns
/// down, whatever its sources, its recipients and its identities.
pub proof fn refused_streams_fail<
    C: ArchiveCodec + MetadataProfile,
    O: ArchiveWriteSink,
    S: RegularFileSource,
    T: PayloadWriter<C, O>,
    F: FnOnce(&RootAuthSigningRequest) -> Result<Vec<u8>, FormatError>,
>(
    codec: &C,
    files: Seq<S>,
    order: ArchiveOrder,
    options: WriterOptions,
    rule: &'static str,
    signer: F,
    first: O,
    sink: O,
    r: Result<WrittenArchiveSummary, ArchiveWriteError>,
    error: FormatError,
)
    requires
        order.root_auth matches Some(config) && turns_down(config, signer, error),
        carries_out_once::<C, O, S, T, F>(
            codec,
            files,
            order,
            options,
            rule,
            Some(signer),
            first,
            sink,
            r,
        ),
    ensures
        r is Err,
{
    if once_options(codec.spec_layout(), order, options) is Err {
        reveal(carries_out_once);
    } else if r is Ok {
        let o = once_options(codec.spec_layout(), order, options)->Ok_0;
        streams_have_identities::<C, O, S, T, F>(
            codec,
            files,
            order,
            options,
            rule,
            Some(signer),
            first,
            sink,
            r,
        );
        let (archive_uuid, session_id, answer) = choose|
            archive_uuid: [u8; 16],
            session_id: [u8; 16],
            answer: RecordsAnswer,
        |
            #[trigger]
            carries_out_once_as::<C, O, S, T, F>(
                codec,
                files,
                order,
                options,
                rule,
                archive_uuid,
                session_id,
                answer,
                Some(signer),
                first,
                sink,
                r,
            );
        let declared = declared_outcome(
            codec,
            order,
            o,
            archive_uuid,
            session_id,
            answer,
        )->Ok_0;
        let request = order.spec_request(archive_uuid, session_id).plan;
        let calm = standing(first).undisturbed(standing(sink));
        refused_declarations_fail::<C, O, S, T, F>(
            codec,
            files,
            declared,
            o,
            request,
            rule,
            signer,
            calm,
            sink,
            r,
            error,
        );
    }
}

proof fn refused_declarations_fail<
    C: ArchiveCodec + MetadataProfile,
    O: ArchiveWriteSink,
    S: RegularFileSource,
    T: PayloadWriter<C, O>,
    F: FnOnce(&RootAuthSigningRequest) -> Result<Vec<u8>, FormatError>,
>(
    codec: &C,
    files: Seq<S>,
    declared: DeclaredValue,
    o: WriterOptions,
    request: PlanRequest,
    rule: &'static str,
    signer: F,
    calm: bool,
    sink: O,
    r: Result<WrittenArchiveSummary, ArchiveWriteError>,
    error: FormatError,
)
    requires
        request.root_auth matches Some(config) && turns_down(config, signer, error),
        writes_declared::<C, O, S, T, F>(
            codec,
            files,
            declared,
            o,
            request,
            rule,
            Some(signer),
            calm,
            sink,
            r,
        ),
    ensures
        r is Err,
{
    reveal(writes_declared);
    if r is Ok {
        let runs = choose|runs: Seq<SourceRun>|
            {
                &&& #[trigger] may_run_all(files, runs)
                &&& match sent_payload::<C, O, T>(codec, declared, o, request, runs) {
                    Err(e) => r == Err::<WrittenArchiveSummary, ArchiveWriteError>(e),
                    Ok(sent) => closes_stream(
                        codec,
                        finished_payload(sent.members, sent.value.pack).payload,
                        T::completed(sent.value),
                        declared,
                        o,
                        request,
                        rule,
                        Some(signer),
                        calm,
                        sink,
                        r,
                    ),
                }
            };
        let sent = sent_payload::<C, O, T>(codec, declared, o, request, runs)->Ok_0;
        let payload = finished_payload(sent.members, sent.value.pack).payload;
        let e = T::completed(sent.value);
        let planned = choose|planned: Result<PlanValue, FormatError>|
            {
                &&& #[trigger] is_plan(
                    codec,
                    payload,
                    e.next_block_index,
                    o,
                    None,
                    declared.kdf,
                    declared.table,
                    request,
                    planned,
                )
                &&& match planned {
                    Err(_) => false,
                    Ok(plan) => closes_plan(
                        codec,
                        e,
                        plan,
                        declared,
                        request,
                        Some(signer),
                        calm,
                        sink,
                        r,
                    ),
                }
            };
        refused_closings_fail(
            codec,
            e,
            planned->Ok_0,
            declared,
            request,
            signer,
            calm,
            sink,
            r,
            error,
        );
    }
}

proof fn refused_closings_carry_the_error<
    C: ArchiveCodec,
    O: ArchiveWriteSink,
    G: FnOnce(&RootAuthSigningRequest) -> Result<Vec<u8>, FormatError>,
    F: FnOnce(&RootAuthSigningRequest) -> Result<Vec<u8>, FormatError>,
>(
    codec: &C,
    e: Emission,
    plan: PlanValue,
    declared: DeclaredValue,
    request: PlanRequest,
    good: G,
    signer: F,
    calm: bool,
    sink: O,
    other: O,
    summary: WrittenArchiveSummary,
    r: Result<WrittenArchiveSummary, ArchiveWriteError>,
    error: FormatError,
)
    requires
        request.root_auth matches Some(config) && turns_down(config, signer, error),
        closes_plan(codec, e, plan, declared, request, Some(good), calm, sink, Ok(summary)),
        closes_plan(codec, e, plan, declared, request, Some(signer), true, other, r),
    ensures
        r == Err::<WrittenArchiveSummary, ArchiveWriteError>(ArchiveWriteError::Format(error)),
{
    let config = request.root_auth->0;
    let caps = request.caps;
    let headers = volume_headers(
        codec,
        plan.options.stripe_width,
        declared.header.bytes,
        request.archive_uuid,
        request.session_id,
        request.volume_format_rev,
    );
    let answer = choose|answer: FooterAnswer|
        {
            &&& #[trigger] suffix_answers(
                codec,
                e,
                plan,
                declared.subkeys,
                request.volume_format_rev,
                request.root_auth,
                Some(good),
                caps,
                answer,
            )
            &&& finishes(
                calm,
                sink,
                match suffix_outcome(
                    codec,
                    e,
                    plan,
                    declared.subkeys,
                    headers,
                    request.volume_format_rev,
                    caps,
                    answer,
                ) {
                    Ok(closed) => Ok(closed),
                    Err(f) => Err(ArchiveWriteError::Format(f)),
                },
                plan.options.stripe_width,
                request.archive_uuid,
                request.session_id,
                Ok(summary),
            )
        };
    let other_answer = choose|answer: FooterAnswer|
        {
            &&& #[trigger] suffix_answers(
                codec,
                e,
                plan,
                declared.subkeys,
                request.volume_format_rev,
                request.root_auth,
                Some(signer),
                caps,
                answer,
            )
            &&& finishes(
                true,
                other,
                match suffix_outcome(
                    codec,
                    e,
                    plan,
                    declared.subkeys,
                    headers,
                    request.volume_format_rev,
                    caps,
                    answer,
                ) {
                    Ok(closed) => Ok(closed),
                    Err(f) => Err(ArchiveWriteError::Format(f)),
                },
                plan.options.stripe_width,
                request.archive_uuid,
                request.session_id,
                r,
            )
        };
    let seal = ArchiveSeal {
        subkeys: declared.subkeys,
        archive_uuid: plan.archive_uuid,
        session_id: plan.session_id,
    };
    let body = body_outcome(codec, e, plan, seal, request.volume_format_rev)->Ok_0;
    let manifest = plan_manifest(codec, plan, declared.subkeys, 0)->Ok_0;
    let input = root_auth_input(plan, manifest, body.emission.leaves->0);
    let footer = answer->Ok_0->0;
    assert(footer_is_signed(codec, config, good, input, caps, Ok(footer)));
    let refused: Result<Seq<u8>, FormatError> = match other_answer {
        Ok(f) => Ok(f->0),
        Err(f) => Err(f),
    };
    refused_footers_carry_the_error(
        codec,
        config,
        good,
        signer,
        input,
        caps,
        footer,
        refused,
        error,
    );
}

proof fn refused_declarations_carry_the_error<
    C: ArchiveCodec + MetadataProfile,
    O: ArchiveWriteSink,
    S: RegularFileSource,
    T: PayloadWriter<C, O>,
    G: FnOnce(&RootAuthSigningRequest) -> Result<Vec<u8>, FormatError>,
    F: FnOnce(&RootAuthSigningRequest) -> Result<Vec<u8>, FormatError>,
>(
    codec: &C,
    files: Seq<S>,
    declared: DeclaredValue,
    o: WriterOptions,
    request: PlanRequest,
    rule: &'static str,
    good: G,
    signer: F,
    calm: bool,
    sink: O,
    other: O,
    summary: WrittenArchiveSummary,
    r: Result<WrittenArchiveSummary, ArchiveWriteError>,
    error: FormatError,
)
    requires
        files.len() <= usize::MAX,
        forall|i: int| 0 <= i < files.len() ==> (#[trigger] files[i]).steady(),
        request.root_auth matches Some(config) && turns_down(config, signer, error),
        writes_declared::<C, O, S, T, G>(
            codec,
            files,
            declared,
            o,
            request,
            rule,
            Some(good),
            calm,
            sink,
            Ok(summary),
        ),
        writes_declared::<C, O, S, T, F>(
            codec,
            files,
            declared,
            o,
            request,
            rule,
            Some(signer),
            true,
            other,
            r,
        ),
    ensures
        r == Err::<WrittenArchiveSummary, ArchiveWriteError>(ArchiveWriteError::Format(error)),
{
    reveal(writes_declared);
    let ok = Ok::<WrittenArchiveSummary, ArchiveWriteError>(summary);
    let runs = choose|runs: Seq<SourceRun>|
        {
            &&& #[trigger] may_run_all(files, runs)
            &&& match sent_payload::<C, O, T>(codec, declared, o, request, runs) {
                Err(e) => ok == Err::<WrittenArchiveSummary, ArchiveWriteError>(e),
                Ok(sent) => closes_stream(
                    codec,
                    finished_payload(sent.members, sent.value.pack).payload,
                    T::completed(sent.value),
                    declared,
                    o,
                    request,
                    rule,
                    Some(good),
                    calm,
                    sink,
                    ok,
                ),
            }
        };
    let other_runs = choose|runs: Seq<SourceRun>|
        {
            &&& #[trigger] may_run_all(files, runs)
            &&& match sent_payload::<C, O, T>(codec, declared, o, request, runs) {
                Err(e) => r == Err::<WrittenArchiveSummary, ArchiveWriteError>(e),
                Ok(sent) => closes_stream(
                    codec,
                    finished_payload(sent.members, sent.value.pack).payload,
                    T::completed(sent.value),
                    declared,
                    o,
                    request,
                    rule,
                    Some(signer),
                    true,
                    other,
                    r,
                ),
            }
        };
    steady_runs_are_unique(files, runs, other_runs);
    let sent = sent_payload::<C, O, T>(codec, declared, o, request, runs)->Ok_0;
    let payload = finished_payload(sent.members, sent.value.pack).payload;
    let e = T::completed(sent.value);
    let start = begun(
        codec,
        o.stripe_width,
        declared.header.bytes,
        declared.table,
        request.archive_uuid,
        request.session_id,
        request.volume_format_rev,
        request.root_auth is Some,
    )->Ok_0;
    members_are_captured::<C, O, T>(
        codec,
        stream_setting(codec, declared, o, request),
        o,
        None,
        MembersValue {
            members: Seq::empty(),
            state: StreamValue { pack: nothing_packed(0), emission: start },
        },
        runs,
        runs.len(),
    );
    let planned = choose|planned: Result<PlanValue, FormatError>|
        {
            &&& #[trigger] is_plan(
                codec,
                payload,
                e.next_block_index,
                o,
                None,
                declared.kdf,
                declared.table,
                request,
                planned,
            )
            &&& match planned {
                Err(f) => false,
                Ok(plan) => if plan.options != o || plan.crypto_header.bytes
                    != declared.header.bytes {
                    ok == Err::<WrittenArchiveSummary, ArchiveWriteError>(
                        ArchiveWriteError::Format(FormatError::WriterUnsupported(rule)),
                    )
                } else {
                    closes_plan(
                        codec,
                        e,
                        plan,
                        declared,
                        request,
                        Some(good),
                        calm,
                        sink,
                        ok,
                    )
                },
            }
        };
    let other_planned = choose|planned: Result<PlanValue, FormatError>|
        {
            &&& #[trigger] is_plan(
                codec,
                payload,
                e.next_block_index,
                o,
                None,
                declared.kdf,
                declared.table,
                request,
                planned,
            )
            &&& match planned {
                Err(f) => r == Err::<WrittenArchiveSummary, ArchiveWriteError>(
                    ArchiveWriteError::Format(f),
                ),
                Ok(plan) => if plan.options != o || plan.crypto_header.bytes
                    != declared.header.bytes {
                    r == Err::<WrittenArchiveSummary, ArchiveWriteError>(
                        ArchiveWriteError::Format(FormatError::WriterUnsupported(rule)),
                    )
                } else {
                    closes_plan(
                        codec,
                        e,
                        plan,
                        declared,
                        request,
                        Some(signer),
                        true,
                        other,
                        r,
                    )
                },
            }
        };
    plans_are_unique(
        codec,
        payload,
        e.next_block_index,
        o,
        None,
        declared.kdf,
        declared.table,
        request,
        planned,
        other_planned,
    );
    refused_closings_carry_the_error(
        codec,
        e,
        planned->Ok_0,
        declared,
        request,
        good,
        signer,
        calm,
        sink,
        other,
        summary,
        r,
        error,
    );
}

/// An order that is carried out in one pass with one signer, from sources that stay as they are,
/// fails with a signer that turns it down under the same identities and for the same recipients, and
/// with that signer's error.
pub proof fn refused_streams_carry_the_error<
    C: ArchiveCodec + MetadataProfile,
    O: ArchiveWriteSink,
    S: RegularFileSource,
    T: PayloadWriter<C, O>,
    G: FnOnce(&RootAuthSigningRequest) -> Result<Vec<u8>, FormatError>,
    F: FnOnce(&RootAuthSigningRequest) -> Result<Vec<u8>, FormatError>,
>(
    codec: &C,
    files: Seq<S>,
    order: ArchiveOrder,
    options: WriterOptions,
    rule: &'static str,
    archive_uuid: [u8; 16],
    session_id: [u8; 16],
    answer: RecordsAnswer,
    good: G,
    signer: F,
    first: O,
    other_first: O,
    sink: O,
    other: O,
    summary: WrittenArchiveSummary,
    r: Result<WrittenArchiveSummary, ArchiveWriteError>,
    error: FormatError,
)
    requires
        files.len() <= usize::MAX,
        forall|i: int| 0 <= i < files.len() ==> (#[trigger] files[i]).steady(),
        order.root_auth matches Some(config) && turns_down(config, signer, error),
        standing(other_first).undisturbed(standing(other)),
        carries_out_once_as::<C, O, S, T, G>(
            codec,
            files,
            order,
            options,
            rule,
            archive_uuid,
            session_id,
            answer,
            Some(good),
            first,
            sink,
            Ok(summary),
        ),
        carries_out_once_as::<C, O, S, T, F>(
            codec,
            files,
            order,
            options,
            rule,
            archive_uuid,
            session_id,
            answer,
            Some(signer),
            other_first,
            other,
            r,
        ),
    ensures
        r == Err::<WrittenArchiveSummary, ArchiveWriteError>(ArchiveWriteError::Format(error)),
{
    let o = once_options(codec.spec_layout(), order, options)->Ok_0;
    refused_declarations_carry_the_error::<C, O, S, T, G, F>(
        codec,
        files,
        declared_outcome(codec, order, o, archive_uuid, session_id, answer)->Ok_0,
        o,
        order.spec_request(archive_uuid, session_id).plan,
        rule,
        good,
        signer,
        standing(first).undisturbed(standing(sink)),
        sink,
        other,
        summary,
        r,
        error,
    );
}

// ---------------------------------------------------------------------------------------------
// Archives in memory
// ---------------------------------------------------------------------------------------------

/// Whether some signer signs an order in memory under given identities.
pub open spec fn can_be_signed<
    'a,
    C: ArchiveCodec + MetadataProfile,
    G: FnOnce(&RootAuthSigningRequest) -> Result<Vec<u8>, FormatError>,
>(
    codec: &C,
    files: Seq<RegularFile<'a>>,
    order: ArchiveOrder,
    options: WriterOptions,
    archive_uuid: [u8; 16],
    session_id: [u8; 16],
    good: G,
) -> bool {
    exists|first: MemoryArchiveSink, sink: MemoryArchiveSink, summary: WrittenArchiveSummary|
        #[trigger]
        carries_out_as(
            codec,
            files,
            order,
            options,
            archive_uuid,
            session_id,
            Some(good),
            first,
            sink,
            Ok(summary),
        )
}

/// An order in memory that its signer turns down fails. If a signer signs it under the identities
/// that it had, for recipients that stay as they are, it fails with the signer's error.
pub proof fn refused_archives_in_memory_carry_the_error<
    'a,
    C: ArchiveCodec + MetadataProfile,
    G: FnOnce(&RootAuthSigningRequest) -> Result<Vec<u8>, FormatError>,
    F: FnOnce(&RootAuthSigningRequest) -> Result<Vec<u8>, FormatError>,
>(
    codec: &C,
    files: Seq<RegularFile<'a>>,
    order: ArchiveOrder,
    options: WriterOptions,
    good: G,
    signer: F,
    r: Result<WrittenArchive, FormatError>,
    error: FormatError,
)
    requires
        files.len() <= usize::MAX,
        order.root_auth matches Some(config) && turns_down(config, signer, error),
        archives(codec, files, order, options, Some(signer), r),
    ensures
        r is Err,
        answers_alike(order.key_wrap_records) && order_objection(
            codec.spec_layout(),
            files.len() == 0,
            order,
        ) is None ==> exists|archive_uuid: [u8; 16], session_id: [u8; 16]|
            {
                &&& #[trigger] may_identify(options.archive_uuid, archive_uuid)
                &&& #[trigger] may_identify(options.session_id, session_id)
                &&& can_be_signed(codec, files, order, options, archive_uuid, session_id, good)
                    ==> r == Err::<WrittenArchive, FormatError>(error)
            },
{
    reveal(archives);
    let (first, sink, written) = choose|
        first: MemoryArchiveSink,
        sink: MemoryArchiveSink,
        written: Result<WrittenArchiveSummary, ArchiveWriteError>,
    |
        {
            &&& #[trigger] carries_out(
                codec,
                files,
                order,
                options,
                Some(signer),
                first,
                sink,
                written,
            )
            &&& is_written_archive(sink, written, r)
        };
    refused_archives_fail(codec, files, order, options, signer, first, sink, written, error);
    if answers_alike(order.key_wrap_records) && order_objection(
        codec.spec_layout(),
        files.len() == 0,
        order,
    ) is None {
        archives_have_identities(
            codec,
            files,
            order,
            options,
            Some(signer),
            first,
            sink,
            written,
        );
        let (archive_uuid, session_id) = choose|archive_uuid: [u8; 16], session_id: [u8; 16]|
            #[trigger]
            carries_out_as(
                codec,
                files,
                order,
                options,
                archive_uuid,
                session_id,
                Some(signer),
                first,
                sink,
                written,
            );
        assert(may_identify(options.archive_uuid, archive_uuid));
        assert(may_identify(options.session_id, session_id));
        if can_be_signed(codec, files, order, options, archive_uuid, session_id, good) {
            let (good_first, good_sink, summary) = choose|
                good_first: MemoryArchiveSink,
                good_sink: MemoryArchiveSink,
                summary: WrittenArchiveSummary,
            |
                #[trigger]
                carries_out_as(
                    codec,
                    files,
                    order,
                    options,
                    archive_uuid,
                    session_id,
                    Some(good),
                    good_first,
                    good_sink,
                    Ok(summary),
                );
            refused_archives_carry_the_error(
                codec,
                files,
                order,
                options,
                archive_uuid,
                session_id,
                good,
                signer,
                good_first,
                first,
                good_sink,
                sink,
                summary,
                written,
                error,
            );
        }
    }
}

} // verus!
