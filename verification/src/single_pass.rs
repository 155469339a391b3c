//! Archives whose sources are read once: the headers are written before the metadata is known.
use crate::archive::{finishes, volume_headers};
use crate::bytes::same_bytes;
use crate::clock::{nanos_since, now};
use crate::codec::{ArchiveCodec, WireLayout};
use crate::emit::{
    begin_writer_emission_state, begun, emission, lift, Emission, WriterEmissionState,
};
use crate::errors::{ArchiveWriteError, FormatError};
use crate::format::VOLUME_FORMAT_REV_45;
use crate::headers::{build_crypto_header, crypto_header_outcome, CryptoHeader, CryptoHeaderValue};
use crate::ids::{choose_id, may_identify};
use crate::key_wrap::{
    fixed_records, key_wrap_outcome, opt_vec, resolve_key_wrap_artifacts, some_answer_is_possible,
    source_answers, stabilized_key_wrap_record_source, stabilized_outcome, KeyWrapRecordSource,
};
use crate::keys::{KdfParams, KdfValue, Subkeys};
use crate::members::{may_run_all, with_members, write_members, MembersValue};
use crate::objects::ArchiveSeal;
use crate::openings::opens_members;
use crate::options::{
    plan_single_pass_writer_options, planned_single_pass_options, single_pass_refusal,
    validate_single_pass_writer_options, WriterOptions,
};
use crate::packing::nothing_packed;
use crate::payload::goes;
use crate::plan::{
    build_writer_plan_from_payload, is_plan, plan_value, subkeys_outcome, writer_subkeys,
    PayloadPlanning, PayloadValue, PlanRequest, PlanValue, WriterPlan,
};
use crate::planning::{finished_payload, RecordsAnswer};
use crate::profile::MetadataProfile;
use crate::progress::{phases_of, ArchiveWritePhase, ArchiveWriteProgressSink, SourceProgressState};
use crate::root_auth::{always_answers, validate_root_auth_writer_config, RootAuthSigningRequest};
use crate::rows::{members_wf, tar_member_values, MemberValue, TarMember};
use crate::sink::{failure_of, is_untouched, standing, ArchiveWriteSink};
use crate::source::{take_requests, RegularFileSource, SourceRun};
use crate::streaming::{
    closed_payload, PayloadWriter, StreamSetting, StreamValue, StreamingArchiveWriter,
};
use crate::suffix::{
    closes, emit_writer_plan_suffix, header_values, suffix_answers, suffix_outcome, FooterAnswer,
    WrittenArchiveSummary,
};
use crate::tally::{all_members_are_told, counts_readings, one_reading_is_counted};
use crate::two_pass::{signer_objection, ArchiveOrder};
use vstd::prelude::*;

verus! {

// ---------------------------------------------------------------------------------------------
// What is settled before the payload
// ---------------------------------------------------------------------------------------------

/// The keys and headers of an archive.
pub struct DeclaredValue {
    pub subkeys: Subkeys,
    pub kdf: KdfValue,
    pub table: Option<Seq<u8>>,
    pub header: CryptoHeaderValue,
}

pub struct Declared {
    pub subkeys: Subkeys,
    pub kdf: KdfParams,
    pub table: Option<Vec<u8>>,
    pub header: CryptoHeader,
}

impl View for Declared {
    type V = DeclaredValue;

    open spec fn view(&self) -> DeclaredValue {
        DeclaredValue {
            subkeys: self.subkeys,
            kdf: self.kdf@,
            table: opt_vec(self.table),
            header: self.header.value(),
        }
    }
}

/// The key-derivation parameters and the key-wrap table, given what the records answer.
pub open spec fn settled_keys<C: ArchiveCodec>(
    codec: &C,
    kdf: KdfValue,
    archive_uuid: [u8; 16],
    session_id: [u8; 16],
    answer: RecordsAnswer,
) -> Result<(KdfValue, Option<Seq<u8>>), FormatError> {
    match stabilized_outcome(kdf, answer) {
        Err(e) => Err(e),
        Ok(records) => key_wrap_outcome(codec, kdf, archive_uuid, session_id, Ok(records)),
    }
}

/// The keys and headers of an archive, given what the records answer.
#[verifier::opaque]
pub open spec fn declared_outcome<C: ArchiveCodec>(
    codec: &C,
    order: ArchiveOrder,
    o: WriterOptions,
    archive_uuid: [u8; 16],
    session_id: [u8; 16],
    answer: RecordsAnswer,
) -> Result<DeclaredValue, FormatError> {
    match subkeys_outcome(codec, order.master_key, o.aead_algo, archive_uuid, session_id) {
        Err(e) => Err(e),
        Ok(subkeys) => match settled_keys(
            codec,
            order.kdf_params@,
            archive_uuid,
            session_id,
            answer,
        ) {
            Err(e) => Err(e),
            Ok((kdf, table)) => match crypto_header_outcome(
                codec,
                o,
                VOLUME_FORMAT_REV_45,
                false,
                subkeys,
                archive_uuid,
                session_id,
                kdf,
            ) {
                Err(e) => Err(e),
                Ok(header) => Ok(DeclaredValue { subkeys, kdf, table, header }),
            },
        },
    }
}

pub open spec fn declared_value(r: Result<Declared, FormatError>) -> Result<
    DeclaredValue,
    FormatError,
> {
    match r {
        Ok(declared) => Ok(declared@),
        Err(e) => Err(e),
    }
}

/// Settles the keys and headers of an archive.
pub fn declare_archive<C: ArchiveCodec>(
    codec: &C,
    order: &ArchiveOrder<'_>,
    options: WriterOptions,
    archive_uuid: &[u8; 16],
    session_id: &[u8; 16],
) -> (r: Result<Declared, FormatError>)
    ensures
        r matches Ok(declared) ==> declared.header.wf(),
        exists|answer: RecordsAnswer| #[trigger]
            source_answers(order.key_wrap_records, answer) && declared_value(r)
                == declared_outcome(codec, *order, options, *archive_uuid, *session_id, answer),
{
    proof {
        reveal(declared_outcome);
        some_answer_is_possible(order.key_wrap_records);
    }
    let subkeys: Subkeys = writer_subkeys(
        codec,
        &order.master_key,
        options.aead_algo,
        archive_uuid,
        session_id,
    )?;
    let stable: Result<Option<KeyWrapRecordSource>, FormatError> =
        stabilized_key_wrap_record_source(order.kdf_params, order.key_wrap_records);
    let ghost answer: RecordsAnswer = if order.kdf_params is RecipientWrap {
        choose|answer: RecordsAnswer| #[trigger]
            source_answers(order.key_wrap_records, answer) && fixed_records(stable)
                == stabilized_outcome(order.kdf_params@, answer)
    } else {
        choose|answer: RecordsAnswer| #[trigger] source_answers(order.key_wrap_records, answer)
    };
    assert(source_answers(order.key_wrap_records, answer));
    assert(fixed_records(stable) == stabilized_outcome(order.kdf_params@, answer));
    let fixed: Option<KeyWrapRecordSource> = stable?;
    let records: Option<&KeyWrapRecordSource> = match &fixed {
        Some(source) => Some(source),
        None => None,
    };
    let (kdf, table) = resolve_key_wrap_artifacts(
        codec,
        order.kdf_params,
        archive_uuid,
        session_id,
        records,
    )?;
    let header: CryptoHeader = build_crypto_header(
        codec,
        options,
        VOLUME_FORMAT_REV_45,
        false,
        &subkeys,
        archive_uuid,
        session_id,
        &kdf,
    )?;
    Ok(Declared { subkeys, kdf, table, header })
}

// ---------------------------------------------------------------------------------------------
// Closing an archive whose payload is written
// ---------------------------------------------------------------------------------------------

/// Whether an archive was closed as it should behind its payload: its metadata has to fit the
/// headers that stand already, else `rule` is broken.
pub open spec fn closes_stream<
    C: ArchiveCodec + MetadataProfile,
    O: ArchiveWriteSink,
    F: FnOnce(&RootAuthSigningRequest) -> Result<Vec<u8>, FormatError>,
>(
    codec: &C,
    payload: PayloadValue,
    e: Emission,
    declared: DeclaredValue,
    o: WriterOptions,
    request: PlanRequest,
    rule: &'static str,
    authenticator: Option<F>,
    calm: bool,
    sink: O,
    r: Result<WrittenArchiveSummary, ArchiveWriteError>,
) -> bool {
    exists|planned: Result<PlanValue, FormatError>|
        {
            &&& #[trigger] is_plan(
                codec,
                payload,
                e.next_block_index,
                o,
                None,
                declared.kdf,
                declared.table,
                request,
                planned,
            )
            &&& match planned {
                Err(f) => r == Err::<WrittenArchiveSummary, ArchiveWriteError>(
                    ArchiveWriteError::Format(f),
                ),
                Ok(plan) => if plan.options != o || plan.crypto_header.bytes
                    != declared.header.bytes {
                    r == Err::<WrittenArchiveSummary, ArchiveWriteError>(
                        ArchiveWriteError::Format(FormatError::WriterUnsupported(rule)),
                    )
                } else {
                    closes_plan(
                        codec,
                        e,
                        plan,
                        declared,
                        request,
                        authenticator,
                        calm,
                        sink,
                        r,
                    )
                },
            }
        }
}

/// Whether the metadata of a plan was written behind its payload.
pub open spec fn closes_plan<
    C: ArchiveCodec,
    O: ArchiveWriteSink,
    F: FnOnce(&RootAuthSigningRequest) -> Result<Vec<u8>, FormatError>,
>(
    codec: &C,
    e: Emission,
    plan: PlanValue,
    declared: DeclaredValue,
    request: PlanRequest,
    authenticator: Option<F>,
    calm: bool,
    sink: O,
    r: Result<WrittenArchiveSummary, ArchiveWriteError>,
) -> bool {
    exists|answer: FooterAnswer|
        {
            &&& #[trigger] suffix_answers(
                codec,
                e,
                plan,
                declared.subkeys,
                request.volume_format_rev,
                request.root_auth,
                authenticator,
                request.caps,
                answer,
            )
            &&& finishes(
                calm,
                sink,
                match suffix_outcome(
                    codec,
                    e,
                    plan,
                    declared.subkeys,
                    volume_headers(
                        codec,
                        plan.options.stripe_width,
                        declared.header.bytes,
                        request.archive_uuid,
                        request.session_id,
                        request.volume_format_rev,
                    ),
                    request.volume_format_rev,
                    request.caps,
                    answer,
                ) {
                    Ok(closed) => Ok(closed),
                    Err(f) => Err(ArchiveWriteError::Format(f)),
                },
                plan.options.stripe_width,
                request.archive_uuid,
                request.session_id,
                r,
            )
        }
}

/// Closes an archive behind its payload.
#[verifier::rlimit(60)]
pub fn finish_stream<
    C: ArchiveCodec + MetadataProfile,
    O: ArchiveWriteSink,
    F: FnOnce(&RootAuthSigningRequest) -> Result<Vec<u8>, FormatError>,
>(
    codec: &C,
    payload: PayloadPlanning,
    state: WriterEmissionState,
    declared: Declared,
    options: WriterOptions,
    request: &PlanRequest<'_>,
    rule: &'static str,
    authenticator: Option<F>,
    sink: &mut O,
) -> (r: Result<WrittenArchiveSummary, ArchiveWriteError>)
    requires
        options.block_size > 0,
        members_wf(payload.tar_members@),
        emission(*old(sink), state).wf(options.stripe_width),
        state.volume_format_rev == request.volume_format_rev,
        header_values(state) == volume_headers(
            codec,
            options.stripe_width,
            declared.header.bytes@,
            request.archive_uuid,
            request.session_id,
            request.volume_format_rev,
        ),
        forall|i: int|
            0 <= i < options.stripe_width ==> (#[trigger] state.volume_headers@[i])@.len()
                == codec.spec_layout().volume_header,
        authenticator matches Some(signer) ==> always_answers(signer),
    ensures
        standing(*old(sink)).hands_on(standing(*final(sink)), failure_of(r)),
        standing(*old(sink)).undisturbed(standing(*final(sink))) || r is Ok ==> closes_stream(
            codec,
            payload@,
            emission(*old(sink), state),
            declared@,
            options,
            *request,
            rule,
            authenticator,
            standing(*old(sink)).undisturbed(standing(*final(sink))),
            *final(sink),
            r,
        ),
{
    let ghost e = emission(*sink, state);
    let ghost value = declared@;
    let ghost payload_value = payload@;
    let Declared { subkeys, kdf, table, header } = declared;
    let built: Result<WriterPlan, FormatError> = build_writer_plan_from_payload(
        codec,
        payload,
        state.next_block_index,
        options,
        None,
        &kdf,
        table,
        request,
    );
    assert(is_plan(
        codec,
        payload_value,
        e.next_block_index,
        options,
        None,
        value.kdf,
        value.table,
        *request,
        plan_value(built),
    ));
    let plan: WriterPlan = lift(built)?;
    assert(plan@.options == WriterOptions {
        index_root_fec_data_shards: plan.options.index_root_fec_data_shards,
        index_root_fec_parity_shards: plan.options.index_root_fec_parity_shards,
        ..options
    });
    if plan.options.index_root_fec_data_shards != options.index_root_fec_data_shards
        || plan.options.index_root_fec_parity_shards != options.index_root_fec_parity_shards
        || !same_bytes(plan.crypto_header.bytes.as_slice(), header.bytes.as_slice()) {
        return Err(ArchiveWriteError::Format(FormatError::WriterUnsupported(rule)));
    }
    let mut state: WriterEmissionState = state;
    let ghost headers = header_values(state);
    assert(headers.len() == options.stripe_width);
    let closed: Result<WrittenArchiveSummary, ArchiveWriteError> = emit_writer_plan_suffix(
        codec,
        &subkeys,
        request.root_auth,
        authenticator,
        &plan,
        &request.caps,
        sink,
        &mut state,
    );
    proof {
        if standing(*old(sink)).undisturbed(standing(*sink)) || closed is Ok {
            let answer = choose|answer: FooterAnswer| #[trigger]
                suffix_answers(
                    codec,
                    e,
                    plan@,
                    subkeys,
                    request.volume_format_rev,
                    request.root_auth,
                    authenticator,
                    request.caps,
                    answer,
                ) && closes(
                    standing(*old(sink)),
                    standing(*sink),
                    emission(*sink, state),
                    suffix_outcome(
                        codec,
                        e,
                        plan@,
                        subkeys,
                        headers,
                        request.volume_format_rev,
                        request.caps,
                        answer,
                    ),
                    plan@,
                    closed,
                );
            assert(suffix_answers(
                codec,
                e,
                plan@,
                value.subkeys,
                request.volume_format_rev,
                request.root_auth,
                authenticator,
                request.caps,
                answer,
            ));
        }
    }
    closed
}

// ---------------------------------------------------------------------------------------------
// The whole archive
// ---------------------------------------------------------------------------------------------

/// A payload that was written, and the members in it.
pub struct SentPayload {
    pub members: Seq<MemberValue>,
    pub value: StreamValue,
}

/// What the payload of a declared archive is written by.
pub open spec fn stream_setting<C: ArchiveCodec>(
    codec: &C,
    declared: DeclaredValue,
    o: WriterOptions,
    request: PlanRequest,
) -> StreamSetting {
    StreamSetting {
        options: o,
        seal: ArchiveSeal {
            subkeys: declared.subkeys,
            archive_uuid: request.archive_uuid,
            session_id: request.session_id,
        },
        rev: request.volume_format_rev,
        headers: volume_headers(
            codec,
            o.stripe_width,
            declared.header.bytes,
            request.archive_uuid,
            request.session_id,
            request.volume_format_rev,
        ),
    }
}

/// The payload of a declared archive, over what the sources contribute.
pub open spec fn sent_payload<
    C: ArchiveCodec + MetadataProfile,
    O: ArchiveWriteSink,
    T: PayloadWriter<C, O>,
>(
    codec: &C,
    declared: DeclaredValue,
    o: WriterOptions,
    request: PlanRequest,
    runs: Seq<SourceRun>,
) -> Result<SentPayload, ArchiveWriteError> {
    let setting = stream_setting(codec, declared, o, request);
    match begun(
        codec,
        o.stripe_width,
        declared.header.bytes,
        declared.table,
        request.archive_uuid,
        request.session_id,
        request.volume_format_rev,
        request.root_auth is Some,
    ) {
        Err(e) => Err(ArchiveWriteError::Format(e)),
        Ok(start) => match with_members::<C, O, T>(
            codec,
            setting,
            o,
            None,
            MembersValue {
                members: Seq::empty(),
                state: StreamValue { pack: nothing_packed(0), emission: start },
            },
            runs,
            runs.len(),
        ) {
            Err(e) => Err(e),
            Ok(taken) => match closed_payload(
                taken.state,
                T::flushed(codec, setting, taken.state),
            ) {
                Err(e) => Err(ArchiveWriteError::Format(e)),
                Ok(value) => Ok(SentPayload { members: taken.members, value }),
            },
        },
    }
}

/// Whether a declared archive was written from its sources as it should.
#[verifier::opaque]
pub open spec fn writes_declared<
    C: ArchiveCodec + MetadataProfile,
    O: ArchiveWriteSink,
    S: RegularFileSource,
    T: PayloadWriter<C, O>,
    F: FnOnce(&RootAuthSigningRequest) -> Result<Vec<u8>, FormatError>,
>(
    codec: &C,
    files: Seq<S>,
    declared: DeclaredValue,
    o: WriterOptions,
    request: PlanRequest,
    rule: &'static str,
    authenticator: Option<F>,
    calm: bool,
    sink: O,
    r: Result<WrittenArchiveSummary, ArchiveWriteError>,
) -> bool {
    exists|runs: Seq<SourceRun>|
        {
            &&& #[trigger] may_run_all(files, runs)
            &&& match sent_payload::<C, O, T>(codec, declared, o, request, runs) {
                Err(e) => r == Err::<WrittenArchiveSummary, ArchiveWriteError>(e),
                Ok(sent) => closes_stream(
                    codec,
                    finished_payload(sent.members, sent.value.pack).payload,
                    T::completed(sent.value),
                    declared,
                    o,
                    request,
                    rule,
                    authenticator,
                    calm,
                    sink,
                    r,
                ),
            }
        }
}

/// Writes a declared archive from its sources, which are read once.
#[verifier::rlimit(60)]
pub fn write_declared_archive<
    C: ArchiveCodec + MetadataProfile,
    O: ArchiveWriteSink,
    S: RegularFileSource,
    P: ArchiveWriteProgressSink,
    T: PayloadWriter<C, O>,
    F: FnOnce(&RootAuthSigningRequest) -> Result<Vec<u8>, FormatError>,
>(
    codec: &C,
    files: &[S],
    declared: Declared,
    options: WriterOptions,
    request: &PlanRequest<'_>,
    rule: &'static str,
    authenticator: Option<F>,
    started: &std::time::Instant,
    sink: &mut O,
    progress: &mut P,
    ledger: &mut SourceProgressState,
) -> (r: Result<WrittenArchiveSummary, ArchiveWriteError>)
    requires
        old(ledger).wf(),
        take_requests(files@, options.chunk_size as int),
        options.chunk_size > 0,
        options.block_size > 0,
        options.stripe_width > 0,
        authenticator matches Some(signer) ==> always_answers(signer),
        forall|out: O| #[trigger] T::standing(out) == standing(out),
    ensures
        final(ledger).wf(),
        r is Ok ==> opens_members(
            files@,
            files@.len(),
            old(ledger).opened@,
            final(ledger).opened@,
        ),
        standing(*old(sink)).hands_on(standing(*final(sink)), failure_of(r)),
        r is Ok ==> phases_of(final(progress).events()) == phases_of(old(progress).events())
            + seq![ArchiveWritePhase::EmittingPayload, ArchiveWritePhase::EmittingMetadata],
        r is Ok ==> counts_readings(
            codec,
            files@,
            0,
            1,
            old(progress).events(),
            final(progress).events(),
        ),
        standing(*old(sink)).undisturbed(standing(*final(sink))) || r is Ok ==> writes_declared::<C, O, S, T, F>(
            codec,
            files@,
            declared@,
            options,
            *request,
            rule,
            authenticator,
            standing(*old(sink)).undisturbed(standing(*final(sink))),
            *final(sink),
            r,
        ),
{
    reveal(writes_declared);
    let ghost value = declared@;
    let ghost began = standing(*sink);
    let ghost setting = stream_setting(codec, value, options, *request);
    let ghost any_runs: Seq<SourceRun> = Seq::new(files@.len(), |i: int| files@[i].run());
    assert(may_run_all(files@, any_runs));
    let table: Option<&[u8]> = match &declared.table {
        Some(table) => Some(table.as_slice()),
        None => None,
    };
    let state: WriterEmissionState = begin_writer_emission_state(
        codec,
        sink,
        options,
        declared.header.bytes.as_slice(),
        table,
        request.archive_uuid,
        request.session_id,
        request.volume_format_rev,
        request.root_auth.is_some(),
    )?;
    let seal = ArchiveSeal {
        subkeys: declared.subkeys,
        archive_uuid: request.archive_uuid,
        session_id: request.session_id,
    };
    let ghost start = emission(*sink, state);
    assert(header_values(state) =~= setting.headers);
    let emit_payload_started: std::time::Instant = now();
    ledger.start_phase(progress, ArchiveWritePhase::EmittingPayload);
    let ghost noted = *ledger;
    let ghost told = progress.events();
    let mut writer: T = T::start(options, seal, state, sink);
    let mut tar_members: Vec<TarMember> = Vec::new();
    assert(tar_member_values(tar_members@) =~= Seq::empty());
    let ghost first = MembersValue {
        members: tar_member_values(tar_members@),
        state: writer.state(*sink),
    };
    let ghost paid = standing(*sink);
    let taken: Result<(), ArchiveWriteError> = write_members(
        codec,
        &mut writer,
        sink,
        &mut tar_members,
        files,
        options,
        None,
        progress,
        ledger,
    );
    let ghost runs = choose|runs: Seq<SourceRun>| #[trigger]
        may_run_all(files@, runs) && goes(
            paid,
            standing(*sink),
            taken,
            MembersValue {
                members: tar_member_values(tar_members@),
                state: writer.state(*sink),
            },
            with_members::<C, O, T>(
                codec,
                setting,
                options,
                None,
                first,
                runs,
                files@.len(),
            ),
        );
    assert(may_run_all(files@, runs));
    taken?;
    writer.flush_payload_envelope(codec, sink)?;
    let (payload, state) = writer.into_parts(sink, tar_members);
    assert forall|i: int| 0 <= i < options.stripe_width implies (
    #[trigger] state.volume_headers@[i])@.len() == codec.spec_layout().volume_header by {
        assert(header_values(state)[i] == state.volume_headers@[i]@);
        assert(header_values(state)[i] == setting.headers[i]);
    }
    let emit_payload: u64 = nanos_since(&emit_payload_started);
    let ghost now_noted = *ledger;
    let ghost now_told = progress.events();
    ledger.start_phase(progress, ArchiveWritePhase::EmittingMetadata);
    proof {
        all_members_are_told(
            codec,
            files@,
            noted,
            told,
            now_noted,
            now_told,
            progress.events(),
        );
        one_reading_is_counted(
            codec,
            files@,
            noted,
            old(progress).events(),
            told,
            progress.events(),
        );
    }
    let mut summary: WrittenArchiveSummary = finish_stream(
        codec,
        payload,
        state,
        declared,
        options,
        request,
        rule,
        authenticator,
        sink,
    )?;
    summary.timings.emit_payload = summary.timings.emit_payload.saturating_add(emit_payload);
    summary.timings.total = nanos_since(started);
    Ok(summary)
}

/// Whether an order was carried out in one pass as it should, under identities that may be
/// random. An order that is refused leaves the sink alone.
#[verifier::opaque]
pub open spec fn carries_out_once<
    C: ArchiveCodec + MetadataProfile,
    O: ArchiveWriteSink,
    S: RegularFileSource,
    T: PayloadWriter<C, O>,
    F: FnOnce(&RootAuthSigningRequest) -> Result<Vec<u8>, FormatError>,
>(
    codec: &C,
    files: Seq<S>,
    order: ArchiveOrder,
    options: WriterOptions,
    rule: &'static str,
    authenticator: Option<F>,
    first: O,
    sink: O,
    r: Result<WrittenArchiveSummary, ArchiveWriteError>,
) -> bool {
    match once_options(codec.spec_layout(), order, options) {
        Err(e) => is_untouched(first, sink) && r == Err::<WrittenArchiveSummary, ArchiveWriteError>(
            ArchiveWriteError::Format(e),
        ),
        Ok(o) => exists|archive_uuid: [u8; 16], session_id: [u8; 16], answer: RecordsAnswer|
            {
                &&& #[trigger] may_identify(o.archive_uuid, archive_uuid)
                &&& #[trigger] may_identify(o.session_id, session_id)
                &&& #[trigger] source_answers(order.key_wrap_records, answer)
                &&& match declared_outcome(codec, order, o, archive_uuid, session_id, answer) {
                    Err(e) => is_untouched(first, sink) && r == Err::<
                        WrittenArchiveSummary,
                        ArchiveWriteError,
                    >(ArchiveWriteError::Format(e)),
                    Ok(declared) => standing(first).undisturbed(standing(sink))
                        || r is Ok ==> writes_declared::<C, O, S, T, F>(
                        codec,
                        files,
                        declared,
                        o,
                        order.spec_request(archive_uuid, session_id).plan,
                        rule,
                        authenticator,
                        standing(first).undisturbed(standing(sink)),
                        sink,
                        r,
                    ),
                }
            },
    }
}

/// The options of an order that is carried out in one pass, or why it cannot be.
pub open spec fn once_options(layout: WireLayout, order: ArchiveOrder, o: WriterOptions) -> Result<
    WriterOptions,
    FormatError,
> {
    match single_pass_refusal(o) {
        Some(rule) => Err(FormatError::WriterUnsupported(rule)),
        None => match signer_objection(layout, order.root_auth, order.caps) {
            Some(e) => Err(e),
            None => planned_single_pass_options(o, order.caps),
        },
    }
}

/// Writes the archive of an order from sources that are read once: each is opened once, if it has
/// data. A dictionary has no part in it.
pub fn write_archive_once<
    C: ArchiveCodec + MetadataProfile,
    O: ArchiveWriteSink,
    S: RegularFileSource,
    P: ArchiveWriteProgressSink,
    T: PayloadWriter<C, O>,
    F: FnOnce(&RootAuthSigningRequest) -> Result<Vec<u8>, FormatError>,
>(
    codec: &C,
    files: &[S],
    order: &ArchiveOrder<'_>,
    options: WriterOptions,
    rule: &'static str,
    authenticator: Option<F>,
    sink: &mut O,
    progress: &mut P,
    ledger: &mut SourceProgressState,
) -> (r: Result<WrittenArchiveSummary, ArchiveWriteError>)
    requires
        old(ledger).wf(),
        take_requests(files@, options.chunk_size as int),
        authenticator matches Some(signer) ==> always_answers(signer),
        forall|out: O| #[trigger] T::standing(out) == standing(out),
    ensures
        final(ledger).wf(),
        r is Ok ==> opens_members(
            files@,
            files@.len(),
            old(ledger).opened@,
            final(ledger).opened@,
        ),
        standing(*old(sink)).hands_on(standing(*final(sink)), failure_of(r)),
        r is Ok ==> phases_of(final(progress).events()) == phases_of(old(progress).events())
            + seq![ArchiveWritePhase::EmittingPayload, ArchiveWritePhase::EmittingMetadata],
        r is Ok ==> counts_readings(
            codec,
            files@,
            0,
            1,
            old(progress).events(),
            final(progress).events(),
        ),
        carries_out_once::<C, O, S, T, F>(
            codec,
            files@,
            *order,
            options,
            rule,
            authenticator,
            *old(sink),
            *final(sink),
            r,
        ),
{
    reveal(carries_out_once);
    let started: std::time::Instant = now();
    lift(validate_single_pass_writer_options(options))?;
    let layout: WireLayout = codec.layout();
    if let Some(root_auth) = order.root_auth {
        lift(validate_root_auth_writer_config(&root_auth, &layout, &order.caps))?;
    }
    let planned: WriterOptions = lift(plan_single_pass_writer_options(options, &order.caps))?;
    let archive_uuid: [u8; 16] = choose_id(planned.archive_uuid);
    let session_id: [u8; 16] = choose_id(planned.session_id);
    let settled: Result<Declared, FormatError> = declare_archive(
        codec,
        order,
        planned,
        &archive_uuid,
        &session_id,
    );
    let ghost answer = choose|answer: RecordsAnswer| #[trigger]
        source_answers(order.key_wrap_records, answer) && declared_value(settled)
            == declared_outcome(codec, *order, planned, archive_uuid, session_id, answer);
    assert(source_answers(order.key_wrap_records, answer));
    let declared: Declared = lift(settled)?;
    let request: PlanRequest<'_> = order.request(archive_uuid, session_id).plan;
    write_declared_archive::<C, O, S, P, T, F>(
        codec,
        files,
        declared,
        planned,
        &request,
        rule,
        authenticator,
        &started,
        sink,
        progress,
        ledger,
    )
}

/// Broken where the metadata of a streamed archive does not fit its headers.
pub const STREAM_CLASS_RULE: &'static str =
    "streaming tar stdin metadata exceeded the predeclared header class";

/// Writes the archive of an order, envelope by envelope, while its sources are read.
pub fn write_single_pass_archive_to_sink<
    C: ArchiveCodec + MetadataProfile,
    O: ArchiveWriteSink,
    S: RegularFileSource,
    P: ArchiveWriteProgressSink,
    F: FnOnce(&RootAuthSigningRequest) -> Result<Vec<u8>, FormatError>,
>(
    codec: &C,
    files: &[S],
    order: &ArchiveOrder<'_>,
    options: WriterOptions,
    authenticator: Option<F>,
    sink: &mut O,
    progress: &mut P,
    ledger: &mut SourceProgressState,
) -> (r: Result<WrittenArchiveSummary, ArchiveWriteError>)
    requires
        old(ledger).wf(),
        take_requests(files@, options.chunk_size as int),
        authenticator matches Some(signer) ==> always_answers(signer),
    ensures
        final(ledger).wf(),
        r is Ok ==> opens_members(
            files@,
            files@.len(),
            old(ledger).opened@,
            final(ledger).opened@,
        ),
        standing(*old(sink)).hands_on(standing(*final(sink)), failure_of(r)),
        r is Ok ==> phases_of(final(progress).events()) == phases_of(old(progress).events())
            + seq![ArchiveWritePhase::EmittingPayload, ArchiveWritePhase::EmittingMetadata],
        r is Ok ==> counts_readings(
            codec,
            files@,
            0,
            1,
            old(progress).events(),
            final(progress).events(),
        ),
        carries_out_once::<C, O, S, StreamingArchiveWriter, F>(
            codec,
            files@,
            *order,
            options,
            STREAM_CLASS_RULE,
            authenticator,
            *old(sink),
            *final(sink),
            r,
        ),
{
    write_archive_once::<C, O, S, P, StreamingArchiveWriter, F>(
        codec,
        files,
        order,
        options,
        STREAM_CLASS_RULE,
        authenticator,
        sink,
        progress,
        ledger,
    )
}

} // verus!
