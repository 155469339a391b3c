//! Reading what the writer left in a sink: the members and the index of an archive come back from
//! its volumes, and the contents of its files with them.
use crate::archive::{finishes, plan_answers, plan_emission, replay_setting, volume_headers};
use crate::arith::tar_padding;
use crate::capture::{captured, prepared};
use crate::codec::{contents_of, ArchiveCodec, ObjectDomain};
use crate::emit::begun;
use crate::errors::{ArchiveWriteError, FormatError};
use crate::format::AeadAlgo;
use crate::ids::may_identify;
use crate::index_reading::{read_object, the_index_reads_back};
use crate::key_wrap::source_answers;
use crate::keys::{KdfValue, Subkeys};
use crate::member::{layout_outcome, source_payload_size_outcome, LayoutValue, PrimaryValue};
use crate::members::{may_run_all, with_member, with_members, MembersValue, StreamTaker};
use crate::metadata::PortableValue;
use crate::objects::ArchiveSeal;
use crate::options::{
    opt_bytes, planned_options, planned_options_obey_the_rules, planned_single_pass_options,
    ReaderCaps, WriterOptions,
};
use crate::ordered::OrderedParallelState;
use crate::ordered_reading::{apart, ordered_archives_read_back};
use crate::packing::{nothing_packed, PayloadPacking};
use crate::plan::{is_plan, subkeys_outcome, PayloadValue, PlanRequest, PlanValue};
use crate::planning::{finished_payload, is_source_plan, payload_outcome, RecordsAnswer};
use crate::profile::MetadataProfile;
use crate::readback::envelope_setting;
use crate::reading::{
    planned_archives_read_back, reads_back, streamed_archives_read_back, undoes, Decoder,
};
use crate::repeat::steady_runs_are_unique;
use crate::root_auth::RootAuthSigningRequest;
use crate::seek::group_of;
use crate::single_pass::{
    carries_out_once, closes_plan, closes_stream, declared_outcome, once_options, sent_payload,
    stream_setting, writes_declared, DeclaredValue,
};
use crate::sink::{standing, ArchiveWriteSink, MemoryArchiveSink};
use crate::sizes::{keeps_lengths, passes_are_measured};
use crate::source::{RegularFile, RegularFileSource, SourceRun};
use crate::stream::{answers_of, feed_of, joined_feed, section_feed, sections_of};
use crate::streaming::{PayloadWriter, StreamValue, StreamingArchiveWriter};
use crate::suffix::{suffix_answers, suffix_outcome, FooterAnswer, WrittenArchiveSummary};
use crate::two_pass::{
    carries_out, plans_pass, widened, wider, writes_archive, writes_from_sources, writes_plan,
    ArchiveOrder, ArchiveRequest,
};
use crate::writer::{archives, is_written_archive, WrittenArchive};
use vstd::prelude::*;

verus! {

/// Whether a decoder undoes the codec, whatever the options, in archives of a cipher.
pub open spec fn undoes_throughout<C: ArchiveCodec>(
    d: Decoder,
    codec: &C,
    dictionary: Option<Seq<u8>>,
    algo: AeadAlgo,
) -> bool {
    forall|o: WriterOptions, sealing: WriterOptions|
        sealing.aead_algo == algo ==> #[trigger] undoes(d, codec, o, dictionary, sealing)
}

/// What steady sources contribute.
pub open spec fn runs_of<S: RegularFileSource>(files: Seq<S>) -> Seq<SourceRun> {
    Seq::new(files.len(), |i: int| files[i].run())
}

/// Whether the volumes of an archive give back what a plan says is in it: each member, under its
/// path, by its frames and envelopes, and the root and the shards of the index.
pub open spec fn gives_back<C: ArchiveCodec + MetadataProfile>(
    d: Decoder,
    codec: &C,
    options: WriterOptions,
    plan: PlanValue,
    subkeys: Subkeys,
    collect: bool,
    volumes: Seq<Seq<u8>>,
    runs: Seq<SourceRun>,
) -> bool {
    let o = plan.options;
    let starts = begun(
        codec,
        o.stripe_width,
        plan.crypto_header.bytes,
        plan.key_wrap_table,
        plan.archive_uuid,
        plan.session_id,
        plan.volume_format_rev,
        collect,
    )->Ok_0.volumes;
    let seal = ArchiveSeal {
        subkeys,
        archive_uuid: plan.archive_uuid,
        session_id: plan.session_id,
    };
    &&& plan.members.len() == runs.len()
    &&& forall|i: int|
        0 <= i < runs.len() ==> {
            &&& captured(codec, runs[i].described, options.max_path_length) == Ok::<PrimaryValue, FormatError>(
                (#[trigger] plan.members[i]).primary,
            )
            &&& reads_back(
                d,
                starts,
                volumes,
                envelope_setting(replay_setting(codec, plan, subkeys)),
                plan.objects,
                plan.frames,
                plan.members[i],
                i,
                group_of(codec, options, runs[i]),
            )
        }
    &&& read_object(
        d,
        starts,
        volumes,
        o,
        seal.spec_context(ObjectDomain::IndexRoot, 0, o),
        plan.index_root_extent,
    ) == plan.compressed_index_root
    &&& forall|k: int|
        0 <= k < plan.index_shard_objects.len() ==> read_object(
            d,
            starts,
            volumes,
            o,
            seal.spec_context(
                ObjectDomain::IndexShard,
                (#[trigger] plan.index_shard_objects[k]).object_index,
                o,
            ),
            plan.index_shard_objects[k].extent,
        ) == plan.index_shard_objects[k].compressed
}

// ---------------------------------------------------------------------------------------------
// Members
// ---------------------------------------------------------------------------------------------

/// Whether a member can be laid out.
#[verifier::opaque]
pub open spec fn is_laid_out<C: ArchiveCodec + MetadataProfile>(codec: &C, v: PrimaryValue) -> bool {
    prepared(codec, v) is Ok
}

proof fn a_member_is_captured<C: ArchiveCodec + MetadataProfile, Out, T: StreamTaker<C, Out>>(
    codec: &C,
    setting: T::Setting,
    o: WriterOptions,
    dictionary: Option<Seq<u8>>,
    before: MembersValue<T::State>,
    run: SourceRun,
)
    ensures
        with_member::<C, Out, T>(codec, setting, o, dictionary, before, run) matches Ok(v) ==> {
            &&& v.members.len() == before.members.len() + 1
            &&& v.members.drop_last() == before.members
            &&& captured(codec, run.described, o.max_path_length) == Ok::<PrimaryValue, FormatError>(
                v.members.last().primary,
            )
            &&& is_laid_out(codec, v.members.last().primary)
        },
{
    reveal(with_member);
    reveal(is_laid_out);
    if let Ok(v) = with_member::<C, Out, T>(codec, setting, o, dictionary, before, run) {
        assert(v.members.drop_last() =~= before.members);
    }
}

/// Every member is recorded as its source described it.
pub(crate) proof fn members_are_captured<C: ArchiveCodec + MetadataProfile, Out, T: StreamTaker<C, Out>>(
    codec: &C,
    setting: T::Setting,
    o: WriterOptions,
    dictionary: Option<Seq<u8>>,
    before: MembersValue<T::State>,
    runs: Seq<SourceRun>,
    count: nat,
)
    requires
        count <= runs.len(),
        before.members.len() == 0,
    ensures
        with_members::<C, Out, T>(codec, setting, o, dictionary, before, runs, count) matches Ok(v)
            ==> {
            &&& v.members.len() == count
            &&& forall|i: int|
                0 <= i < count ==> captured(codec, runs[i].described, o.max_path_length) == Ok::<
                    PrimaryValue,
                    FormatError,
                >((#[trigger] v.members[i]).primary) && is_laid_out(codec, v.members[i].primary)
        },
    decreases count,
{
    if count > 0 {
        members_are_captured::<C, Out, T>(
            codec,
            setting,
            o,
            dictionary,
            before,
            runs,
            (count - 1) as nat,
        );
        if let Ok(w) = with_members::<C, Out, T>(
            codec,
            setting,
            o,
            dictionary,
            before,
            runs,
            (count - 1) as nat,
        ) {
            a_member_is_captured::<C, Out, T>(codec, setting, o, dictionary, w, runs[count - 1]);
            if let Ok(v) = with_member::<C, Out, T>(
                codec,
                setting,
                o,
                dictionary,
                w,
                runs[count - 1],
            ) {
                assert forall|i: int| 0 <= i < count implies captured(
                    codec,
                    runs[i].described,
                    o.max_path_length,
                ) == Ok::<PrimaryValue, FormatError>((#[trigger] v.members[i]).primary) && is_laid_out(codec, v.members[i].primary) by {
                    if i < count - 1 {
                        assert(v.members[i] == w.members[i]) by {
                            assert(v.members.drop_last()[i] == w.members[i]);
                        }
                    }
                }
            }
        }
    }
}

/// The data of a member: what stands in front of the padding at the end of its group.
pub open spec fn data_in(group: Seq<u8>, size: int) -> Seq<u8> {
    let end = group.len() - tar_padding(size);
    group.subrange(end - size, end)
}

/// A stream ends with the data of its member and the padding.
proof fn streams_end_with_the_data(
    layout: LayoutValue,
    metadata: PortableValue,
    size: u64,
    run: SourceRun,
)
    requires
        run.primary.data.len() == size,
    ensures
        data_in(feed_of(sections_of(layout, metadata, size), run).bytes, size as int)
            == run.primary.data,
{
    let sections = sections_of(layout, metadata, size);
    let answers = answers_of(sections, run);
    let n = sections.len();
    let before = joined_feed(sections, answers, (n - 1) as nat).bytes;
    let end = section_feed(sections[n - 1], answers[n - 1]).bytes;
    let group = feed_of(sections, run).bytes;
    assert(group == before + end);
    assert(0 <= tar_padding(size as int) < 512);
    assert(end.len() == size + tar_padding(size as int));
    assert(data_in(group, size as int) =~= run.primary.data);
}

proof fn groups_end_with_the_data<C: ArchiveCodec + MetadataProfile>(
    codec: &C,
    v: PrimaryValue,
    run: SourceRun,
)
    requires
        v.sparse_extents is None,
        v.file_size == run.primary.data.len(),
        is_laid_out(codec, v),
    ensures
        data_in(feed_of(prepared(codec, v)->Ok_0.sections, run).bytes, v.file_size as int)
            == run.primary.data,
{
    reveal(is_laid_out);
    let layout = layout_outcome(codec, v)->Ok_0;
    assert(source_payload_size_outcome(v.file_size, v.sparse_extents, codec.extent_limit()) == Ok::<
        u64,
        FormatError,
    >(v.file_size));
    streams_end_with_the_data(layout, v.metadata, v.file_size, run);
}

/// The group of a file in memory ends with its contents.
pub proof fn groups_hold_the_contents<'a, C: ArchiveCodec + MetadataProfile>(
    codec: &C,
    o: WriterOptions,
    file: RegularFile<'a>,
    v: PrimaryValue,
)
    requires
        captured(codec, file.run().described, o.max_path_length) == Ok::<PrimaryValue, FormatError>(
            v,
        ),
        is_laid_out(codec, v),
    ensures
        data_in(group_of(codec, o, file.run()), file.contents@.len() as int) == file.contents@,
{
    assert(file.contents@.len() == file.contents.len());
    groups_end_with_the_data(codec, v, file.run());
}

// ---------------------------------------------------------------------------------------------
// Archives that were planned first
// ---------------------------------------------------------------------------------------------

/// The keys of a plan.
pub open spec fn keys_of<C: ArchiveCodec>(codec: &C, order: ArchiveOrder, plan: PlanValue) -> Subkeys {
    subkeys_outcome(
        codec,
        order.master_key,
        plan.options.aead_algo,
        plan.archive_uuid,
        plan.session_id,
    )->Ok_0
}

/// A plan keeps what it was made for.
proof fn passes_keep_the_request<C: ArchiveCodec + MetadataProfile, S: RegularFileSource>(
    codec: &C,
    files: Seq<S>,
    request: ArchiveRequest,
    o: WriterOptions,
    plan: PlanValue,
)
    requires
        plans_pass(codec, files, request, o, Ok(plan)),
    ensures
        plan.archive_uuid == request.plan.archive_uuid,
        plan.session_id == request.plan.session_id,
        plan.options.aead_algo == o.aead_algo,
        plan.options.max_path_length == o.max_path_length,
{
    reveal(plans_pass);
}

/// A plan of steady sources records what those say.
proof fn passes_capture<C: ArchiveCodec + MetadataProfile, S: RegularFileSource>(
    codec: &C,
    files: Seq<S>,
    request: ArchiveRequest,
    o: WriterOptions,
    plan: PlanValue,
) -> (answer: RecordsAnswer)
    requires
        forall|i: int| 0 <= i < files.len() ==> (#[trigger] files[i]).steady(),
        plans_pass(codec, files, request, o, Ok(plan)),
    ensures
        is_source_plan(
            codec,
            runs_of(files),
            answer,
            o,
            opt_bytes(request.dictionary),
            request.kdf_params@,
            request.plan,
            Ok::<PlanValue, ArchiveWriteError>(plan),
        ),
        plan.members.len() == files.len(),
        forall|i: int|
            0 <= i < files.len() ==> captured(
                codec,
                files[i].run().described,
                o.max_path_length,
            ) == Ok::<PrimaryValue, FormatError>((#[trigger] plan.members[i]).primary) && is_laid_out(codec, plan.members[i].primary),
{
    reveal(plans_pass);
    let dictionary = opt_bytes(request.dictionary);
    let kdf = request.kdf_params@;
    let (runs, answer) = choose|runs: Seq<SourceRun>, answer: RecordsAnswer|
        #![trigger may_run_all(files, runs), source_answers(request.key_wrap_records, answer)]
        may_run_all(files, runs) && source_answers(request.key_wrap_records, answer)
            && is_source_plan(
            codec,
            runs,
            answer,
            o,
            dictionary,
            kdf,
            request.plan,
            Ok::<PlanValue, ArchiveWriteError>(plan),
        );
    assert(may_run_all(files, runs_of(files)));
    steady_runs_are_unique(files, runs, runs_of(files));
    members_are_captured::<C, (), PayloadPacking>(
        codec,
        o,
        o,
        dictionary,
        MembersValue { members: Seq::empty(), state: nothing_packed(0) },
        runs,
        runs.len(),
    );
    assert(plan.members == payload_outcome(codec, runs, o, dictionary)->Ok_0.payload.members);
    assert forall|i: int| 0 <= i < files.len() implies captured(
        codec,
        files[i].run().described,
        o.max_path_length,
    ) == Ok::<PrimaryValue, FormatError>((#[trigger] plan.members[i]).primary) && is_laid_out(codec, plan.members[i].primary) by {
        assert(runs[i] == files[i].run());
    }
    answer
}

proof fn emissions_read_back<
    C: ArchiveCodec + MetadataProfile,
    O: ArchiveWriteSink,
    S: RegularFileSource,
    F: FnOnce(&RootAuthSigningRequest) -> Result<Vec<u8>, FormatError>,
>(
    d: Decoder,
    codec: &C,
    files: Seq<S>,
    request: ArchiveRequest,
    options: WriterOptions,
    o: WriterOptions,
    plan: PlanValue,
    subkeys: Subkeys,
    authenticator: Option<F>,
    calm: bool,
    sink: O,
    summary: WrittenArchiveSummary,
)
    requires
        files.len() <= usize::MAX,
        forall|i: int| 0 <= i < files.len() ==> (#[trigger] files[i]).steady(),
        keeps_lengths(codec),
        undoes_throughout(d, codec, opt_bytes(request.dictionary), o.aead_algo),
        o.block_size > 0,
        o.chunk_size > 0,
        o.stripe_width > 0,
        o.max_path_length == options.max_path_length,
        plans_pass(codec, files, request, o, Ok(plan)),
        writes_from_sources(
            codec,
            files,
            request,
            plan,
            subkeys,
            authenticator,
            calm,
            sink,
            Ok(summary),
        ),
    ensures
        summary.archive_uuid == request.plan.archive_uuid,
        summary.session_id == request.plan.session_id,
        sink.volumes().len() == o.stripe_width,
        gives_back(
            d,
            codec,
            options,
            plan,
            subkeys,
            request.plan.root_auth is Some,
            sink.volumes(),
            runs_of(files),
        ),
{
    let dictionary = opt_bytes(request.dictionary);
    let caps = request.plan.caps;
    let root_auth = request.plan.root_auth;
    let collect = root_auth is Some;
    let (runs, answer) = choose|runs: Seq<SourceRun>, answer: FooterAnswer|
        #![trigger may_run_all(files, runs), plan_answers::<C, O, F>(codec, plan, subkeys, dictionary, runs, root_auth, authenticator, caps, answer)]
        may_run_all(files, runs) && plan_answers::<C, O, F>(
            codec,
            plan,
            subkeys,
            dictionary,
            runs,
            root_auth,
            authenticator,
            caps,
            answer,
        ) && finishes(
            calm,
            sink,
            plan_emission::<C, O>(codec, plan, subkeys, collect, dictionary, runs, caps, answer),
            plan.options.stripe_width,
            plan.archive_uuid,
            plan.session_id,
            Ok(summary),
        );
    assert(may_run_all(files, runs_of(files)));
    steady_runs_are_unique(files, runs, runs_of(files));
    passes_are_measured(codec, files, request, o, plan);
    passes_keep_the_request(codec, files, request, o, plan);
    let records = passes_capture(codec, files, request, o, plan);
    assert(undoes(d, codec, o, dictionary, plan.options));
    planned_archives_read_back::<C, O>(
        d,
        codec,
        plan,
        subkeys,
        collect,
        runs,
        records,
        o,
        dictionary,
        request.kdf_params@,
        request.plan,
        caps,
        answer,
    );
    let closed = plan_emission::<C, O>(
        codec,
        plan,
        subkeys,
        collect,
        dictionary,
        runs,
        caps,
        answer,
    )->Ok_0;
    let start = begun(
        codec,
        plan.options.stripe_width,
        plan.crypto_header.bytes,
        plan.key_wrap_table,
        plan.archive_uuid,
        plan.session_id,
        plan.volume_format_rev,
        collect,
    )->Ok_0;
    let seal = ArchiveSeal {
        subkeys,
        archive_uuid: plan.archive_uuid,
        session_id: plan.session_id,
    };
    the_index_reads_back::<C, O>(
        d,
        codec,
        o,
        plan,
        subkeys,
        collect,
        dictionary,
        runs,
        caps,
        answer,
        start,
        0,
    );
    assert forall|k: int| 0 <= k < plan.index_shard_objects.len() implies read_object(
        d,
        start.volumes,
        sink.volumes(),
        plan.options,
        seal.spec_context(
            ObjectDomain::IndexShard,
            (#[trigger] plan.index_shard_objects[k]).object_index,
            plan.options,
        ),
        plan.index_shard_objects[k].extent,
    ) == plan.index_shard_objects[k].compressed by {
        the_index_reads_back::<C, O>(
            d,
            codec,
            o,
            plan,
            subkeys,
            collect,
            dictionary,
            runs,
            caps,
            answer,
            start,
            k,
        );
    }
    assert forall|i: int| 0 <= i < runs.len() implies {
        &&& captured(codec, runs[i].described, options.max_path_length) == Ok::<PrimaryValue, FormatError>(
            (#[trigger] plan.members[i]).primary,
        )
        &&& reads_back(
            d,
            start.volumes,
            sink.volumes(),
            envelope_setting(replay_setting(codec, plan, subkeys)),
            plan.objects,
            plan.frames,
            plan.members[i],
            i,
            group_of(codec, options, runs[i]),
        )
    } by {
        assert(runs[i] == files[i].run());
        assert(group_of(codec, options, runs[i]) == group_of(codec, o, runs[i]));
    }
}

/// Whether an archive gives back the plan that it was written by.
pub open spec fn gives_back_its_plan<C: ArchiveCodec + MetadataProfile, S: RegularFileSource>(
    d: Decoder,
    codec: &C,
    files: Seq<S>,
    order: ArchiveOrder,
    options: WriterOptions,
    archive_uuid: [u8; 16],
    session_id: [u8; 16],
    volumes: Seq<Seq<u8>>,
) -> bool {
    exists|o: WriterOptions, plan: PlanValue|
        {
            &&& #[trigger] plans_pass(
                codec,
                files,
                order.spec_request(archive_uuid, session_id),
                o,
                Ok(plan),
            )
            &&& gives_back(
                d,
                codec,
                options,
                plan,
                keys_of(codec, order, plan),
                order.root_auth is Some,
                volumes,
                runs_of(files),
            )
        }
}

proof fn requests_read_back<
    C: ArchiveCodec + MetadataProfile,
    O: ArchiveWriteSink,
    S: RegularFileSource,
    F: FnOnce(&RootAuthSigningRequest) -> Result<Vec<u8>, FormatError>,
>(
    d: Decoder,
    codec: &C,
    files: Seq<S>,
    order: ArchiveOrder,
    archive_uuid: [u8; 16],
    session_id: [u8; 16],
    options: WriterOptions,
    requested: WriterOptions,
    authenticator: Option<F>,
    first: O,
    sink: O,
    summary: WrittenArchiveSummary,
)
    requires
        files.len() <= usize::MAX,
        forall|i: int| 0 <= i < files.len() ==> (#[trigger] files[i]).steady(),
        keeps_lengths(codec),
        undoes_throughout(d, codec, opt_bytes(order.dictionary), options.aead_algo),
        requested.aead_algo == options.aead_algo,
        requested.max_path_length == options.max_path_length,
        writes_archive(
            codec,
            files,
            order.spec_request(archive_uuid, session_id),
            requested,
            authenticator,
            first,
            sink,
            Ok(summary),
        ),
    ensures
        summary.archive_uuid == archive_uuid,
        summary.session_id == session_id,
        requested.target_volume_size is None ==> sink.volumes().len() == requested.stripe_width,
        gives_back_its_plan(
            d,
            codec,
            files,
            order,
            options,
            archive_uuid,
            session_id,
            sink.volumes(),
        ),
    decreases u32::MAX - requested.stripe_width,
{
    let request = order.spec_request(archive_uuid, session_id);
    let o = planned_options(requested, request.plan.caps)->Ok_0;
    let planned = choose|planned: Result<PlanValue, ArchiveWriteError>|
        {
            &&& #[trigger] plans_pass(codec, files, request, o, planned)
            &&& match planned {
                Err(_) => false,
                Ok(plan) => match wider(codec, request, o, plan) {
                    Err(_) => false,
                    Ok(Some(width)) => requested.stripe_width < width && writes_archive(
                        codec,
                        files,
                        request,
                        WriterOptions { stripe_width: width, ..requested },
                        authenticator,
                        first,
                        sink,
                        Ok(summary),
                    ),
                    Ok(None) => writes_plan(
                        codec,
                        files,
                        request,
                        plan,
                        authenticator,
                        first,
                        sink,
                        Ok(summary),
                    ),
                },
            }
        };
    let plan = planned->Ok_0;
    assert(plans_pass(codec, files, request, o, Ok(plan)));
    match wider(codec, request, o, plan)->Ok_0 {
        Some(width) => {
            requests_read_back(
                d,
                codec,
                files,
                order,
                archive_uuid,
                session_id,
                options,
                WriterOptions { stripe_width: width, ..requested },
                authenticator,
                first,
                sink,
                summary,
            );
        },
        None => {
            reveal(writes_plan);
            planned_options_obey_the_rules(requested, request.plan.caps);
            emissions_read_back(
                d,
                codec,
                files,
                request,
                options,
                o,
                plan,
                keys_of(codec, order, plan),
                authenticator,
                standing(first).undisturbed(standing(sink)),
                sink,
                summary,
            );
        },
    }
}

/// An archive that was written from steady sources gives back what they contributed: with a decoder
/// that undoes the codec, the tar records of each member, under its path, and the index are read
/// from the volumes in the sink, by the plan that the archive was written by.
pub proof fn written_archives_read_back<
    C: ArchiveCodec + MetadataProfile,
    O: ArchiveWriteSink,
    S: RegularFileSource,
    F: FnOnce(&RootAuthSigningRequest) -> Result<Vec<u8>, FormatError>,
>(
    d: Decoder,
    codec: &C,
    files: Seq<S>,
    order: ArchiveOrder,
    options: WriterOptions,
    authenticator: Option<F>,
    first: O,
    sink: O,
    summary: WrittenArchiveSummary,
)
    requires
        files.len() <= usize::MAX,
        forall|i: int| 0 <= i < files.len() ==> (#[trigger] files[i]).steady(),
        keeps_lengths(codec),
        undoes_throughout(d, codec, opt_bytes(order.dictionary), options.aead_algo),
        carries_out(codec, files, order, options, authenticator, first, sink, Ok(summary)),
    ensures
        may_identify(options.archive_uuid, summary.archive_uuid),
        may_identify(options.session_id, summary.session_id),
        options.target_volume_size is None ==> sink.volumes().len() == options.stripe_width,
        gives_back_its_plan(
            d,
            codec,
            files,
            order,
            options,
            summary.archive_uuid,
            summary.session_id,
            sink.volumes(),
        ),
{
    let (uuid, session) = choose|uuid: [u8; 16], session: [u8; 16]|
        {
            &&& #[trigger] may_identify(options.archive_uuid, uuid)
            &&& #[trigger] may_identify(options.session_id, session)
            &&& writes_archive(
                codec,
                files,
                order.spec_request(uuid, session),
                widened(options),
                authenticator,
                first,
                sink,
                Ok(summary),
            )
        };
    requests_read_back(
        d,
        codec,
        files,
        order,
        uuid,
        session,
        options,
        widened(options),
        authenticator,
        first,
        sink,
        summary,
    );
}

// ---------------------------------------------------------------------------------------------
// Archives in memory
// ---------------------------------------------------------------------------------------------

/// Whether a file is found under its path in the volumes of an archive, with its contents.
pub open spec fn file_reads_back<'a, C: ArchiveCodec + MetadataProfile>(
    d: Decoder,
    codec: &C,
    options: WriterOptions,
    plan: PlanValue,
    subkeys: Subkeys,
    collect: bool,
    volumes: Seq<Seq<u8>>,
    file: RegularFile<'a>,
    i: int,
) -> bool {
    let starts = begun(
        codec,
        plan.options.stripe_width,
        plan.crypto_header.bytes,
        plan.key_wrap_table,
        plan.archive_uuid,
        plan.session_id,
        plan.volume_format_rev,
        collect,
    )->Ok_0.volumes;
    &&& codec.normalized_path(file.path@, options.max_path_length) == Ok::<Seq<u8>, FormatError>(
        plan.members[i].primary.path,
    )
    &&& exists|group: Seq<u8>|
        {
            &&& #[trigger] reads_back(
                d,
                starts,
                volumes,
                envelope_setting(replay_setting(codec, plan, subkeys)),
                plan.objects,
                plan.frames,
                plan.members[i],
                i,
                group,
            )
            &&& data_in(group, file.contents@.len() as int) == file.contents@
        }
}

proof fn a_file_reads_back<'a, C: ArchiveCodec + MetadataProfile>(
    d: Decoder,
    codec: &C,
    options: WriterOptions,
    plan: PlanValue,
    subkeys: Subkeys,
    collect: bool,
    volumes: Seq<Seq<u8>>,
    files: Seq<RegularFile<'a>>,
    i: int,
)
    requires
        0 <= i < files.len(),
        gives_back(d, codec, options, plan, subkeys, collect, volumes, runs_of(files)),
        is_laid_out(codec, plan.members[i].primary),
    ensures
        file_reads_back(d, codec, options, plan, subkeys, collect, volumes, files[i], i),
{
    let runs = runs_of(files);
    assert(runs[i] == files[i].run());
    assert(captured(codec, runs[i].described, options.max_path_length) == Ok::<
        PrimaryValue,
        FormatError,
    >(plan.members[i].primary));
    groups_hold_the_contents(codec, options, files[i], plan.members[i].primary);
}

/// An archive in memory holds exactly the files that it was made of: its plan has a member for each
/// of them and no other, and with a decoder that undoes the codec each is read from the volumes,
/// under its path and with its contents. The bytes of the archive are its first volume, it has as many
/// volumes as were asked for where their size is not limited, and its identities are those that were
/// asked for, if any were.
pub proof fn archives_in_memory_read_back<
    'a,
    C: ArchiveCodec + MetadataProfile,
    F: FnOnce(&RootAuthSigningRequest) -> Result<Vec<u8>, FormatError>,
>(
    d: Decoder,
    codec: &C,
    files: Seq<RegularFile<'a>>,
    order: ArchiveOrder,
    options: WriterOptions,
    authenticator: Option<F>,
    archive: WrittenArchive,
)
    requires
        files.len() <= usize::MAX,
        keeps_lengths(codec),
        undoes_throughout(d, codec, opt_bytes(order.dictionary), options.aead_algo),
        archives(codec, files, order, options, authenticator, Ok(archive)),
    ensures
        archive.volumes@.len() > 0,
        archive.bytes@ == contents_of(archive.volumes@)[0],
        options.target_volume_size is None ==> archive.volumes@.len() == options.stripe_width,
        may_identify(options.archive_uuid, archive.archive_uuid),
        may_identify(options.session_id, archive.session_id),
        exists|o: WriterOptions, plan: PlanValue|
            {
                &&& #[trigger] plans_pass(
                    codec,
                    files,
                    order.spec_request(archive.archive_uuid, archive.session_id),
                    o,
                    Ok(plan),
                )
                &&& plan.members.len() == files.len()
                &&& forall|i: int|
                    0 <= i < files.len() ==> file_reads_back(
                        d,
                        codec,
                        options,
                        plan,
                        keys_of(codec, order, plan),
                        order.root_auth is Some,
                        contents_of(archive.volumes@),
                        #[trigger] files[i],
                        i,
                    )
            },
{
    reveal(archives);
    let (first, sink, written) = choose|
        first: MemoryArchiveSink,
        sink: MemoryArchiveSink,
        written: Result<WrittenArchiveSummary, ArchiveWriteError>,
    |
        {
            &&& #[trigger] carries_out(
                codec,
                files,
                order,
                options,
                authenticator,
                first,
                sink,
                written,
            )
            &&& is_written_archive(sink, written, Ok(archive))
        };
    let summary = written->Ok_0;
    let volumes = contents_of(archive.volumes@);
    written_archives_read_back(
        d,
        codec,
        files,
        order,
        options,
        authenticator,
        first,
        sink,
        summary,
    );
    let request = order.spec_request(archive.archive_uuid, archive.session_id);
    let (o, plan) = choose|o: WriterOptions, plan: PlanValue|
        {
            &&& #[trigger] plans_pass(codec, files, request, o, Ok(plan))
            &&& gives_back(
                d,
                codec,
                options,
                plan,
                keys_of(codec, order, plan),
                order.root_auth is Some,
                volumes,
                runs_of(files),
            )
        };
    let answer = passes_capture(codec, files, request, o, plan);
    assert forall|i: int| 0 <= i < files.len() implies file_reads_back(
        d,
        codec,
        options,
        plan,
        keys_of(codec, order, plan),
        order.root_auth is Some,
        volumes,
        #[trigger] files[i],
        i,
    ) by {
        assert(is_laid_out(codec, plan.members[i].primary));
        a_file_reads_back(
            d,
            codec,
            options,
            plan,
            keys_of(codec, order, plan),
            order.root_auth is Some,
            volumes,
            files,
            i,
        );
    }
}

// ---------------------------------------------------------------------------------------------
// Archives that were written while their sources were read
// ---------------------------------------------------------------------------------------------

/// Whether the volumes of an archive that was declared first give back each member, under its path,
/// by the frames and envelopes that a plan records.
pub open spec fn gives_members_back<C: ArchiveCodec + MetadataProfile>(
    d: Decoder,
    codec: &C,
    options: WriterOptions,
    declared: DeclaredValue,
    request: PlanRequest,
    plan: PlanValue,
    volumes: Seq<Seq<u8>>,
    runs: Seq<SourceRun>,
) -> bool {
    let starts = begun(
        codec,
        plan.options.stripe_width,
        declared.header.bytes,
        declared.table,
        request.archive_uuid,
        request.session_id,
        request.volume_format_rev,
        request.root_auth is Some,
    )->Ok_0.volumes;
    &&& plan.members.len() == runs.len()
    &&& forall|i: int|
        0 <= i < runs.len() ==> {
            &&& captured(codec, runs[i].described, options.max_path_length) == Ok::<
                PrimaryValue,
                FormatError,
            >((#[trigger] plan.members[i]).primary)
            &&& reads_back(
                d,
                starts,
                volumes,
                stream_setting(codec, declared, plan.options, request),
                plan.objects,
                plan.frames,
                plan.members[i],
                i,
                group_of(codec, options, runs[i]),
            )
        }
}

/// Whether an archive gives back what its sources contributed while it was written.
pub open spec fn gives_back_its_sources<C: ArchiveCodec + MetadataProfile, S: RegularFileSource>(
    d: Decoder,
    codec: &C,
    files: Seq<S>,
    options: WriterOptions,
    request: PlanRequest,
    volumes: Seq<Seq<u8>>,
) -> bool {
    exists|runs: Seq<SourceRun>, declared: DeclaredValue, payload: PayloadValue, next: u64, plan: PlanValue|
        {
            &&& #[trigger] may_run_all(files, runs)
            &&& #[trigger] is_plan(
                codec,
                payload,
                next,
                plan.options,
                None,
                declared.kdf,
                declared.table,
                request,
                Ok(plan),
            )
            &&& plan.crypto_header.bytes == declared.header.bytes
            &&& gives_members_back(d, codec, options, declared, request, plan, volumes, runs)
        }
}

/// A plan records the payload that it was made for.
proof fn plans_record_their_payload<C: ArchiveCodec + MetadataProfile>(
    codec: &C,
    payload: PayloadValue,
    next: u64,
    o: WriterOptions,
    kdf: KdfValue,
    table: Option<Seq<u8>>,
    request: PlanRequest,
    plan: PlanValue,
)
    requires
        is_plan(codec, payload, next, o, None, kdf, table, request, Ok(plan)),
    ensures
        plan.members == payload.members,
        plan.frames == payload.frames,
        plan.objects == payload.objects,
{
}

proof fn single_passes_keep_the_request(options: WriterOptions, caps: ReaderCaps)
    ensures
        planned_single_pass_options(options, caps) matches Ok(o) ==> {
            &&& o.block_size > 0
            &&& o.chunk_size > 0
            &&& o.stripe_width > 0
            &&& o.aead_algo == options.aead_algo
            &&& o.max_path_length == options.max_path_length
            &&& o.archive_uuid == options.archive_uuid
            &&& o.session_id == options.session_id
        },
{
    planned_options_obey_the_rules(options, caps);
}

proof fn declared_streams_read_back<
    C: ArchiveCodec + MetadataProfile,
    O: ArchiveWriteSink,
    S: RegularFileSource,
    F: FnOnce(&RootAuthSigningRequest) -> Result<Vec<u8>, FormatError>,
>(
    d: Decoder,
    codec: &C,
    files: Seq<S>,
    declared: DeclaredValue,
    options: WriterOptions,
    o: WriterOptions,
    request: PlanRequest,
    rule: &'static str,
    authenticator: Option<F>,
    calm: bool,
    sink: O,
    summary: WrittenArchiveSummary,
)
    requires
        files.len() <= usize::MAX,
        undoes_throughout(d, codec, None, o.aead_algo),
        o.block_size > 0,
        o.chunk_size > 0,
        o.stripe_width > 0,
        o.max_path_length == options.max_path_length,
        writes_declared::<C, O, S, StreamingArchiveWriter, F>(
            codec,
            files,
            declared,
            o,
            request,
            rule,
            authenticator,
            calm,
            sink,
            Ok(summary),
        ),
    ensures
        summary.archive_uuid == request.archive_uuid,
        summary.session_id == request.session_id,
        gives_back_its_sources(d, codec, files, options, request, sink.volumes()),
{
    reveal(writes_declared);
    let r = Ok::<WrittenArchiveSummary, ArchiveWriteError>(summary);
    let runs = choose|runs: Seq<SourceRun>|
        {
            &&& #[trigger] may_run_all(files, runs)
            &&& match sent_payload::<C, O, StreamingArchiveWriter>(codec, declared, o, request, runs) {
                Err(e) => r == Err::<WrittenArchiveSummary, ArchiveWriteError>(e),
                Ok(sent) => closes_stream(
                    codec,
                    finished_payload(sent.members, sent.value.pack).payload,
                    <StreamingArchiveWriter as PayloadWriter<C, O>>::completed(sent.value),
                    declared,
                    o,
                    request,
                    rule,
                    authenticator,
                    calm,
                    sink,
                    r,
                ),
            }
        };
    let sent = sent_payload::<C, O, StreamingArchiveWriter>(codec, declared, o, request, runs)->Ok_0;
    let payload = finished_payload(sent.members, sent.value.pack).payload;
    let e = <StreamingArchiveWriter as PayloadWriter<C, O>>::completed(sent.value);
    let planned = choose|planned: Result<PlanValue, FormatError>|
        {
            &&& #[trigger] is_plan(
                codec,
                payload,
                e.next_block_index,
                o,
                None,
                declared.kdf,
                declared.table,
                request,
                planned,
            )
            &&& match planned {
                Err(_) => false,
                Ok(plan) => plan.options == o && plan.crypto_header.bytes == declared.header.bytes
                    && closes_plan(
                    codec,
                    e,
                    plan,
                    declared,
                    request,
                    authenticator,
                    calm,
                    sink,
                    r,
                ),
            }
        };
    let plan = planned->Ok_0;
    let headers = volume_headers(
        codec,
        plan.options.stripe_width,
        declared.header.bytes,
        request.archive_uuid,
        request.session_id,
        request.volume_format_rev,
    );
    let answer = choose|answer: FooterAnswer|
        {
            &&& #[trigger] suffix_answers(
                codec,
                e,
                plan,
                declared.subkeys,
                request.volume_format_rev,
                request.root_auth,
                authenticator,
                request.caps,
                answer,
            )
            &&& finishes(
                calm,
                sink,
                match suffix_outcome(
                    codec,
                    e,
                    plan,
                    declared.subkeys,
                    headers,
                    request.volume_format_rev,
                    request.caps,
                    answer,
                ) {
                    Ok(closed) => Ok(closed),
                    Err(f) => Err(ArchiveWriteError::Format(f)),
                },
                plan.options.stripe_width,
                request.archive_uuid,
                request.session_id,
                r,
            )
        };
    assert(undoes(d, codec, o, None, o));
    streamed_archives_read_back::<C, O>(
        d,
        codec,
        declared,
        o,
        request,
        runs,
        plan,
        headers,
        request.caps,
        answer,
    );
    let start = begun(
        codec,
        o.stripe_width,
        declared.header.bytes,
        declared.table,
        request.archive_uuid,
        request.session_id,
        request.volume_format_rev,
        request.root_auth is Some,
    )->Ok_0;
    members_are_captured::<C, O, StreamingArchiveWriter>(
        codec,
        stream_setting(codec, declared, o, request),
        o,
        None,
        MembersValue {
            members: Seq::empty(),
            state: StreamValue { pack: nothing_packed(0), emission: start },
        },
        runs,
        runs.len(),
    );
    plans_record_their_payload(
        codec,
        payload,
        e.next_block_index,
        o,
        declared.kdf,
        declared.table,
        request,
        plan,
    );
    assert forall|i: int| 0 <= i < runs.len() implies {
        &&& captured(codec, runs[i].described, options.max_path_length) == Ok::<
            PrimaryValue,
            FormatError,
        >((#[trigger] plan.members[i]).primary)
        &&& reads_back(
            d,
            start.volumes,
            sink.volumes(),
            stream_setting(codec, declared, plan.options, request),
            plan.objects,
            plan.frames,
            plan.members[i],
            i,
            group_of(codec, options, runs[i]),
        )
    } by {
        assert(plan.members[i] == sent.members[i]);
        assert(group_of(codec, options, runs[i]) == group_of(codec, o, runs[i]));
    }
    assert(gives_members_back(d, codec, options, declared, request, plan, sink.volumes(), runs));
    assert(may_run_all(files, runs));
    assert(is_plan(
        codec,
        payload,
        e.next_block_index,
        plan.options,
        None,
        declared.kdf,
        declared.table,
        request,
        Ok(plan),
    ));
}

/// An archive that was written in one pass, while its sources were read, gives back what its sources
/// contributed: with a decoder that undoes the codec, the tar records of each member are read from
/// the volumes in the sink, under its path, by the frames and envelopes that its index records.
pub proof fn written_streams_read_back<
    C: ArchiveCodec + MetadataProfile,
    O: ArchiveWriteSink,
    S: RegularFileSource,
    F: FnOnce(&RootAuthSigningRequest) -> Result<Vec<u8>, FormatError>,
>(
    d: Decoder,
    codec: &C,
    files: Seq<S>,
    order: ArchiveOrder,
    options: WriterOptions,
    rule: &'static str,
    authenticator: Option<F>,
    first: O,
    sink: O,
    summary: WrittenArchiveSummary,
)
    requires
        files.len() <= usize::MAX,
        undoes_throughout(d, codec, None, options.aead_algo),
        carries_out_once::<C, O, S, StreamingArchiveWriter, F>(
            codec,
            files,
            order,
            options,
            rule,
            authenticator,
            first,
            sink,
            Ok(summary),
        ),
    ensures
        may_identify(options.archive_uuid, summary.archive_uuid),
        may_identify(options.session_id, summary.session_id),
        gives_back_its_sources(
            d,
            codec,
            files,
            options,
            order.spec_request(summary.archive_uuid, summary.session_id).plan,
            sink.volumes(),
        ),
{
    reveal(carries_out_once);
    let r = Ok::<WrittenArchiveSummary, ArchiveWriteError>(summary);
    let o = once_options(codec.spec_layout(), order, options)->Ok_0;
    single_passes_keep_the_request(options, order.caps);
    let (archive_uuid, session_id, answer) = choose|
        archive_uuid: [u8; 16],
        session_id: [u8; 16],
        answer: RecordsAnswer,
    |
        {
            &&& #[trigger] may_identify(o.archive_uuid, archive_uuid)
            &&& #[trigger] may_identify(o.session_id, session_id)
            &&& #[trigger] source_answers(order.key_wrap_records, answer)
            &&& match declared_outcome(codec, order, o, archive_uuid, session_id, answer) {
                Err(e) => false,
                Ok(declared) => writes_declared::<C, O, S, StreamingArchiveWriter, F>(
                    codec,
                    files,
                    declared,
                    o,
                    order.spec_request(archive_uuid, session_id).plan,
                    rule,
                    authenticator,
                    standing(first).undisturbed(standing(sink)),
                    sink,
                    r,
                ),
            }
        };
    declared_streams_read_back(
        d,
        codec,
        files,
        declared_outcome(codec, order, o, archive_uuid, session_id, answer)->Ok_0,
        options,
        o,
        order.spec_request(archive_uuid, session_id).plan,
        rule,
        authenticator,
        standing(first).undisturbed(standing(sink)),
        sink,
        summary,
    );
}

proof fn declared_ordered_streams_read_back<
    C: ArchiveCodec + MetadataProfile,
    O: ArchiveWriteSink,
    S: RegularFileSource,
    F: FnOnce(&RootAuthSigningRequest) -> Result<Vec<u8>, FormatError>,
>(
    d: Decoder,
    codec: &C,
    files: Seq<S>,
    declared: DeclaredValue,
    options: WriterOptions,
    o: WriterOptions,
    request: PlanRequest,
    rule: &'static str,
    authenticator: Option<F>,
    calm: bool,
    sink: O,
    summary: WrittenArchiveSummary,
)
    requires
        files.len() <= usize::MAX,
        undoes_throughout(d, codec, None, o.aead_algo),
        o.block_size > 0,
        o.chunk_size > 0,
        o.stripe_width > 0,
        o.max_path_length == options.max_path_length,
        writes_declared::<C, O, S, OrderedParallelState, F>(
            codec,
            files,
            declared,
            o,
            request,
            rule,
            authenticator,
            calm,
            sink,
            Ok(summary),
        ),
    ensures
        summary.archive_uuid == request.archive_uuid,
        summary.session_id == request.session_id,
        gives_back_its_sources(d, codec, files, options, request, sink.volumes()),
{
    reveal(writes_declared);
    let r = Ok::<WrittenArchiveSummary, ArchiveWriteError>(summary);
    let runs = choose|runs: Seq<SourceRun>|
        {
            &&& #[trigger] may_run_all(files, runs)
            &&& match sent_payload::<C, O, OrderedParallelState>(codec, declared, o, request, runs) {
                Err(e) => r == Err::<WrittenArchiveSummary, ArchiveWriteError>(e),
                Ok(sent) => closes_stream(
                    codec,
                    finished_payload(sent.members, sent.value.pack).payload,
                    <OrderedParallelState as PayloadWriter<C, O>>::completed(sent.value),
                    declared,
                    o,
                    request,
                    rule,
                    authenticator,
                    calm,
                    sink,
                    r,
                ),
            }
        };
    let sent = sent_payload::<C, O, OrderedParallelState>(codec, declared, o, request, runs)->Ok_0;
    let payload = finished_payload(sent.members, sent.value.pack).payload;
    let e = <OrderedParallelState as PayloadWriter<C, O>>::completed(sent.value);
    let planned = choose|planned: Result<PlanValue, FormatError>|
        {
            &&& #[trigger] is_plan(
                codec,
                payload,
                e.next_block_index,
                o,
                None,
                declared.kdf,
                declared.table,
                request,
                planned,
            )
            &&& match planned {
                Err(_) => false,
                Ok(plan) => plan.options == o && plan.crypto_header.bytes == declared.header.bytes
                    && closes_plan(
                    codec,
                    e,
                    plan,
                    declared,
                    request,
                    authenticator,
                    calm,
                    sink,
                    r,
                ),
            }
        };
    let plan = planned->Ok_0;
    let headers = volume_headers(
        codec,
        plan.options.stripe_width,
        declared.header.bytes,
        request.archive_uuid,
        request.session_id,
        request.volume_format_rev,
    );
    let answer = choose|answer: FooterAnswer|
        {
            &&& #[trigger] suffix_answers(
                codec,
                e,
                plan,
                declared.subkeys,
                request.volume_format_rev,
                request.root_auth,
                authenticator,
                request.caps,
                answer,
            )
            &&& finishes(
                calm,
                sink,
                match suffix_outcome(
                    codec,
                    e,
                    plan,
                    declared.subkeys,
                    headers,
                    request.volume_format_rev,
                    request.caps,
                    answer,
                ) {
                    Ok(closed) => Ok(closed),
                    Err(f) => Err(ArchiveWriteError::Format(f)),
                },
                plan.options.stripe_width,
                request.archive_uuid,
                request.session_id,
                r,
            )
        };
    assert(undoes(d, codec, apart(o), None, o));
    ordered_archives_read_back::<C, O>(
        d,
        codec,
        declared,
        o,
        request,
        runs,
        plan,
        headers,
        request.caps,
        answer,
    );
    let start = begun(
        codec,
        o.stripe_width,
        declared.header.bytes,
        declared.table,
        request.archive_uuid,
        request.session_id,
        request.volume_format_rev,
        request.root_auth is Some,
    )->Ok_0;
    members_are_captured::<C, O, OrderedParallelState>(
        codec,
        stream_setting(codec, declared, o, request),
        o,
        None,
        MembersValue {
            members: Seq::empty(),
            state: StreamValue { pack: nothing_packed(0), emission: start },
        },
        runs,
        runs.len(),
    );
    plans_record_their_payload(
        codec,
        payload,
        e.next_block_index,
        o,
        declared.kdf,
        declared.table,
        request,
        plan,
    );
    assert forall|i: int| 0 <= i < runs.len() implies {
        &&& captured(codec, runs[i].described, options.max_path_length) == Ok::<
            PrimaryValue,
            FormatError,
        >((#[trigger] plan.members[i]).primary)
        &&& reads_back(
            d,
            start.volumes,
            sink.volumes(),
            stream_setting(codec, declared, plan.options, request),
            plan.objects,
            plan.frames,
            plan.members[i],
            i,
            group_of(codec, options, runs[i]),
        )
    } by {
        assert(plan.members[i] == sent.members[i]);
        assert(group_of(codec, options, runs[i]) == group_of(codec, o, runs[i]));
    }
    assert(gives_members_back(d, codec, options, declared, request, plan, sink.volumes(), runs));
    assert(may_run_all(files, runs));
    assert(is_plan(
        codec,
        payload,
        e.next_block_index,
        plan.options,
        None,
        declared.kdf,
        declared.table,
        request,
        Ok(plan),
    ));
}

/// An archive that was written in one pass, from frames and envelopes that were made apart, gives back what its sources
/// contributed: with a decoder that undoes the codec, the tar records of each member are read from
/// the volumes in the sink, under its path, by the frames and envelopes that its index records.
pub proof fn written_ordered_streams_read_back<
    C: ArchiveCodec + MetadataProfile,
    O: ArchiveWriteSink,
    S: RegularFileSource,
    F: FnOnce(&RootAuthSigningRequest) -> Result<Vec<u8>, FormatError>,
>(
    d: Decoder,
    codec: &C,
    files: Seq<S>,
    order: ArchiveOrder,
    options: WriterOptions,
    rule: &'static str,
    authenticator: Option<F>,
    first: O,
    sink: O,
    summary: WrittenArchiveSummary,
)
    requires
        files.len() <= usize::MAX,
        undoes_throughout(d, codec, None, options.aead_algo),
        carries_out_once::<C, O, S, OrderedParallelState, F>(
            codec,
            files,
            order,
            options,
            rule,
            authenticator,
            first,
            sink,
            Ok(summary),
        ),
    ensures
        may_identify(options.archive_uuid, summary.archive_uuid),
        may_identify(options.session_id, summary.session_id),
        gives_back_its_sources(
            d,
            codec,
            files,
            options,
            order.spec_request(summary.archive_uuid, summary.session_id).plan,
            sink.volumes(),
        ),
{
    reveal(carries_out_once);
    let r = Ok::<WrittenArchiveSummary, ArchiveWriteError>(summary);
    let o = once_options(codec.spec_layout(), order, options)->Ok_0;
    single_passes_keep_the_request(options, order.caps);
    let (archive_uuid, session_id, answer) = choose|
        archive_uuid: [u8; 16],
        session_id: [u8; 16],
        answer: RecordsAnswer,
    |
        {
            &&& #[trigger] may_identify(o.archive_uuid, archive_uuid)
            &&& #[trigger] may_identify(o.session_id, session_id)
            &&& #[trigger] source_answers(order.key_wrap_records, answer)
            &&& match declared_outcome(codec, order, o, archive_uuid, session_id, answer) {
                Err(e) => false,
                Ok(declared) => writes_declared::<C, O, S, OrderedParallelState, F>(
                    codec,
                    files,
                    declared,
                    o,
                    order.spec_request(archive_uuid, session_id).plan,
                    rule,
                    authenticator,
                    standing(first).undisturbed(standing(sink)),
                    sink,
                    r,
                ),
            }
        };
    declared_ordered_streams_read_back(
        d,
        codec,
        files,
        declared_outcome(codec, order, o, archive_uuid, session_id, answer)->Ok_0,
        options,
        o,
        order.spec_request(archive_uuid, session_id).plan,
        rule,
        authenticator,
        standing(first).undisturbed(standing(sink)),
        sink,
        summary,
    );
}

} // verus!
