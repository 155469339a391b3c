//! Whole archives: every object survives the loss of volumes, and every volume begins and ends as a
//! reader needs it.
use crate::accounting::{
    blocks_keep_the_balance, body_keeps_the_balance, in_balance, keeps_its_layout,
};
use crate::archive::{plan_emission, plan_payload_emission, replay_setting};
use crate::codec::{ArchiveCodec, ObjectDomain, WireLayout};
use crate::emit::{begun, begun_archives_are_accounted, Emission};
use crate::errors::FormatError;
use crate::foresight::same_but_root_class;
use crate::index_reading::the_index_is_stored;
use crate::keys::{KdfValue, Subkeys};
use crate::objects::{body_outcome, ArchiveSeal};
use crate::options::{ReaderCaps, WriterOptions};
use crate::plan::{PlanRequest, PlanValue};
use crate::planning::{is_source_plan, payload_outcome, RecordsAnswer};
use crate::profile::MetadataProfile;
use crate::readback::{
    blocks_are_found_in_their_volumes, closing_only_adds, envelope_setting, envelopes_are_written,
    envelopes_stand_in_line, payload_blocks, sealed_envelope, the_body_only_adds,
    two_passes_write_every_envelope,
};
use crate::reading::{
    begins_with_payload, blocks_read_back, payload_blocks_are_numbered, sealed_objects_are_whole,
    undoes, written_envelopes_leave_order, Decoder,
};
use crate::recovery::{
    are_left, blocks_are_readable, objects_survive_lost_volumes, rebuilds, rebuilt_object,
    rots_within_its_share, stored_blocks_are_readable, Rebuilder,
};
use crate::restoration::{
    begins_with_headers, closed_volumes_end_well, ends_well, lies_at, part_or_nothing, VolumeEnd,
};
use crate::root_auth::PayloadObject;
use crate::seek::{envelope_bytes, joined_groups, members_are_found_again};
use crate::shard::PayloadFrame;
use crate::sink::ArchiveWriteSink;
use crate::sizes::{is_measured, keeps_lengths};
use crate::source::SourceRun;
use crate::streaming::StreamSetting;
use crate::suffix::{with_tail, with_tails, FooterAnswer};
use vstd::prelude::*;

verus! {

// ---------------------------------------------------------------------------------------------
// Envelopes
// ---------------------------------------------------------------------------------------------

/// The blocks of every envelope of a payload are read back, those of parity too.
#[verifier::rlimit(40)]
#[verifier::spinoff_prover]
pub proof fn envelope_blocks_are_readable<C: ArchiveCodec>(
    d: Decoder,
    codec: &C,
    o: WriterOptions,
    dictionary: Option<Seq<u8>>,
    s: StreamSetting,
    start: Emission,
    stream: Seq<u8>,
    frames: Seq<PayloadFrame>,
    objects: Seq<PayloadObject>,
    closed: Emission,
    k: int,
)
    requires
        undoes(d, codec, o, dictionary, s.options),
        s.options.block_size > 0,
        begins_with_payload(
            codec,
            o,
            dictionary,
            s,
            start,
            stream,
            frames,
            objects,
            closed,
        ),
        0 <= k < objects.len(),
    ensures
        sealed_envelope(
            codec,
            o,
            dictionary,
            s,
            stream,
            frames,
            k,
            objects[k].object.first_block_index,
        ) matches Ok(x) && x.extent == objects[k].object && blocks_are_readable(
            d,
            start.volumes,
            closed.volumes,
            s.options,
            objects[k].object,
            x.records,
        ),
{
    blocks_read_back(d, codec, o, dictionary, s, start, stream, frames, objects, closed);
    reveal(begins_with_payload);
    let e = choose|e: Emission| #[trigger]
        envelopes_are_written(codec, o, dictionary, s, start, stream, frames, objects, e)
            && crate::readback::holds_all(e, closed, s.options.stripe_width);
    reveal(envelopes_are_written);
    let payload = envelope_bytes(codec, o, dictionary, stream, frames, frames.len(), k);
    let context = s.seal.spec_context(ObjectDomain::Envelope, k as u64, s.options);
    let first = objects[k].object.first_block_index;
    sealed_objects_are_whole(d, codec, o, dictionary, s.options, payload, context, first);
    let x = sealed_envelope(codec, o, dictionary, s, stream, frames, k, first)->Ok_0;
    let all = payload_blocks(
        codec,
        o,
        dictionary,
        s,
        stream,
        frames,
        objects,
        objects.len(),
    );
    payload_blocks_are_numbered(
        d,
        codec,
        o,
        dictionary,
        s,
        stream,
        frames,
        objects,
        k as nat,
    );
    envelopes_stand_in_line(
        codec,
        o,
        dictionary,
        s,
        stream,
        frames,
        objects,
        objects.len(),
        k,
    );
    assert forall|j: int| 0 <= j < x.records.len() implies crate::reading::read_block(
        d,
        start.volumes,
        closed.volumes,
        s.options,
        first + j,
    ).payload == (#[trigger] x.records[j]).payload by {
        assert(all.subrange(first as int, first + x.records.len())[j] == all[first + j]);
        assert(all[first + j] == x.records[j]);
    }
}

// ---------------------------------------------------------------------------------------------
// Archives
// ---------------------------------------------------------------------------------------------

/// Whether every object of a plan is rebuilt from what is left of its volumes: each envelope of the
/// payload, and the root and the shards of the index. Each may lose blocks to rot on top, within its
/// share.
pub open spec fn survives<C: ArchiveCodec>(
    d: Decoder,
    b: Rebuilder,
    codec: &C,
    o: WriterOptions,
    dictionary: Option<Seq<u8>>,
    plan: PlanValue,
    subkeys: Subkeys,
    starts: Seq<Seq<u8>>,
    damaged: Seq<Seq<u8>>,
    stream: Seq<u8>,
    lost: Seq<int>,
) -> bool {
    let seal = ArchiveSeal {
        subkeys,
        archive_uuid: plan.archive_uuid,
        session_id: plan.session_id,
    };
    let p = plan.options;
    &&& forall|k: int, rotten: Set<int>|
        0 <= k < plan.objects.len() && #[trigger] rots_within_its_share(
            p,
            plan.objects[k].object,
            rotten,
        ) ==> rebuilt_object(
            d,
            b,
            starts,
            damaged,
            p,
            seal.spec_context(ObjectDomain::Envelope, k as u64, p),
            plan.objects[k].object,
            lost,
            rotten,
        ) == envelope_bytes(codec, o, dictionary, stream, plan.frames, plan.frames.len(), k)
    &&& forall|rotten: Set<int>| #[trigger]
        rots_within_its_share(p, plan.index_root_extent, rotten) ==> rebuilt_object(
            d,
            b,
            starts,
            damaged,
            p,
            seal.spec_context(ObjectDomain::IndexRoot, 0, p),
            plan.index_root_extent,
            lost,
            rotten,
        ) == plan.compressed_index_root
    &&& forall|k: int, rotten: Set<int>|
        0 <= k < plan.index_shard_objects.len() && #[trigger] rots_within_its_share(
            p,
            plan.index_shard_objects[k].extent,
            rotten,
        ) ==> rebuilt_object(
            d,
            b,
            starts,
            damaged,
            p,
            seal.spec_context(
                ObjectDomain::IndexShard,
                plan.index_shard_objects[k].object_index,
                p,
            ),
            plan.index_shard_objects[k].extent,
            lost,
            rotten,
        ) == plan.index_shard_objects[k].compressed
}

/// An archive that is planned and then written survives the loss of as many volumes as it tolerates,
/// and the rot of the share of blocks that it tolerates besides: with a decoder that undoes the codec
/// and a rebuilder that makes use of its parity, every envelope of the payload and the whole index are
/// rebuilt from the volumes that are left.
#[verifier::rlimit(60)]
#[verifier::spinoff_prover]
pub proof fn archives_survive_lost_volumes<C: ArchiveCodec + MetadataProfile, O: ArchiveWriteSink>(
    d: Decoder,
    b: Rebuilder,
    codec: &C,
    plan: PlanValue,
    subkeys: Subkeys,
    collect: bool,
    runs: Seq<SourceRun>,
    records: RecordsAnswer,
    o: WriterOptions,
    dictionary: Option<Seq<u8>>,
    kdf: KdfValue,
    request: PlanRequest,
    caps: ReaderCaps,
    answer: FooterAnswer,
    damaged: Seq<Seq<u8>>,
    lost: Seq<int>,
)
    requires
        o.block_size > 0,
        o.chunk_size > 0,
        o.stripe_width > 0,
        runs.len() <= usize::MAX,
        keeps_lengths(codec),
        rebuilds(b, codec),
        is_measured(plan, codec.spec_layout()),
        is_source_plan(codec, runs, records, o, dictionary, kdf, request, Ok(plan)),
        undoes(d, codec, o, dictionary, plan.options),
        lost.len() <= o.volume_loss_tolerance,
        forall|k: int| 0 <= k < lost.len() ==> 0 <= #[trigger] lost[k] < o.stripe_width,
    ensures
        plan_emission::<C, O>(codec, plan, subkeys, collect, dictionary, runs, caps, answer)
            matches Ok(closed) ==> (are_left(closed.emission.volumes, damaged, lost) ==> survives(
            d,
            b,
            codec,
            o,
            dictionary,
            plan,
            subkeys,
            begun(
                codec,
                plan.options.stripe_width,
                plan.crypto_header.bytes,
                plan.key_wrap_table,
                plan.archive_uuid,
                plan.session_id,
                plan.volume_format_rev,
                collect,
            )->Ok_0.volumes,
            damaged,
            joined_groups(codec, o, runs, runs.len()),
            lost,
        )),
{
    if let Ok(closed) = plan_emission::<C, O>(
        codec,
        plan,
        subkeys,
        collect,
        dictionary,
        runs,
        caps,
        answer,
    ) {
        let e = plan_payload_emission::<C, O>(
            codec,
            plan,
            subkeys,
            collect,
            dictionary,
            runs,
        )->Ok_0;
        let start = begun(
            codec,
            plan.options.stripe_width,
            plan.crypto_header.bytes,
            plan.key_wrap_table,
            plan.archive_uuid,
            plan.session_id,
            plan.volume_format_rev,
            collect,
        )->Ok_0;
        let s = envelope_setting(replay_setting(codec, plan, subkeys));
        let stream = joined_groups(codec, o, runs, runs.len());
        let planned = payload_outcome(codec, runs, o, dictionary)->Ok_0;
        assert(plan.frames == planned.payload.frames);
        assert(plan.objects == planned.payload.objects);
        assert(same_but_root_class(o, plan.options));
        members_are_found_again(codec, o, dictionary, runs);
        two_passes_write_every_envelope::<C, O>(
            codec,
            plan,
            subkeys,
            collect,
            runs,
            records,
            o,
            dictionary,
            kdf,
            request,
        );
        written_envelopes_leave_order(
            codec,
            o,
            dictionary,
            s,
            start,
            stream,
            plan.frames,
            plan.objects,
            e,
        );
        closing_only_adds(
            codec,
            e,
            plan,
            subkeys,
            replay_setting(codec, plan, subkeys).headers,
            plan.volume_format_rev,
            caps,
            answer,
        );
        assert(begins_with_payload(
            codec,
            o,
            dictionary,
            s,
            start,
            stream,
            plan.frames,
            plan.objects,
            closed.emission,
        )) by {
            reveal(begins_with_payload);
        }
        let p = plan.options;
        let volumes = closed.emission.volumes;
        let offset = plan.block_records_offset as int;
        begun_archives_are_accounted(
            codec,
            p.stripe_width,
            plan.crypto_header.bytes,
            plan.key_wrap_table,
            plan.archive_uuid,
            plan.session_id,
            plan.volume_format_rev,
            collect,
            start,
        );
        assert forall|v: int| 0 <= v < p.stripe_width implies (#[trigger] start.volumes[v]).len()
            == offset by {
            assert(start.bytes_written[v] == start.volumes[v].len());
        }
        if are_left(volumes, damaged, lost) {
            let seal = ArchiveSeal {
                subkeys,
                archive_uuid: plan.archive_uuid,
                session_id: plan.session_id,
            };
            assert forall|k: int, rotten: Set<int>|
                0 <= k < plan.objects.len() && #[trigger] rots_within_its_share(
                    p,
                    plan.objects[k].object,
                    rotten,
                ) implies rebuilt_object(
                d,
                b,
                start.volumes,
                damaged,
                p,
                seal.spec_context(ObjectDomain::Envelope, k as u64, p),
                plan.objects[k].object,
                lost,
                rotten,
            ) == envelope_bytes(codec, o, dictionary, stream, plan.frames, plan.frames.len(), k) by {
                envelope_blocks_are_readable(
                    d,
                    codec,
                    o,
                    dictionary,
                    s,
                    start,
                    stream,
                    plan.frames,
                    plan.objects,
                    closed.emission,
                    k,
                );
                objects_survive_lost_volumes(
                    d,
                    b,
                    codec,
                    o,
                    dictionary,
                    start.volumes,
                    volumes,
                    damaged,
                    p,
                    envelope_bytes(codec, o, dictionary, stream, plan.frames, plan.frames.len(), k),
                    seal.spec_context(ObjectDomain::Envelope, k as u64, p),
                    plan.objects[k].object,
                    lost,
                    rotten,
                );
            }
            the_index_survives::<C, O>(
                d,
                b,
                codec,
                plan,
                subkeys,
                collect,
                o,
                dictionary,
                runs,
                caps,
                answer,
                start,
                damaged,
                lost,
            );
        }
    }
}

proof fn the_index_survives<C: ArchiveCodec + MetadataProfile, O: ArchiveWriteSink>(
    d: Decoder,
    b: Rebuilder,
    codec: &C,
    plan: PlanValue,
    subkeys: Subkeys,
    collect: bool,
    o: WriterOptions,
    dictionary: Option<Seq<u8>>,
    runs: Seq<SourceRun>,
    caps: ReaderCaps,
    answer: FooterAnswer,
    start: Emission,
    damaged: Seq<Seq<u8>>,
    lost: Seq<int>,
)
    requires
        keeps_lengths(codec),
        rebuilds(b, codec),
        is_measured(plan, codec.spec_layout()),
        undoes(d, codec, o, dictionary, plan.options),
        lost.len() <= plan.options.volume_loss_tolerance,
        forall|k: int|
            0 <= k < lost.len() ==> 0 <= #[trigger] lost[k] < plan.options.stripe_width,
        forall|v: int|
            0 <= v < plan.options.stripe_width ==> (#[trigger] start.volumes[v]).len()
                == plan.block_records_offset,
        plan_emission::<C, O>(codec, plan, subkeys, collect, dictionary, runs, caps, answer)
            matches Ok(closed) && are_left(closed.emission.volumes, damaged, lost)
            && closed.emission.volumes.len() == plan.options.stripe_width,
    ensures
        ({
            let p = plan.options;
            let seal = ArchiveSeal {
                subkeys,
                archive_uuid: plan.archive_uuid,
                session_id: plan.session_id,
            };
            &&& forall|rotten: Set<int>| #[trigger]
                rots_within_its_share(p, plan.index_root_extent, rotten) ==> rebuilt_object(
                    d,
                    b,
                    start.volumes,
                    damaged,
                    p,
                    seal.spec_context(ObjectDomain::IndexRoot, 0, p),
                    plan.index_root_extent,
                    lost,
                    rotten,
                ) == plan.compressed_index_root
            &&& forall|k: int, rotten: Set<int>|
                0 <= k < plan.index_shard_objects.len() && #[trigger] rots_within_its_share(
                    p,
                    plan.index_shard_objects[k].extent,
                    rotten,
                ) ==> rebuilt_object(
                    d,
                    b,
                    start.volumes,
                    damaged,
                    p,
                    seal.spec_context(
                        ObjectDomain::IndexShard,
                        plan.index_shard_objects[k].object_index,
                        p,
                    ),
                    plan.index_shard_objects[k].extent,
                    lost,
                    rotten,
                ) == plan.index_shard_objects[k].compressed
        }),
{
    let closed = plan_emission::<C, O>(
        codec,
        plan,
        subkeys,
        collect,
        dictionary,
        runs,
        caps,
        answer,
    )->Ok_0;
    let p = plan.options;
    let volumes = closed.emission.volumes;
    let offset = plan.block_records_offset as int;
    let seal = ArchiveSeal {
        subkeys,
        archive_uuid: plan.archive_uuid,
        session_id: plan.session_id,
    };
    the_index_is_stored::<C, O>(
        codec,
        plan,
        subkeys,
        collect,
        dictionary,
        runs,
        caps,
        answer,
        0,
    );
    let root_context = seal.spec_context(ObjectDomain::IndexRoot, 0, p);
    stored_blocks_are_readable(
        d,
        codec,
        o,
        dictionary,
        start.volumes,
        volumes,
        p,
        offset,
        plan.compressed_index_root,
        root_context,
        plan.index_root_extent,
    );
    assert forall|rotten: Set<int>| #[trigger]
        rots_within_its_share(p, plan.index_root_extent, rotten) implies rebuilt_object(
        d,
        b,
        start.volumes,
        damaged,
        p,
        root_context,
        plan.index_root_extent,
        lost,
        rotten,
    ) == plan.compressed_index_root by {
        objects_survive_lost_volumes(
            d,
            b,
            codec,
            o,
            dictionary,
            start.volumes,
            volumes,
            damaged,
            p,
            plan.compressed_index_root,
            root_context,
            plan.index_root_extent,
            lost,
            rotten,
        );
    }
    assert forall|k: int, rotten: Set<int>|
        0 <= k < plan.index_shard_objects.len() && #[trigger] rots_within_its_share(
            p,
            plan.index_shard_objects[k].extent,
            rotten,
        ) implies rebuilt_object(
        d,
        b,
        start.volumes,
        damaged,
        p,
        seal.spec_context(
            ObjectDomain::IndexShard,
            plan.index_shard_objects[k].object_index,
            p,
        ),
        plan.index_shard_objects[k].extent,
        lost,
        rotten,
    ) == plan.index_shard_objects[k].compressed by {
        let shard = plan.index_shard_objects[k];
        let context = seal.spec_context(ObjectDomain::IndexShard, shard.object_index, p);
        the_index_is_stored::<C, O>(
            codec,
            plan,
            subkeys,
            collect,
            dictionary,
            runs,
            caps,
            answer,
            k,
        );
        stored_blocks_are_readable(
            d,
            codec,
            o,
            dictionary,
            start.volumes,
            volumes,
            p,
            offset,
            shard.compressed,
            context,
            shard.extent,
        );
        objects_survive_lost_volumes(
            d,
            b,
            codec,
            o,
            dictionary,
            start.volumes,
            volumes,
            damaged,
            p,
            shard.compressed,
            context,
            shard.extent,
            lost,
            rotten,
        );
    }
}

// ---------------------------------------------------------------------------------------------
// Volumes
// ---------------------------------------------------------------------------------------------

/// Closing one volume leaves the others alone.
proof fn tails_stay_apart<C: ArchiveCodec>(
    codec: &C,
    e: Emission,
    plan: PlanValue,
    subkeys: Subkeys,
    header: Seq<u8>,
    footer: Option<Seq<u8>>,
    caps: ReaderCaps,
    w: int,
    v: int,
)
    requires
        e.wf(plan.options.stripe_width),
        0 <= w < plan.options.stripe_width,
        0 <= v < plan.options.stripe_width,
        v != w,
    ensures
        with_tail(codec, e, plan, subkeys, header, footer, caps, w) matches Ok(after) ==> {
            &&& after.wf(plan.options.stripe_width)
            &&& after.volumes[v] == e.volumes[v]
            &&& after.bytes_written[v] == e.bytes_written[v]
            &&& after.record_counts[v] == e.record_counts[v]
        },
{
}

/// Whether a volume ends well, with the blocks in front of its manifest footer.
pub open spec fn volume_ends_well<C: ArchiveCodec>(
    codec: &C,
    volume: Seq<u8>,
    end: VolumeEnd,
    plan: PlanValue,
    subkeys: Subkeys,
    footer: Option<Seq<u8>>,
    v: int,
    caps: ReaderCaps,
) -> bool {
    ends_well(
        codec,
        volume,
        end,
        plan,
        subkeys,
        footer,
        v,
        caps,
        end.trailer.manifest_footer_offset as int,
        end.trailer.block_count,
    )
}

proof fn all_tails_end_well<C: ArchiveCodec>(
    codec: &C,
    e: Emission,
    plan: PlanValue,
    subkeys: Subkeys,
    headers: Seq<Seq<u8>>,
    footer: Option<Seq<u8>>,
    caps: ReaderCaps,
    count: nat,
    v: int,
)
    requires
        keeps_its_layout(codec),
        in_balance(e, plan.options.stripe_width),
        count <= plan.options.stripe_width,
        0 <= v < plan.options.stripe_width,
        begins_with_headers(
            e.volumes[v],
            codec.spec_layout(),
            headers[v],
            plan.crypto_header.bytes,
            plan.key_wrap_table,
        ),
        footer matches Some(bytes) ==> bytes.len() <= u32::MAX,
    ensures
        with_tails(codec, e, plan, subkeys, headers, footer, caps, count) matches Ok(after) ==> {
            &&& after.wf(plan.options.stripe_width)
            &&& v >= count ==> after.volumes[v] == e.volumes[v] && after.bytes_written[v]
                == e.bytes_written[v] && after.record_counts[v] == e.record_counts[v]
            &&& v < count ==> exists|end: VolumeEnd| #[trigger]
                volume_ends_well(codec, after.volumes[v], end, plan, subkeys, footer, v, caps)
        },
    decreases count,
{
    if count > 0 {
        let n = (count - 1) as nat;
        all_tails_end_well(codec, e, plan, subkeys, headers, footer, caps, n, v);
        if let Ok(after) = with_tails(codec, e, plan, subkeys, headers, footer, caps, count) {
            let before = with_tails(codec, e, plan, subkeys, headers, footer, caps, n)->Ok_0;
            let w = n as int;
            if v != w {
                tails_stay_apart(
                    codec,
                    before,
                    plan,
                    subkeys,
                    headers[w],
                    footer,
                    caps,
                    w,
                    v,
                );
                if v < n {
                    let end = choose|end: VolumeEnd| #[trigger]
                        volume_ends_well(
                            codec,
                            before.volumes[v],
                            end,
                            plan,
                            subkeys,
                            footer,
                            v,
                            caps,
                        );
                    assert(volume_ends_well(
                        codec,
                        after.volumes[v],
                        end,
                        plan,
                        subkeys,
                        footer,
                        v,
                        caps,
                    ));
                }
            } else {
                assert(e.bytes_written[v] == e.volumes[v].len());
                closed_volumes_end_well(
                    codec,
                    before,
                    plan,
                    subkeys,
                    headers[v],
                    footer,
                    caps,
                    v,
                );
                let end = choose|end: VolumeEnd| #[trigger]
                    ends_well(
                        codec,
                        after.volumes[v],
                        end,
                        plan,
                        subkeys,
                        footer,
                        v,
                        caps,
                        before.volumes[v].len() as int,
                        before.record_counts[v],
                    );
                assert(volume_ends_well(
                    codec,
                    after.volumes[v],
                    end,
                    plan,
                    subkeys,
                    footer,
                    v,
                    caps,
                ));
                assert(after.wf(plan.options.stripe_width));
            }
        }
    }
}

proof fn starts_are_headers<C: ArchiveCodec>(
    codec: &C,
    plan: PlanValue,
    subkeys: Subkeys,
    collect: bool,
    start: Emission,
    v: int,
)
    requires
        keeps_its_layout(codec),
        0 <= v < plan.options.stripe_width,
        begun(
            codec,
            plan.options.stripe_width,
            plan.crypto_header.bytes,
            plan.key_wrap_table,
            plan.archive_uuid,
            plan.session_id,
            plan.volume_format_rev,
            collect,
        ) == Ok::<Emission, FormatError>(start),
    ensures
        begins_with_headers(
            start.volumes[v],
            codec.spec_layout(),
            replay_setting(codec, plan, subkeys).headers[v],
            plan.crypto_header.bytes,
            plan.key_wrap_table,
        ),
{
    let header = replay_setting(codec, plan, subkeys).headers[v];
    let volume = start.volumes[v];
    let heads = header + plan.crypto_header.bytes + part_or_nothing(plan.key_wrap_table);
    assert(volume =~= heads);
    assert(volume.subrange(0, heads.len() as int) =~= heads);
}

proof fn headers_stay(
    before: Seq<u8>,
    after: Seq<u8>,
    layout: WireLayout,
    header: Seq<u8>,
    crypto_header: Seq<u8>,
    table: Option<Seq<u8>>,
)
    requires
        begins_with_headers(before, layout, header, crypto_header, table),
        before.is_prefix_of(after),
    ensures
        begins_with_headers(after, layout, header, crypto_header, table),
{
    let heads = header + crypto_header + part_or_nothing(table);
    assert(lies_at(before, 0, heads));
    assert(after.subrange(0, heads.len() as int) =~= before.subrange(0, heads.len() as int));
}

/// Every volume of an archive that is planned and then written begins with its headers and ends well:
/// a reader finds its way from either end, and the recovery area of the volume repeats what it stands
/// for.
#[verifier::rlimit(60)]
pub proof fn volumes_begin_and_end_well<C: ArchiveCodec + MetadataProfile, O: ArchiveWriteSink>(
    codec: &C,
    plan: PlanValue,
    subkeys: Subkeys,
    collect: bool,
    runs: Seq<SourceRun>,
    records: RecordsAnswer,
    o: WriterOptions,
    dictionary: Option<Seq<u8>>,
    kdf: KdfValue,
    request: PlanRequest,
    caps: ReaderCaps,
    answer: FooterAnswer,
    v: int,
)
    requires
        keeps_its_layout(codec),
        o.block_size > 0,
        o.chunk_size > 0,
        o.stripe_width > 0,
        runs.len() <= usize::MAX,
        is_source_plan(codec, runs, records, o, dictionary, kdf, request, Ok(plan)),
        0 <= v < plan.options.stripe_width,
    ensures
        plan_emission::<C, O>(codec, plan, subkeys, collect, dictionary, runs, caps, answer)
            matches Ok(closed) ==> {
            &&& answer is Ok
            &&& begins_with_headers(
                closed.emission.volumes[v],
                codec.spec_layout(),
                replay_setting(codec, plan, subkeys).headers[v],
                plan.crypto_header.bytes,
                plan.key_wrap_table,
            )
            &&& exists|end: VolumeEnd| #[trigger]
                volume_ends_well(
                    codec,
                    closed.emission.volumes[v],
                    end,
                    plan,
                    subkeys,
                    answer->Ok_0,
                    v,
                    caps,
                )
        },
{
    if let Ok(closed) = plan_emission::<C, O>(
        codec,
        plan,
        subkeys,
        collect,
        dictionary,
        runs,
        caps,
        answer,
    ) {
        let width = plan.options.stripe_width;
        let e = plan_payload_emission::<C, O>(
            codec,
            plan,
            subkeys,
            collect,
            dictionary,
            runs,
        )->Ok_0;
        let start = begun(
            codec,
            width,
            plan.crypto_header.bytes,
            plan.key_wrap_table,
            plan.archive_uuid,
            plan.session_id,
            plan.volume_format_rev,
            collect,
        )->Ok_0;
        let s = envelope_setting(replay_setting(codec, plan, subkeys));
        let headers = replay_setting(codec, plan, subkeys).headers;
        let stream = joined_groups(codec, o, runs, runs.len());
        let rev = plan.volume_format_rev;
        two_passes_write_every_envelope::<C, O>(
            codec,
            plan,
            subkeys,
            collect,
            runs,
            records,
            o,
            dictionary,
            kdf,
            request,
        );
        reveal(envelopes_are_written);
        let blocks = payload_blocks(
            codec,
            o,
            dictionary,
            s,
            stream,
            plan.frames,
            plan.objects,
            plan.objects.len(),
        );
        let moved = Emission { next_block_index: e.next_block_index, ..start };
        begun_archives_are_accounted(
            codec,
            width,
            plan.crypto_header.bytes,
            plan.key_wrap_table,
            plan.archive_uuid,
            plan.session_id,
            rev,
            collect,
            start,
        );
        assert(in_balance(moved, width));
        blocks_are_found_in_their_volumes(codec, moved, width, s.rev, blocks, blocks.len());
        blocks_keep_the_balance(codec, moved, width, s.rev, blocks, blocks.len());
        assert(e.volumes[v].take(start.volumes[v].len() as int) == start.volumes[v]);
        assert(start.volumes[v].is_prefix_of(e.volumes[v])) by {
            assert(e.volumes[v].subrange(0, start.volumes[v].len() as int) =~= e.volumes[v].take(
                start.volumes[v].len() as int,
            ));
        }
        starts_are_headers(codec, plan, subkeys, collect, start, v);
        headers_stay(
            start.volumes[v],
            e.volumes[v],
            codec.spec_layout(),
            headers[v],
            plan.crypto_header.bytes,
            plan.key_wrap_table,
        );
        let seal = ArchiveSeal {
            subkeys,
            archive_uuid: plan.archive_uuid,
            session_id: plan.session_id,
        };
        the_body_only_adds(codec, e, plan, seal, rev);
        body_keeps_the_balance(codec, e, plan, seal, rev);
        let body = body_outcome(codec, e, plan, seal, rev)->Ok_0;
        assert(e.volumes[v].is_prefix_of(body.emission.volumes[v]));
        headers_stay(
            e.volumes[v],
            body.emission.volumes[v],
            codec.spec_layout(),
            headers[v],
            plan.crypto_header.bytes,
            plan.key_wrap_table,
        );
        let footer = answer->Ok_0;
        all_tails_end_well(
            codec,
            body.emission,
            plan,
            subkeys,
            headers,
            footer,
            caps,
            width as nat,
            v,
        );
        closing_only_adds(codec, e, plan, subkeys, headers, rev, caps, answer);
        assert(e.volumes[v].is_prefix_of(closed.emission.volumes[v]));
        headers_stay(
            e.volumes[v],
            closed.emission.volumes[v],
            codec.spec_layout(),
            headers[v],
            plan.crypto_header.bytes,
            plan.key_wrap_table,
        );
    }
}

} // verus!
