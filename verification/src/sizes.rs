//! The volumes that are written have the sizes that were planned.
use crate::accounting::{
    a_member_keeps, frames_keep, in_balance, keeps_its_layout, tail_keeps_the_balance,
};
use crate::archive::{finishes, plan_answers, plan_emission, plan_payload_emission, replay_setting};
use crate::arith::spec_ceil_div;
use crate::capture::{captured, prepared};
use crate::cmra::{
    area_of_image, cmra_image, cmra_outcome, cmra_parity, cmra_regions, data_shard, data_shards,
    shard_bounds, written_shard, written_shards, CMRA_SHARD_SIZE,
};
use crate::codec::{ArchiveCodec, ObjectDomain, WireLayout};
use crate::emit::{
    begun, begun_archives_are_accounted, volume_header, volume_start_len, with_block, with_blocks,
    with_object, Emission,
};
use crate::errors::{ArchiveWriteError, FormatError};
use crate::headers::trailer_outcome;
use crate::ids::may_identify;
use crate::index_plan::MetadataObjectValue;
use crate::key_wrap::{key_wrap_outcome, source_answers};
use crate::keys::{KdfValue, Subkeys};
use crate::members::may_run_all;
use crate::object_plan::{blocks_on_volume, MetadataObjectKind, ObjectExtent};
use crate::objects::{body_outcome, with_dictionary, with_metadata_objects, ArchiveSeal};
use crate::options::{
    opt_bytes, planned_options, planned_options_obey_the_rules, ReaderCaps, WriterOptions,
};
use crate::payload::FramePlace;
use crate::plan::{is_plan, root_auth_length, subkeys_outcome, PayloadValue, PlanRequest, PlanValue};
use crate::planning::{is_source_plan, payload_outcome, RecordsAnswer};
use crate::profile::MetadataProfile;
use crate::replay::{
    flushed_replay, nothing_replayed, replayed_frame, replayed_member, replayed_members,
    PayloadReplay, ReplaySetting, ReplayValue,
};
use crate::root_auth::{ROOT_AUTH_CHECKSUM_LEN, RootAuthSigningRequest};
use crate::seal::{encrypted_outcome, piece, pieces, ObjectEncryptionContext};
use crate::sink::{standing, ArchiveWriteSink};
use crate::source::{RegularFileSource, SourceRun};
use crate::stream::feed_of;
use crate::suffix::{
    cmra_input, plan_manifest, trailer_input, with_footer, with_part, with_tail, with_tails,
    FooterAnswer, TailOffsets, WrittenArchiveSummary,
};
use crate::two_pass::{
    carries_out, plans_pass, widened, wider, writes_archive, writes_from_sources, writes_plan,
    ArchiveOrder, ArchiveRequest,
};
use crate::volume_size::{
    accepted_widths_meet_the_target, blank_footer, block_record_len, planned_offsets, volume_blocks,
    volume_outcome,
};
use crate::wire::{BlockValue, CriticalMetadataLayout, Record, RegionValue, RootAuthFooterValue};
use vstd::prelude::*;

verus! {

// ---------------------------------------------------------------------------------------------
// Codecs that keep to lengths
// ---------------------------------------------------------------------------------------------

/// Whether regions are as long as others, one by one.
pub open spec fn same_lengths(a: Seq<RegionValue>, b: Seq<RegionValue>) -> bool {
    &&& a.len() == b.len()
    &&& forall|i: int| 0 <= i < a.len() ==> (#[trigger] a[i]).bytes.len() == b[i].bytes.len()
}

/// Whether the length of what a codec gives is settled by the lengths of what it is given: records
/// and blocks are as long as the layout says, there are as many parity shards as asked for, each
/// as long as a data shard, and images and recovery shards of parts of one length are of one
/// length.
pub open spec fn keeps_lengths<C: ArchiveCodec>(codec: &C) -> bool {
    &&& keeps_its_layout(codec)
    &&& forall|block: BlockValue| (#[trigger] codec.block_bytes(block)).len() == block.payload.len()
        + codec.spec_layout().block_record_framing
    &&& forall|shards: Seq<Seq<u8>>, count: nat| #[trigger]
        codec.parity(shards, count) matches Ok(parity) ==> (shards.len() > 0 ==> parity.len()
            == count && forall|i: int|
            0 <= i < count ==> (#[trigger] parity[i]).len() == shards[0].len())
    &&& forall|
        a: CriticalMetadataLayout,
        b: CriticalMetadataLayout,
        r: Seq<RegionValue>,
        s: Seq<RegionValue>,
    |
        #![trigger codec.image_bytes(a, r), codec.image_bytes(b, s)]
        same_lengths(r, s) ==> match (codec.image_bytes(a, r), codec.image_bytes(b, s)) {
            (Ok(x), Ok(y)) => x.len() == y.len(),
            _ => true,
        }
    &&& forall|i: u16, role: u8, fill: u32, a: Seq<u8>, j: u16, other_role: u8, other_fill: u32, b: Seq<u8>|
        #![trigger codec.recovery_shard_bytes(i, role, fill, a), codec.recovery_shard_bytes(j, other_role, other_fill, b)]
        a.len() == b.len() ==> match (
            codec.recovery_shard_bytes(i, role, fill, a),
            codec.recovery_shard_bytes(j, other_role, other_fill, b),
        ) {
            (Ok(x), Ok(y)) => x.len() == y.len(),
            _ => true,
        }
}

// ---------------------------------------------------------------------------------------------
// Blocks and objects
// ---------------------------------------------------------------------------------------------

/// Whether each volume holds, behind a start of `offset` bytes, its share of the first `blocks`
/// blocks and nothing else.
pub open spec fn is_filled(
    e: Emission,
    o: WriterOptions,
    layout: WireLayout,
    offset: int,
    blocks: int,
) -> bool {
    &&& in_balance(e, o.stripe_width)
    &&& forall|v: int|
        #![trigger e.volumes[v]]
        #![trigger e.record_counts[v]]
        0 <= v < o.stripe_width ==> {
            &&& e.record_counts[v] == blocks_on_volume(0, blocks, o.stripe_width as int, v)
            &&& e.volumes[v].len() == offset + e.record_counts[v] * block_record_len(
                o,
                layout,
            )
        }
}

pub(crate) proof fn a_block_fills<C: ArchiveCodec>(
    codec: &C,
    e: Emission,
    o: WriterOptions,
    rev: u16,
    block: BlockValue,
    offset: int,
)
    requires
        is_filled(e, o, codec.spec_layout(), offset, block.block_index as int),
        codec.block_bytes(block).len() == block_record_len(o, codec.spec_layout()),
    ensures
        with_block(codec, e, o.stripe_width, rev, block) matches Ok(after) ==> {
            &&& is_filled(after, o, codec.spec_layout(), offset, block.block_index + 1)
            &&& after.next_block_index == e.next_block_index
        },
{
    crate::emit::blocks_go_home(codec, e, o.stripe_width, rev, block);
    if let Ok(after) = with_block(codec, e, o.stripe_width, rev, block) {
        let len = block_record_len(o, codec.spec_layout());
        let w = o.stripe_width as int;
        let n = block.block_index as int;
        let home = crate::emit::home_volume(block.block_index, o.stripe_width);
        assert forall|v: int|
            #![trigger after.volumes[v]]
            #![trigger after.record_counts[v]]
            0 <= v < o.stripe_width implies {
            &&& after.record_counts[v] == blocks_on_volume(0, n + 1, w, v)
            &&& after.volumes[v].len() == offset + after.record_counts[v] * len
        } by {
            assert(e.volumes[v].len() == offset + e.record_counts[v] * len);
            assert((e.record_counts[v] + 1) * len == e.record_counts[v] * len + len)
                by (nonlinear_arith);
            if v != home {
                assert(after.volumes[v] == e.volumes[v]);
            }
        }
    }
}

pub(crate) proof fn blocks_fill<C: ArchiveCodec>(
    codec: &C,
    e: Emission,
    o: WriterOptions,
    rev: u16,
    blocks: Seq<BlockValue>,
    offset: int,
    first: int,
    count: nat,
)
    requires
        count <= blocks.len(),
        is_filled(e, o, codec.spec_layout(), offset, first),
        forall|i: int|
            0 <= i < blocks.len() ==> (#[trigger] blocks[i]).block_index == first + i
                && codec.block_bytes(blocks[i]).len() == block_record_len(o, codec.spec_layout()),
    ensures
        with_blocks(codec, e, o.stripe_width, rev, blocks, count) matches Ok(after) ==> {
            &&& is_filled(after, o, codec.spec_layout(), offset, first + count)
            &&& after.next_block_index == e.next_block_index
        },
    decreases count,
{
    if count > 0 {
        blocks_fill(codec, e, o, rev, blocks, offset, first, (count - 1) as nat);
        if let Ok(before) = with_blocks(
            codec,
            e,
            o.stripe_width,
            rev,
            blocks,
            (count - 1) as nat,
        ) {
            assert(blocks[count - 1].block_index == first + count - 1);
            a_block_fills(codec, before, o, rev, blocks[count - 1], offset);
        }
    }
}

/// Whether an archive in the making holds its blocks and nothing else.
pub open spec fn holds_blocks(e: Emission, o: WriterOptions, layout: WireLayout, offset: int) -> bool {
    is_filled(e, o, layout, offset, e.next_block_index as int)
}

/// The blocks of a sealed object are numbered from its first one on, and of one length.
pub(crate) proof fn object_blocks_are_numbered<C: ArchiveCodec>(
    codec: &C,
    payload: Seq<u8>,
    context: ObjectEncryptionContext,
    o: WriterOptions,
    first: u64,
)
    requires
        keeps_lengths(codec),
        o.block_size > 0,
    ensures
        encrypted_outcome(codec, payload, context, first, o) matches Ok(object) ==> {
            &&& object.records.len() == object.extent.total()
            &&& first + object.extent.total() <= u64::MAX
            &&& forall|i: int|
                0 <= i < object.records.len() ==> (#[trigger] object.records[i]).block_index == first
                    + i && codec.block_bytes(object.records[i]).len() == block_record_len(
                    o,
                    codec.spec_layout(),
                )
        },
{
    if let Ok(object) = encrypted_outcome(codec, payload, context, first, o) {
        let sealed = crate::seal::sealed_payload(codec, payload, context, o)->Ok_0;
        let size = o.block_size as int;
        let n = sealed.len() as int / size;
        let p = crate::seal::sealed_parity_count(sealed, context, o)->Ok_0;
        let shards = pieces(sealed, size, n);
        let parity = crate::seal::object_parity_shards(codec, shards, p as nat)->Ok_0;
        vstd::arithmetic::div_mod::lemma_fundamental_div_mod(sealed.len() as int, size);
        assert forall|i: int| 0 <= i < n implies (#[trigger] piece(sealed, size, i)).len() == size by {
            assert(0 <= i * size && i * size + size == (i + 1) * size && (i + 1) * size <= size * n)
                by (nonlinear_arith)
                requires
                    0 <= i < n,
                    size > 0,
            ;
        }
        assert(n > 0);
        assert(shards[0] == piece(sealed, size, 0));
        assert(parity.len() == p);
        assert forall|i: int| 0 <= i < object.records.len() implies (
        #[trigger] object.records[i]).block_index == first + i && codec.block_bytes(
            object.records[i],
        ).len() == block_record_len(o, codec.spec_layout()) by {
            if i < n {
                assert(object.records[i].payload == piece(sealed, size, i));
            } else {
                assert(object.records[i].payload == parity[i - n]);
            }
        }
    }
}

pub(crate) proof fn an_object_fills<C: ArchiveCodec>(
    codec: &C,
    e: Emission,
    payload: Seq<u8>,
    context: ObjectEncryptionContext,
    o: WriterOptions,
    expected: ObjectExtent,
    kind: Option<MetadataObjectKind>,
    rev: u16,
    offset: int,
)
    requires
        keeps_lengths(codec),
        o.block_size > 0,
        holds_blocks(e, o, codec.spec_layout(), offset),
    ensures
        with_object(codec, e, payload, context, o, expected, kind, rev) matches Ok(w) ==> {
            &&& holds_blocks(w.emission, o, codec.spec_layout(), offset)
            &&& w.emission.next_block_index == expected.first_block_index + expected.total()
        },
{
    if let Ok(w) = with_object(codec, e, payload, context, o, expected, kind, rev) {
        let object = encrypted_outcome(codec, payload, context, e.next_block_index, o)->Ok_0;
        let first = e.next_block_index as int;
        object_blocks_are_numbered(codec, payload, context, o, e.next_block_index);
        let moved = Emission {
            next_block_index: (e.next_block_index + object.extent.total()) as u64,
            ..e
        };
        assert(is_filled(moved, o, codec.spec_layout(), offset, first)) by {
            assert forall|v: int|
                #![trigger moved.volumes[v]]
                #![trigger moved.record_counts[v]]
                0 <= v < o.stripe_width implies {
                &&& moved.record_counts[v] == blocks_on_volume(0, first, o.stripe_width as int, v)
                &&& moved.volumes[v].len() == offset + moved.record_counts[v]
                    * block_record_len(o, codec.spec_layout())
            } by {
                assert(e.volumes[v].len() == moved.volumes[v].len());
            }
        }
        blocks_fill(
            codec,
            moved,
            o,
            rev,
            object.records,
            offset,
            first,
            object.records.len(),
        );
    }
}

// ---------------------------------------------------------------------------------------------
// Payload and metadata
// ---------------------------------------------------------------------------------------------

pub(crate) proof fn metadata_fills<C: ArchiveCodec>(
    codec: &C,
    e: Emission,
    objects: Seq<MetadataObjectValue>,
    domain: ObjectDomain,
    seal: ArchiveSeal,
    o: WriterOptions,
    rev: u16,
    count: nat,
    offset: int,
)
    requires
        keeps_lengths(codec),
        o.block_size > 0,
        holds_blocks(e, o, codec.spec_layout(), offset),
    ensures
        with_metadata_objects(codec, e, objects, domain, seal, o, rev, count) matches Ok(after)
            ==> holds_blocks(after, o, codec.spec_layout(), offset),
    decreases count,
{
    if count > 0 {
        metadata_fills(codec, e, objects, domain, seal, o, rev, (count - 1) as nat, offset);
        if let Ok(before) = with_metadata_objects(
            codec,
            e,
            objects,
            domain,
            seal,
            o,
            rev,
            (count - 1) as nat,
        ) {
            let object = objects[count - 1];
            an_object_fills(
                codec,
                before,
                object.compressed,
                seal.spec_context(domain, object.object_index, o),
                o,
                object.extent,
                None,
                rev,
                offset,
            );
        }
    }
}

proof fn the_body_fills<C: ArchiveCodec>(
    codec: &C,
    e: Emission,
    plan: PlanValue,
    seal: ArchiveSeal,
    rev: u16,
    offset: int,
)
    requires
        keeps_lengths(codec),
        plan.options.block_size > 0,
        holds_blocks(e, plan.options, codec.spec_layout(), offset),
    ensures
        body_outcome(codec, e, plan, seal, rev) matches Ok(body) ==> is_filled(
            body.emission,
            plan.options,
            codec.spec_layout(),
            offset,
            plan.index_root_extent.first_block_index + plan.index_root_extent.total(),
        ),
{
    let o = plan.options;
    if let Ok(body) = body_outcome(codec, e, plan, seal, rev) {
        let shards = with_metadata_objects(
            codec,
            e,
            plan.index_shard_objects,
            ObjectDomain::IndexShard,
            seal,
            o,
            rev,
            plan.index_shard_objects.len(),
        )->Ok_0;
        metadata_fills(
            codec,
            e,
            plan.index_shard_objects,
            ObjectDomain::IndexShard,
            seal,
            o,
            rev,
            plan.index_shard_objects.len(),
            offset,
        );
        if let (Some(compressed), Some((extent, _))) = (
            plan.compressed_dictionary,
            plan.dictionary_extent,
        ) {
            an_object_fills(
                codec,
                shards,
                compressed,
                seal.spec_context(ObjectDomain::Dictionary, 0, o),
                o,
                extent,
                Some(MetadataObjectKind::Dictionary),
                rev,
                offset,
            );
        }
        let dictionary = with_dictionary(codec, shards, plan, seal, rev)->Ok_0;
        metadata_fills(
            codec,
            dictionary.emission,
            plan.directory_hint_objects,
            ObjectDomain::DirectoryHint,
            seal,
            o,
            rev,
            plan.directory_hint_objects.len(),
            offset,
        );
        let hints = with_metadata_objects(
            codec,
            dictionary.emission,
            plan.directory_hint_objects,
            ObjectDomain::DirectoryHint,
            seal,
            o,
            rev,
            plan.directory_hint_objects.len(),
        )->Ok_0;
        an_object_fills(
            codec,
            hints,
            plan.compressed_index_root,
            seal.spec_context(ObjectDomain::IndexRoot, 0, o),
            o,
            plan.index_root_extent,
            Some(MetadataObjectKind::IndexRoot),
            rev,
            offset,
        );
    }
}

proof fn a_flush_fills<C: ArchiveCodec>(codec: &C, s: ReplaySetting, r: ReplayValue, offset: int)
    requires
        keeps_lengths(codec),
        s.plan.options.block_size > 0,
        holds_blocks(r.emission, s.plan.options, codec.spec_layout(), offset),
    ensures
        flushed_replay(codec, s, r) matches Ok(next) ==> holds_blocks(
            next.emission,
            s.plan.options,
            codec.spec_layout(),
            offset,
        ),
{
    if r.envelope_index < s.plan.objects.len() {
        an_object_fills(
            codec,
            r.emission,
            r.plaintext,
            s.seal.spec_context(ObjectDomain::Envelope, r.envelope_index, s.plan.options),
            s.plan.options,
            s.plan.objects[r.envelope_index as int].object,
            None,
            s.rev,
            offset,
        );
    }
}

proof fn the_payload_fills<C: ArchiveCodec + MetadataProfile, O: ArchiveWriteSink>(
    codec: &C,
    s: ReplaySetting,
    p: ReplayValue,
    dictionary: Option<Seq<u8>>,
    runs: Seq<SourceRun>,
    count: nat,
    offset: int,
)
    requires
        keeps_lengths(codec),
        s.plan.options.block_size > 0,
        holds_blocks(p.emission, s.plan.options, codec.spec_layout(), offset),
    ensures
        replayed_members::<C, O>(codec, s, p, dictionary, runs, count) matches Ok(q)
            ==> holds_blocks(q.emission, s.plan.options, codec.spec_layout(), offset),
    decreases count,
{
    if count > 0 {
        the_payload_fills::<C, O>(codec, s, p, dictionary, runs, (count - 1) as nat, offset);
        if let Ok(b) = replayed_members::<C, O>(
            codec,
            s,
            p,
            dictionary,
            runs,
            (count - 1) as nat,
        ) {
            reveal(replayed_member);
            let layout = codec.spec_layout();
            let keeps = |r: ReplayValue| holds_blocks(r.emission, s.plan.options, layout, offset);
            assert(frames_keep::<C, O, PayloadReplay<'static>>(codec, s, keeps)) by {
                assert forall|
                    r: ReplayValue,
                    chunk: Seq<u8>,
                    frame: Seq<u8>,
                    place: FramePlace,
                |
                    keeps(r) implies (#[trigger] replayed_frame(codec, s, r, chunk, frame, place)
                    matches Ok(next) ==> keeps(next)) by {
                    a_flush_fills(codec, s, r, offset);
                }
            }
            let run = runs[count - 1];
            let member = s.plan.members[count - 1];
            if let Ok(v) = captured(codec, run.described, s.plan.options.max_path_length) {
                if let Ok(laid_out) = prepared(codec, v) {
                    a_member_keeps::<C, O, PayloadReplay<'static>>(
                        codec,
                        s,
                        b,
                        s.plan.options,
                        dictionary,
                        feed_of(laid_out.sections, run),
                        FramePlace {
                            member_index: (count - 1) as usize,
                            member_start: member.tar_member_group_start,
                            member_offset: 0,
                            member_group_size: member.tar_member_group_size,
                        },
                        0,
                        keeps,
                    );
                }
            }
        }
    }
}

// ---------------------------------------------------------------------------------------------
// The ends of volumes
// ---------------------------------------------------------------------------------------------

proof fn written_shards_are_of_one_length<C: ArchiveCodec>(
    codec: &C,
    a: Seq<u8>,
    b: Seq<u8>,
    data_count: int,
    parity: Seq<Seq<u8>>,
    other_parity: Seq<Seq<u8>>,
    count: nat,
)
    requires
        keeps_lengths(codec),
        a.len() == b.len(),
        data_count == spec_ceil_div(a.len() as int, CMRA_SHARD_SIZE as int),
        forall|i: int|
            data_count <= i < count ==> (#[trigger] parity[i - data_count]).len() == other_parity[i
                - data_count].len(),
    ensures
        match (
            written_shards(codec, a, data_count, parity, count),
            written_shards(codec, b, data_count, other_parity, count),
        ) {
            (Ok(x), Ok(y)) => x.len() == y.len(),
            _ => true,
        },
    decreases count,
{
    if count > 0 {
        written_shards_are_of_one_length(
            codec,
            a,
            b,
            data_count,
            parity,
            other_parity,
            (count - 1) as nat,
        );
        let i = count - 1;
        if i < data_count {
            shard_bounds(a.len() as int, i);
            assert(data_shard(a, i).len() == data_shard(b, i).len());
        } else {
            assert(parity[i - data_count].len() == other_parity[i - data_count].len());
        }
        assert(match (
            written_shard(codec, a, data_count, parity, i),
            written_shard(codec, b, data_count, other_parity, i),
        ) {
            (Ok(x), Ok(y)) => x.len() == y.len(),
            _ => true,
        });
    }
}

/// Recovery areas over images of one length are of one length.
proof fn areas_are_of_one_length<C: ArchiveCodec>(
    codec: &C,
    a: Seq<u8>,
    b: Seq<u8>,
    bit_rot_pct: u8,
    max_pct: u8,
    archive_uuid: [u8; 16],
    session_id: [u8; 16],
    volume_index: u32,
)
    requires
        keeps_lengths(codec),
        a.len() == b.len(),
    ensures
        match (
            area_of_image(codec, a, bit_rot_pct, max_pct, archive_uuid, session_id, volume_index),
            area_of_image(codec, b, bit_rot_pct, max_pct, archive_uuid, session_id, volume_index),
        ) {
            (Ok(x), Ok(y)) => x.bytes.len() == y.bytes.len(),
            _ => true,
        },
{
    let n = spec_ceil_div(a.len() as int, CMRA_SHARD_SIZE as int);
    let lower = cmra_parity(n, bit_rot_pct as int);
    let shards = data_shards(a, n);
    let other_shards = data_shards(b, n);
    if let (Ok(parity), Ok(other_parity)) = (
        codec.parity(shards, lower as nat),
        codec.parity(other_shards, lower as nat),
    ) {
        if n > 0 {
            shard_bounds(a.len() as int, 0);
            assert(shards[0] == data_shard(a, 0) && other_shards[0] == data_shard(b, 0));
        } else {
            assert(shards =~= other_shards);
        }
        assert forall|i: int| n <= i < n + lower implies (#[trigger] parity[i - n]).len()
            == other_parity[i - n].len() by {
            if n > 0 {
                assert(other_parity[i - n].len() == other_shards[0].len());
            }
        }
        written_shards_are_of_one_length(
            codec,
            a,
            b,
            n,
            parity,
            other_parity,
            (n + lower) as nat,
        );
    }
}

/// Whether a footer is there if one was planned, and as long.
pub open spec fn is_planned_footer(plan: PlanValue, footer: Option<Seq<u8>>) -> bool {
    match (footer, plan.root_auth_footer_length) {
        (None, None) => true,
        (Some(bytes), Some(length)) => bytes.len() == length,
        _ => false,
    }
}

pub open spec fn header_of<C: ArchiveCodec>(codec: &C, plan: PlanValue, volume: int) -> Seq<u8> {
    codec.encoded(
        Record::VolumeHeader(
            volume_header(
                codec.spec_layout(),
                plan.options.stripe_width,
                plan.crypto_header.bytes.len() as int,
                plan.archive_uuid,
                plan.session_id,
                plan.volume_format_rev,
                volume,
            ),
        ),
    )
}

/// The end of a volume takes it to its planned size, and touches no other.
#[verifier::rlimit(60)]
#[verifier::spinoff_prover]
proof fn a_tail_has_its_size<C: ArchiveCodec>(
    codec: &C,
    e: Emission,
    plan: PlanValue,
    subkeys: Subkeys,
    footer: Option<Seq<u8>>,
    caps: ReaderCaps,
    volume: int,
)
    requires
        keeps_lengths(codec),
        in_balance(e, plan.options.stripe_width),
        0 <= volume < plan.options.stripe_width,
        e.record_counts[volume] == volume_blocks(plan, volume),
        e.bytes_written[volume] == plan.block_records_offset + volume_blocks(plan, volume)
            * block_record_len(plan.options, codec.spec_layout()),
        is_planned_footer(plan, footer),
        volume_outcome(codec, plan, subkeys, caps, volume) is Ok,
    ensures
        with_tail(
            codec,
            e,
            plan,
            subkeys,
            header_of(codec, plan, volume),
            footer,
            caps,
            volume,
        ) matches Ok(after) ==> {
            &&& Ok::<u64, FormatError>(after.bytes_written[volume]) == volume_outcome(
                codec,
                plan,
                subkeys,
                caps,
                volume,
            )
            &&& after.record_counts == e.record_counts
            &&& forall|v: int|
                0 <= v < plan.options.stripe_width && v != volume ==> #[trigger] after.bytes_written[v]
                    == e.bytes_written[v]
        },
{
    if let Ok(after) = with_tail(
        codec,
        e,
        plan,
        subkeys,
        header_of(codec, plan, volume),
        footer,
        caps,
        volume,
    ) {
        let layout = codec.spec_layout();
        let index = volume as u32;
        let count = volume_blocks(plan, volume);
        let offsets = planned_offsets(plan, layout, count)->Ok_0;
        let manifest = plan_manifest(codec, plan, subkeys, index)->Ok_0;
        let blank = blank_footer(plan);
        let input = trailer_input(plan, subkeys, index, count, offsets, blank);
        let e1 = with_part(e, volume, manifest, "ManifestFooter")->Ok_0;
        let e2 = with_footer(e1, volume, footer)->Ok_0;
        let root_auth = if footer is Some {
            Some(e1.bytes_written[volume])
        } else {
            None
        };
        let early = TailOffsets {
            manifest: e.bytes_written[volume],
            root_auth,
            trailer: e2.bytes_written[volume],
            cmra: 0,
        };
        assert(early.manifest == offsets.manifest && early.trailer == offsets.trailer
            && early.root_auth == offsets.root_auth);
        assert(trailer_input(plan, subkeys, index, count, early, footer) == input);
        let trailer = trailer_outcome(codec, input)->Ok_0;
        assert(trailer.len() == layout.volume_trailer);
        let planned = cmra_input(
            plan,
            index,
            count,
            header_of(codec, plan, volume),
            manifest,
            blank,
            trailer,
            offsets,
        );
        let built = cmra_input(
            plan,
            index,
            count,
            header_of(codec, plan, volume),
            manifest,
            footer,
            trailer,
            offsets,
        );
        assert(same_lengths(cmra_regions(planned, layout), cmra_regions(built, layout)));
        let a = cmra_image(codec, planned)->Ok_0;
        let b = cmra_image(codec, built)->Ok_0;
        assert(cmra_outcome(codec, planned, caps.max_cmra_parity_pct) is Ok);
        assert(cmra_outcome(codec, built, caps.max_cmra_parity_pct) is Ok);
        assert(a.len() == b.len());
        areas_are_of_one_length(
            codec,
            a,
            b,
            plan.options.bit_rot_buffer_pct,
            caps.max_cmra_parity_pct,
            plan.archive_uuid,
            plan.session_id,
            index,
        );
    }
}

proof fn tails_have_their_sizes<C: ArchiveCodec>(
    codec: &C,
    e: Emission,
    plan: PlanValue,
    subkeys: Subkeys,
    headers: Seq<Seq<u8>>,
    footer: Option<Seq<u8>>,
    caps: ReaderCaps,
    count: nat,
)
    requires
        keeps_lengths(codec),
        count <= plan.options.stripe_width,
        is_filled(
            e,
            plan.options,
            codec.spec_layout(),
            plan.block_records_offset as int,
            plan.total_block_count as int,
        ),
        is_planned_footer(plan, footer),
        forall|v: int|
            0 <= v < plan.options.stripe_width ==> (#[trigger] volume_outcome(
                codec,
                plan,
                subkeys,
                caps,
                v,
            )) is Ok,
        forall|v: int|
            0 <= v < plan.options.stripe_width ==> #[trigger] headers[v] == header_of(
                codec,
                plan,
                v,
            ),
    ensures
        with_tails(codec, e, plan, subkeys, headers, footer, caps, count) matches Ok(after) ==> {
            &&& in_balance(after, plan.options.stripe_width)
            &&& after.record_counts == e.record_counts
            &&& forall|v: int|
                0 <= v < count ==> Ok::<u64, FormatError>(#[trigger] after.bytes_written[v])
                    == volume_outcome(codec, plan, subkeys, caps, v)
            &&& forall|v: int|
                count <= v < plan.options.stripe_width ==> #[trigger] after.bytes_written[v]
                    == e.bytes_written[v]
        },
    decreases count,
{
    if count > 0 {
        let last = count - 1;
        tails_have_their_sizes(
            codec,
            e,
            plan,
            subkeys,
            headers,
            footer,
            caps,
            last as nat,
        );
        if let Ok(before) = with_tails(
            codec,
            e,
            plan,
            subkeys,
            headers,
            footer,
            caps,
            last as nat,
        ) {
            assert(headers[last] == header_of(codec, plan, last));
            assert(volume_outcome(codec, plan, subkeys, caps, last) is Ok);
            assert(before.bytes_written[last] == e.bytes_written[last]);
            assert(e.bytes_written[last] == e.volumes[last].len());
            assert(e.record_counts[last] == volume_blocks(plan, last));
            tail_keeps_the_balance(
                codec,
                before,
                plan,
                subkeys,
                headers[last],
                footer,
                caps,
                last,
            );
            a_tail_has_its_size(codec, before, plan, subkeys, footer, caps, last);
            if let Ok(after) = with_tails(codec, e, plan, subkeys, headers, footer, caps, count) {
                assert forall|v: int| 0 <= v < count implies Ok::<u64, FormatError>(
                    #[trigger] after.bytes_written[v],
                ) == volume_outcome(codec, plan, subkeys, caps, v) by {
                    if v < last {
                        assert(after.bytes_written[v] == before.bytes_written[v]);
                    }
                }
                assert forall|v: int|
                    count <= v < plan.options.stripe_width implies #[trigger] after.bytes_written[v]
                    == e.bytes_written[v] by {
                    assert(after.bytes_written[v] == before.bytes_written[v]);
                }
            }
        }
    }
}

// ---------------------------------------------------------------------------------------------
// Whole archives
// ---------------------------------------------------------------------------------------------

/// Whether a plan says right where its blocks begin and how many there are.
pub open spec fn is_measured(plan: PlanValue, layout: WireLayout) -> bool {
    &&& plan.options.block_size > 0
    &&& plan.options.stripe_width > 0
    &&& plan.block_records_offset == volume_start_len(
        layout,
        plan.crypto_header.bytes,
        plan.key_wrap_table,
    )
    &&& plan.total_block_count == plan.index_root_extent.first_block_index
        + plan.index_root_extent.total()
}

/// After its payload, an archive holds the blocks of the payload and nothing else.
pub(crate) proof fn payloads_hold_blocks<C: ArchiveCodec + MetadataProfile, O: ArchiveWriteSink>(
    codec: &C,
    plan: PlanValue,
    subkeys: Subkeys,
    collect: bool,
    dictionary: Option<Seq<u8>>,
    runs: Seq<SourceRun>,
)
    requires
        keeps_lengths(codec),
        is_measured(plan, codec.spec_layout()),
    ensures
        plan_payload_emission::<C, O>(codec, plan, subkeys, collect, dictionary, runs) matches Ok(e)
            ==> holds_blocks(
            e,
            plan.options,
            codec.spec_layout(),
            plan.block_records_offset as int,
        ),
{
    if plan_payload_emission::<C, O>(codec, plan, subkeys, collect, dictionary, runs) is Ok {
        let s = replay_setting(codec, plan, subkeys);
        let layout = codec.spec_layout();
        let offset = plan.block_records_offset as int;
        let start = begun(
            codec,
            plan.options.stripe_width,
            plan.crypto_header.bytes,
            plan.key_wrap_table,
            plan.archive_uuid,
            plan.session_id,
            plan.volume_format_rev,
            collect,
        )->Ok_0;
        begun_archives_are_accounted(
            codec,
            plan.options.stripe_width,
            plan.crypto_header.bytes,
            plan.key_wrap_table,
            plan.archive_uuid,
            plan.session_id,
            plan.volume_format_rev,
            collect,
            start,
        );
        assert(holds_blocks(start, plan.options, layout, offset)) by {
            assert forall|v: int|
                #![trigger start.volumes[v]]
                #![trigger start.record_counts[v]]
                0 <= v < plan.options.stripe_width implies {
                &&& start.record_counts[v] == blocks_on_volume(
                    0,
                    0,
                    plan.options.stripe_width as int,
                    v,
                )
                &&& start.volumes[v].len() == offset + start.record_counts[v] * block_record_len(
                    plan.options,
                    layout,
                )
            } by {
                assert(start.bytes_written[v] == start.volumes[v].len());
                assert(0 * block_record_len(plan.options, layout) == 0);
            }
        }
        the_payload_fills::<C, O>(
            codec,
            s,
            nothing_replayed(start),
            dictionary,
            runs,
            runs.len(),
            offset,
        );
        let p = replayed_members::<C, O>(
            codec,
            s,
            nothing_replayed(start),
            dictionary,
            runs,
            runs.len(),
        )->Ok_0;
        a_flush_fills(codec, s, p, offset);
    }
}

/// With a codec whose lengths are settled, every volume that is written has the size that was
/// planned for it.
pub proof fn volumes_have_their_planned_sizes<
    C: ArchiveCodec + MetadataProfile,
    O: ArchiveWriteSink,
>(
    codec: &C,
    plan: PlanValue,
    subkeys: Subkeys,
    collect: bool,
    dictionary: Option<Seq<u8>>,
    runs: Seq<SourceRun>,
    caps: ReaderCaps,
    answer: FooterAnswer,
)
    requires
        keeps_lengths(codec),
        is_measured(plan, codec.spec_layout()),
        answer matches Ok(footer) ==> is_planned_footer(plan, footer),
        forall|v: int|
            0 <= v < plan.options.stripe_width ==> (#[trigger] volume_outcome(
                codec,
                plan,
                subkeys,
                caps,
                v,
            )) is Ok,
    ensures
        plan_emission::<C, O>(codec, plan, subkeys, collect, dictionary, runs, caps, answer)
            matches Ok(closed) ==> {
            &&& closed.emission.volumes.len() == plan.options.stripe_width
            &&& forall|v: int|
                0 <= v < plan.options.stripe_width ==> Ok::<u64, FormatError>(
                    (#[trigger] closed.emission.volumes[v]).len() as u64,
                ) == volume_outcome(codec, plan, subkeys, caps, v)
                    && closed.emission.volumes[v].len() <= u64::MAX
        },
{
    if let Ok(closed) = plan_emission::<C, O>(
        codec,
        plan,
        subkeys,
        collect,
        dictionary,
        runs,
        caps,
        answer,
    ) {
        let s = replay_setting(codec, plan, subkeys);
        let offset = plan.block_records_offset as int;
        payloads_hold_blocks::<C, O>(codec, plan, subkeys, collect, dictionary, runs);
        let e = plan_payload_emission::<C, O>(codec, plan, subkeys, collect, dictionary, runs)->Ok_0;
        let seal = ArchiveSeal {
            subkeys,
            archive_uuid: plan.archive_uuid,
            session_id: plan.session_id,
        };
        the_body_fills(codec, e, plan, seal, plan.volume_format_rev, offset);
        let body = body_outcome(codec, e, plan, seal, plan.volume_format_rev)->Ok_0;
        let footer = answer->Ok_0;
        tails_have_their_sizes(
            codec,
            body.emission,
            plan,
            subkeys,
            s.headers,
            footer,
            caps,
            plan.options.stripe_width as nat,
        );
        let tailed = with_tails(
            codec,
            body.emission,
            plan,
            subkeys,
            s.headers,
            footer,
            caps,
            plan.options.stripe_width as nat,
        )->Ok_0;
        assert(closed.emission.volumes == tailed.volumes);
        assert forall|v: int| 0 <= v < plan.options.stripe_width implies Ok::<u64, FormatError>(
            (#[trigger] closed.emission.volumes[v]).len() as u64,
        ) == volume_outcome(codec, plan, subkeys, caps, v) && closed.emission.volumes[v].len()
            <= u64::MAX by {
            assert(tailed.bytes_written[v] == tailed.volumes[v].len());
        }
    }
}

/// A plan of sources says right where its blocks begin and how many there are, and foresees a
/// footer of the right length if one is asked for.
proof fn plans_are_measured<C: ArchiveCodec + MetadataProfile>(
    codec: &C,
    payload: PayloadValue,
    next: u64,
    o: WriterOptions,
    dictionary: Option<Seq<u8>>,
    kdf: KdfValue,
    key_wrap_table: Option<Seq<u8>>,
    request: PlanRequest,
    plan: PlanValue,
)
    requires
        o.block_size > 0,
        o.stripe_width > 0,
        is_plan(codec, payload, next, o, dictionary, kdf, key_wrap_table, request, Ok(plan)),
    ensures
        is_measured(plan, codec.spec_layout()),
        plan.options.stripe_width == o.stripe_width,
        root_auth_length(codec.spec_layout(), request.root_auth, request.caps) == Ok::<
            Option<u32>,
            FormatError,
        >(plan.root_auth_footer_length),
{
}

pub(crate) proof fn passes_are_measured<C: ArchiveCodec + MetadataProfile, S: RegularFileSource>(
    codec: &C,
    files: Seq<S>,
    request: ArchiveRequest,
    o: WriterOptions,
    plan: PlanValue,
)
    requires
        o.block_size > 0,
        o.stripe_width > 0,
        plans_pass(codec, files, request, o, Ok(plan)),
    ensures
        is_measured(plan, codec.spec_layout()),
        plan.options.stripe_width == o.stripe_width,
        root_auth_length(codec.spec_layout(), request.plan.root_auth, request.plan.caps) == Ok::<
            Option<u32>,
            FormatError,
        >(plan.root_auth_footer_length),
{
    reveal(plans_pass);
    let dictionary = opt_bytes(request.dictionary);
    let kdf = request.kdf_params@;
    let (runs, answer) = choose|runs: Seq<SourceRun>, answer: RecordsAnswer|
        #![trigger may_run_all(files, runs), source_answers(request.key_wrap_records, answer)]
        may_run_all(files, runs) && source_answers(request.key_wrap_records, answer)
            && is_source_plan(
            codec,
            runs,
            answer,
            o,
            dictionary,
            kdf,
            request.plan,
            Ok::<PlanValue, ArchiveWriteError>(plan),
        );
    let planned = payload_outcome(codec, runs, o, dictionary)->Ok_0;
    let (resolved, table) = key_wrap_outcome(
        codec,
        kdf,
        request.plan.archive_uuid,
        request.plan.session_id,
        answer,
    )->Ok_0;
    plans_are_measured(
        codec,
        planned.payload,
        planned.next,
        o,
        dictionary,
        resolved,
        table,
        request.plan,
        plan,
    );
}

/// Whether root-authentication footers are as long as their fixed part, the identity, the signature
/// and the checksum.
pub open spec fn keeps_footer_lengths<C: ArchiveCodec>(codec: &C) -> bool {
    forall|footer: RootAuthFooterValue| #[trigger]
        codec.root_auth_footer_bytes(footer) matches Ok(bytes) ==> bytes.len()
            == codec.spec_layout().root_auth_footer_fixed + footer.signer_identity_bytes.len()
            + footer.authenticator_value.len() + ROOT_AUTH_CHECKSUM_LEN
}

proof fn emissions_meet_the_target<
    C: ArchiveCodec + MetadataProfile,
    O: ArchiveWriteSink,
    S: RegularFileSource,
    F: FnOnce(&RootAuthSigningRequest) -> Result<Vec<u8>, FormatError>,
>(
    codec: &C,
    files: Seq<S>,
    request: ArchiveRequest,
    o: WriterOptions,
    plan: PlanValue,
    subkeys: Subkeys,
    authenticator: Option<F>,
    calm: bool,
    sink: O,
    summary: WrittenArchiveSummary,
    target: u64,
)
    requires
        keeps_lengths(codec),
        keeps_footer_lengths(codec),
        o.block_size > 0,
        o.stripe_width > 0,
        o.target_volume_size == Some(target),
        plans_pass(codec, files, request, o, Ok(plan)),
        wider(codec, request, o, plan) == Ok::<Option<u32>, FormatError>(None),
        subkeys_outcome(
            codec,
            request.plan.master_key,
            plan.options.aead_algo,
            plan.archive_uuid,
            plan.session_id,
        ) == Ok::<Subkeys, FormatError>(subkeys),
        writes_from_sources(
            codec,
            files,
            request,
            plan,
            subkeys,
            authenticator,
            calm,
            sink,
            Ok(summary),
        ),
    ensures
        forall|v: int|
            0 <= v < sink.volumes().len() ==> (#[trigger] sink.volumes()[v]).len() <= target,
{
    let dictionary = opt_bytes(request.dictionary);
    let caps = request.plan.caps;
    let root_auth = request.plan.root_auth;
    let collect = root_auth is Some;
    let (runs, answer) = choose|runs: Seq<SourceRun>, answer: FooterAnswer|
        #![trigger may_run_all(files, runs), plan_answers::<C, O, F>(codec, plan, subkeys, dictionary, runs, root_auth, authenticator, caps, answer)]
        may_run_all(files, runs) && plan_answers::<C, O, F>(
            codec,
            plan,
            subkeys,
            dictionary,
            runs,
            root_auth,
            authenticator,
            caps,
            answer,
        ) && finishes(
            calm,
            sink,
            plan_emission::<C, O>(codec, plan, subkeys, collect, dictionary, runs, caps, answer),
            plan.options.stripe_width,
            plan.archive_uuid,
            plan.session_id,
            Ok(summary),
        );
    passes_are_measured(codec, files, request, o, plan);
    assert(answer matches Ok(footer) ==> is_planned_footer(plan, footer));
    assert forall|v: int| 0 <= v < plan.options.stripe_width implies (#[trigger] volume_outcome(
        codec,
        plan,
        subkeys,
        caps,
        v,
    ) matches Ok(size) && size <= target) by {
        accepted_widths_meet_the_target(
            codec,
            plan,
            request.plan.master_key,
            subkeys,
            caps,
            target,
            v,
        );
    }
    volumes_have_their_planned_sizes::<C, O>(
        codec,
        plan,
        subkeys,
        collect,
        dictionary,
        runs,
        caps,
        answer,
    );
    assert forall|v: int| 0 <= v < sink.volumes().len() implies (
    #[trigger] sink.volumes()[v]).len() <= target by {
        assert(volume_outcome(codec, plan, subkeys, caps, v) matches Ok(size) && size <= target);
    }
}

proof fn requests_meet_the_target<
    C: ArchiveCodec + MetadataProfile,
    O: ArchiveWriteSink,
    S: RegularFileSource,
    F: FnOnce(&RootAuthSigningRequest) -> Result<Vec<u8>, FormatError>,
>(
    codec: &C,
    files: Seq<S>,
    request: ArchiveRequest,
    requested: WriterOptions,
    authenticator: Option<F>,
    first: O,
    sink: O,
    summary: WrittenArchiveSummary,
    target: u64,
)
    requires
        keeps_lengths(codec),
        keeps_footer_lengths(codec),
        requested.target_volume_size == Some(target),
        writes_archive(
            codec,
            files,
            request,
            requested,
            authenticator,
            first,
            sink,
            Ok(summary),
        ),
    ensures
        forall|v: int|
            0 <= v < sink.volumes().len() ==> (#[trigger] sink.volumes()[v]).len() <= target,
    decreases u32::MAX - requested.stripe_width,
{
    let o = planned_options(requested, request.plan.caps)->Ok_0;
    let planned = choose|planned: Result<PlanValue, ArchiveWriteError>|
        {
            &&& #[trigger] plans_pass(codec, files, request, o, planned)
            &&& match planned {
                Err(_) => false,
                Ok(plan) => match wider(codec, request, o, plan) {
                    Err(_) => false,
                    Ok(Some(width)) => requested.stripe_width < width && writes_archive(
                        codec,
                        files,
                        request,
                        WriterOptions { stripe_width: width, ..requested },
                        authenticator,
                        first,
                        sink,
                        Ok(summary),
                    ),
                    Ok(None) => writes_plan(
                        codec,
                        files,
                        request,
                        plan,
                        authenticator,
                        first,
                        sink,
                        Ok(summary),
                    ),
                },
            }
        };
    let plan = planned->Ok_0;
    assert(plans_pass(codec, files, request, o, Ok(plan)));
    match wider(codec, request, o, plan)->Ok_0 {
        Some(width) => {
            requests_meet_the_target(
                codec,
                files,
                request,
                WriterOptions { stripe_width: width, ..requested },
                authenticator,
                first,
                sink,
                summary,
                target,
            );
        },
        None => {
            reveal(writes_plan);
            let subkeys = subkeys_outcome(
                codec,
                request.plan.master_key,
                plan.options.aead_algo,
                plan.archive_uuid,
                plan.session_id,
            )->Ok_0;
            planned_options_obey_the_rules(requested, request.plan.caps);
            emissions_meet_the_target(
                codec,
                files,
                request,
                o,
                plan,
                subkeys,
                authenticator,
                standing(first).undisturbed(standing(sink)),
                sink,
                summary,
                target,
            );
        },
    }
}

/// With a codec whose lengths are settled, an archive whose volumes are limited in size has no
/// volume that is larger.
pub proof fn written_volumes_meet_the_target<
    C: ArchiveCodec + MetadataProfile,
    O: ArchiveWriteSink,
    S: RegularFileSource,
    F: FnOnce(&RootAuthSigningRequest) -> Result<Vec<u8>, FormatError>,
>(
    codec: &C,
    files: Seq<S>,
    order: ArchiveOrder,
    options: WriterOptions,
    authenticator: Option<F>,
    first: O,
    sink: O,
    summary: WrittenArchiveSummary,
    target: u64,
)
    requires
        keeps_lengths(codec),
        keeps_footer_lengths(codec),
        options.target_volume_size == Some(target),
        carries_out(codec, files, order, options, authenticator, first, sink, Ok(summary)),
    ensures
        forall|v: int|
            0 <= v < sink.volumes().len() ==> (#[trigger] sink.volumes()[v]).len() <= target,
{
    let (uuid, session) = choose|uuid: [u8; 16], session: [u8; 16]|
        {
            &&& #[trigger] may_identify(options.archive_uuid, uuid)
            &&& #[trigger] may_identify(options.session_id, session)
            &&& writes_archive(
                codec,
                files,
                order.spec_request(uuid, session),
                widened(options),
                authenticator,
                first,
                sink,
                Ok(summary),
            )
        };
    requests_meet_the_target(
        codec,
        files,
        order.spec_request(uuid, session),
        widened(options),
        authenticator,
        first,
        sink,
        summary,
        target,
    );
}

} // verus!
