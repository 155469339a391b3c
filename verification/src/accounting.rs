//! The account of the bytes of each volume is right, whatever is written.
use crate::archive::{plan_emission, plan_payload_emission, replay_setting};
use crate::capture::{captured, prepared};
use crate::codec::{ArchiveCodec, ObjectDomain};
use crate::emit::{
    begun, begun_archives_are_accounted, blocks_go_home, with_blocks, with_object, Emission,
};
use crate::index_plan::MetadataObjectValue;
use crate::keys::Subkeys;
use crate::members::{with_member, with_members, MembersValue, StreamTaker};
use crate::object_plan::{MetadataObjectKind, ObjectExtent};
use crate::objects::{body_outcome, with_dictionary, with_metadata_objects, ArchiveSeal};
use crate::options::{ReaderCaps, WriterOptions};
use crate::packing::nothing_packed;
use crate::payload::{framed_member, FramePlace, FrameTaker};
use crate::plan::{PlanRequest, PlanValue};
use crate::profile::MetadataProfile;
use crate::replay::{
    flushed_replay, nothing_replayed, replayed_frame, replayed_member, replayed_members,
    PayloadReplay, ReplaySetting, ReplayValue,
};
use crate::seal::{encrypted_outcome, ObjectEncryptionContext};
use crate::single_pass::{sent_payload, stream_setting, DeclaredValue};
use crate::sink::ArchiveWriteSink;
use crate::source::SourceRun;
use crate::stream::{feed_of, Feed};
use crate::streaming::{
    flushed_stream, streamed_frame, StreamSetting, StreamValue, StreamingArchiveWriter,
};
use crate::suffix::{suffix_outcome, with_part, with_tail, with_tails, written_total, FooterAnswer};
use crate::wire::{BlockValue, Record};
use vstd::prelude::*;

verus! {

/// Whether every volume has an account, and the account is right.
pub open spec fn in_balance(e: Emission, stripe_width: u32) -> bool {
    e.wf(stripe_width) && e.is_accounted()
}

/// Whether records come out as long as the layout says.
pub open spec fn keeps_its_layout<C: ArchiveCodec>(codec: &C) -> bool {
    forall|record: Record| (#[trigger] codec.encoded(record)).len() == codec.spec_layout().len_of(
        record,
    )
}

// ---------------------------------------------------------------------------------------------
// Blocks and objects
// ---------------------------------------------------------------------------------------------

pub(crate) proof fn blocks_keep_the_balance<C: ArchiveCodec>(
    codec: &C,
    e: Emission,
    stripe_width: u32,
    rev: u16,
    blocks: Seq<BlockValue>,
    count: nat,
)
    requires
        in_balance(e, stripe_width),
    ensures
        with_blocks(codec, e, stripe_width, rev, blocks, count) matches Ok(after) ==> in_balance(
            after,
            stripe_width,
        ),
    decreases count,
{
    if count > 0 {
        blocks_keep_the_balance(codec, e, stripe_width, rev, blocks, (count - 1) as nat);
        if let Ok(before) = with_blocks(
            codec,
            e,
            stripe_width,
            rev,
            blocks,
            (count - 1) as nat,
        ) {
            blocks_go_home(codec, before, stripe_width, rev, blocks[count - 1]);
        }
    }
}

/// An object that is written leaves every account right.
pub proof fn objects_keep_the_balance<C: ArchiveCodec>(
    codec: &C,
    e: Emission,
    payload: Seq<u8>,
    context: ObjectEncryptionContext,
    o: WriterOptions,
    expected: ObjectExtent,
    kind: Option<MetadataObjectKind>,
    rev: u16,
)
    requires
        in_balance(e, o.stripe_width),
    ensures
        with_object(codec, e, payload, context, o, expected, kind, rev) matches Ok(w)
            ==> in_balance(w.emission, o.stripe_width),
{
    if let Ok(object) = encrypted_outcome(codec, payload, context, e.next_block_index, o) {
        blocks_keep_the_balance(
            codec,
            Emission {
                next_block_index: (e.next_block_index + object.extent.total()) as u64,
                ..e
            },
            o.stripe_width,
            rev,
            object.records,
            object.records.len(),
        );
    }
}

proof fn metadata_keeps_the_balance<C: ArchiveCodec>(
    codec: &C,
    e: Emission,
    objects: Seq<MetadataObjectValue>,
    domain: ObjectDomain,
    seal: ArchiveSeal,
    o: WriterOptions,
    rev: u16,
    count: nat,
)
    requires
        in_balance(e, o.stripe_width),
    ensures
        with_metadata_objects(codec, e, objects, domain, seal, o, rev, count) matches Ok(after)
            ==> in_balance(after, o.stripe_width),
    decreases count,
{
    if count > 0 {
        metadata_keeps_the_balance(codec, e, objects, domain, seal, o, rev, (count - 1) as nat);
        if let Ok(before) = with_metadata_objects(
            codec,
            e,
            objects,
            domain,
            seal,
            o,
            rev,
            (count - 1) as nat,
        ) {
            let object = objects[count - 1];
            objects_keep_the_balance(
                codec,
                before,
                object.compressed,
                seal.spec_context(domain, object.object_index, o),
                o,
                object.extent,
                None,
                rev,
            );
        }
    }
}

pub(crate) proof fn body_keeps_the_balance<C: ArchiveCodec>(
    codec: &C,
    e: Emission,
    plan: PlanValue,
    seal: ArchiveSeal,
    rev: u16,
)
    requires
        in_balance(e, plan.options.stripe_width),
    ensures
        body_outcome(codec, e, plan, seal, rev) matches Ok(body) ==> in_balance(
            body.emission,
            plan.options.stripe_width,
        ),
{
    let o = plan.options;
    if let Ok(body) = body_outcome(codec, e, plan, seal, rev) {
        let shards = with_metadata_objects(
            codec,
            e,
            plan.index_shard_objects,
            ObjectDomain::IndexShard,
            seal,
            o,
            rev,
            plan.index_shard_objects.len(),
        )->Ok_0;
        metadata_keeps_the_balance(
            codec,
            e,
            plan.index_shard_objects,
            ObjectDomain::IndexShard,
            seal,
            o,
            rev,
            plan.index_shard_objects.len(),
        );
        if let (Some(compressed), Some((extent, _))) = (
            plan.compressed_dictionary,
            plan.dictionary_extent,
        ) {
            objects_keep_the_balance(
                codec,
                shards,
                compressed,
                seal.spec_context(ObjectDomain::Dictionary, 0, o),
                o,
                extent,
                Some(MetadataObjectKind::Dictionary),
                rev,
            );
        }
        let dictionary = with_dictionary(codec, shards, plan, seal, rev)->Ok_0;
        metadata_keeps_the_balance(
            codec,
            dictionary.emission,
            plan.directory_hint_objects,
            ObjectDomain::DirectoryHint,
            seal,
            o,
            rev,
            plan.directory_hint_objects.len(),
        );
        let hints = with_metadata_objects(
            codec,
            dictionary.emission,
            plan.directory_hint_objects,
            ObjectDomain::DirectoryHint,
            seal,
            o,
            rev,
            plan.directory_hint_objects.len(),
        )->Ok_0;
        objects_keep_the_balance(
            codec,
            hints,
            plan.compressed_index_root,
            seal.spec_context(ObjectDomain::IndexRoot, 0, o),
            o,
            plan.index_root_extent,
            Some(MetadataObjectKind::IndexRoot),
            rev,
        );
    }
}

// ---------------------------------------------------------------------------------------------
// The end of a volume
// ---------------------------------------------------------------------------------------------

proof fn parts_keep_the_balance(
    e: Emission,
    stripe_width: u32,
    volume: int,
    bytes: Seq<u8>,
    label: &'static str,
)
    requires
        in_balance(e, stripe_width),
        0 <= volume < stripe_width,
    ensures
        with_part(e, volume, bytes, label) matches Ok(after) ==> in_balance(after, stripe_width),
{
}

/// The end of a volume leaves every account right.
pub proof fn tail_keeps_the_balance<C: ArchiveCodec>(
    codec: &C,
    e: Emission,
    plan: PlanValue,
    subkeys: Subkeys,
    header: Seq<u8>,
    footer: Option<Seq<u8>>,
    caps: ReaderCaps,
    volume: int,
)
    requires
        in_balance(e, plan.options.stripe_width),
        0 <= volume < plan.options.stripe_width,
    ensures
        with_tail(codec, e, plan, subkeys, header, footer, caps, volume) matches Ok(after)
            ==> in_balance(after, plan.options.stripe_width),
{
    let stripe = plan.options.stripe_width;
    assert forall|b: Emission, bytes: Seq<u8>, label: &'static str|
        in_balance(b, stripe) && (#[trigger] with_part(b, volume, bytes, label)) is Ok implies in_balance(
        with_part(b, volume, bytes, label)->Ok_0,
        stripe,
    ) by {
        parts_keep_the_balance(b, stripe, volume, bytes, label);
    }
}

proof fn tails_keep_the_balance<C: ArchiveCodec>(
    codec: &C,
    e: Emission,
    plan: PlanValue,
    subkeys: Subkeys,
    headers: Seq<Seq<u8>>,
    footer: Option<Seq<u8>>,
    caps: ReaderCaps,
    count: nat,
)
    requires
        in_balance(e, plan.options.stripe_width),
        count <= plan.options.stripe_width,
    ensures
        with_tails(codec, e, plan, subkeys, headers, footer, caps, count) matches Ok(after)
            ==> in_balance(after, plan.options.stripe_width),
    decreases count,
{
    if count > 0 {
        tails_keep_the_balance(
            codec,
            e,
            plan,
            subkeys,
            headers,
            footer,
            caps,
            (count - 1) as nat,
        );
        if let Ok(before) = with_tails(
            codec,
            e,
            plan,
            subkeys,
            headers,
            footer,
            caps,
            (count - 1) as nat,
        ) {
            tail_keeps_the_balance(
                codec,
                before,
                plan,
                subkeys,
                headers[count - 1],
                footer,
                caps,
                count - 1,
            );
        }
    }
}

/// Closing an archive leaves every account right.
pub proof fn closing_keeps_the_balance<C: ArchiveCodec>(
    codec: &C,
    e: Emission,
    plan: PlanValue,
    subkeys: Subkeys,
    headers: Seq<Seq<u8>>,
    rev: u16,
    caps: ReaderCaps,
    answer: FooterAnswer,
)
    requires
        in_balance(e, plan.options.stripe_width),
    ensures
        suffix_outcome(codec, e, plan, subkeys, headers, rev, caps, answer) matches Ok(closed)
            ==> in_balance(closed.emission, plan.options.stripe_width),
{
    let seal = ArchiveSeal {
        subkeys,
        archive_uuid: plan.archive_uuid,
        session_id: plan.session_id,
    };
    body_keeps_the_balance(codec, e, plan, seal, rev);
    if let (Ok(body), Ok(footer)) = (body_outcome(codec, e, plan, seal, rev), answer) {
        tails_keep_the_balance(
            codec,
            body.emission,
            plan,
            subkeys,
            headers,
            footer,
            caps,
            plan.options.stripe_width as nat,
        );
    }
}

// ---------------------------------------------------------------------------------------------
// The payload
// ---------------------------------------------------------------------------------------------

/// Whether frames never break what `keeps` says.
pub open spec fn frames_keep<C: ArchiveCodec, Out, T: FrameTaker<C, Out>>(
    codec: &C,
    setting: T::Setting,
    keeps: spec_fn(T::State) -> bool,
) -> bool {
    forall|state: T::State, chunk: Seq<u8>, frame: Seq<u8>, place: FramePlace|
        #![trigger T::with_frame(codec, setting, state, chunk, frame, place)]
        keeps(state) ==> (T::with_frame(codec, setting, state, chunk, frame, place) matches Ok(next)
            ==> keeps(next))
}

/// A member keeps what its frames keep.
pub proof fn a_member_keeps<C: ArchiveCodec, Out, T: FrameTaker<C, Out>>(
    codec: &C,
    setting: T::Setting,
    state: T::State,
    o: WriterOptions,
    dictionary: Option<Seq<u8>>,
    feed: Feed,
    place: FramePlace,
    offset: int,
    keeps: spec_fn(T::State) -> bool,
)
    requires
        keeps(state),
        frames_keep::<C, Out, T>(codec, setting, keeps),
    ensures
        framed_member::<C, Out, T>(codec, setting, state, o, dictionary, feed, place, offset)
            matches Ok(after) ==> keeps(after),
    decreases
            if offset < place.member_group_size {
                place.member_group_size - offset
            } else {
                0
            },
{
    if offset < place.member_group_size {
        let n = T::chunk_len(state, place.member_group_size - offset, o);
        if let Ok(bytes) = feed.reads(offset + n) {
            if let Ok(chosen) = crate::payload::next_frame(
                codec,
                bytes.skip(offset),
                n,
                o,
                dictionary,
                T::framing(),
            ) {
                if let Ok(next) = T::with_frame(
                    codec,
                    setting,
                    state,
                    bytes.skip(offset).take(chosen.len),
                    chosen.frame,
                    FramePlace { member_offset: offset as u64, ..place },
                ) {
                    if chosen.len >= 1 {
                        a_member_keeps::<C, Out, T>(
                            codec,
                            setting,
                            next,
                            o,
                            dictionary,
                            feed,
                            place,
                            offset + chosen.len,
                            keeps,
                        );
                    }
                }
            }
        }
    }
}

proof fn members_keep<C: ArchiveCodec + MetadataProfile, Out, T: StreamTaker<C, Out>>(
    codec: &C,
    setting: T::Setting,
    o: WriterOptions,
    dictionary: Option<Seq<u8>>,
    before: MembersValue<T::State>,
    runs: Seq<SourceRun>,
    count: nat,
    keeps: spec_fn(T::State) -> bool,
)
    requires
        keeps(before.state),
        frames_keep::<C, Out, T>(codec, setting, keeps),
    ensures
        with_members::<C, Out, T>(codec, setting, o, dictionary, before, runs, count) matches Ok(
            after,
        ) ==> keeps(after.state),
    decreases count,
{
    if count > 0 {
        members_keep::<C, Out, T>(
            codec,
            setting,
            o,
            dictionary,
            before,
            runs,
            (count - 1) as nat,
            keeps,
        );
        if let Ok(m) = with_members::<C, Out, T>(
            codec,
            setting,
            o,
            dictionary,
            before,
            runs,
            (count - 1) as nat,
        ) {
            reveal(with_member);
            let run = runs[count - 1];
            if let Ok(v) = captured(codec, run.described, o.max_path_length) {
                if let Ok(p) = prepared(codec, v) {
                    a_member_keeps::<C, Out, T>(
                        codec,
                        setting,
                        m.state,
                        o,
                        dictionary,
                        feed_of(p.sections, run),
                        FramePlace {
                            member_index: m.members.len() as usize,
                            member_start: T::total_of(m.state),
                            member_offset: 0,
                            member_group_size: p.group_size,
                        },
                        0,
                        keeps,
                    );
                }
            }
        }
    }
}

proof fn replays_keep_the_balance<C: ArchiveCodec + MetadataProfile, O: ArchiveWriteSink>(
    codec: &C,
    s: ReplaySetting,
    p: ReplayValue,
    dictionary: Option<Seq<u8>>,
    runs: Seq<SourceRun>,
    count: nat,
)
    requires
        in_balance(p.emission, s.plan.options.stripe_width),
    ensures
        replayed_members::<C, O>(codec, s, p, dictionary, runs, count) matches Ok(q) ==> in_balance(
            q.emission,
            s.plan.options.stripe_width,
        ),
    decreases count,
{
    if count > 0 {
        replays_keep_the_balance::<C, O>(codec, s, p, dictionary, runs, (count - 1) as nat);
        if let Ok(b) = replayed_members::<C, O>(
            codec,
            s,
            p,
            dictionary,
            runs,
            (count - 1) as nat,
        ) {
            reveal(replayed_member);
            let stripe = s.plan.options.stripe_width;
            let keeps = |r: ReplayValue| in_balance(r.emission, stripe);
            assert(frames_keep::<C, O, PayloadReplay<'static>>(codec, s, keeps)) by {
                assert forall|
                    r: ReplayValue,
                    chunk: Seq<u8>,
                    frame: Seq<u8>,
                    place: FramePlace,
                |
                    keeps(r) implies (#[trigger] replayed_frame(codec, s, r, chunk, frame, place)
                    matches Ok(next) ==> keeps(next)) by {
                    flush_keeps_the_balance(codec, s, r);
                }
            }
            let run = runs[count - 1];
            let member = s.plan.members[count - 1];
            if let Ok(v) = captured(codec, run.described, s.plan.options.max_path_length) {
                if let Ok(laid_out) = prepared(codec, v) {
                    a_member_keeps::<C, O, PayloadReplay<'static>>(
                        codec,
                        s,
                        b,
                        s.plan.options,
                        dictionary,
                        feed_of(laid_out.sections, run),
                        FramePlace {
                            member_index: (count - 1) as usize,
                            member_start: member.tar_member_group_start,
                            member_offset: 0,
                            member_group_size: member.tar_member_group_size,
                        },
                        0,
                        keeps,
                    );
                }
            }
        }
    }
}

proof fn flush_keeps_the_balance<C: ArchiveCodec>(codec: &C, s: ReplaySetting, r: ReplayValue)
    requires
        in_balance(r.emission, s.plan.options.stripe_width),
    ensures
        flushed_replay(codec, s, r) matches Ok(next) ==> in_balance(
            next.emission,
            s.plan.options.stripe_width,
        ),
{
    if r.envelope_index < s.plan.objects.len() {
        objects_keep_the_balance(
            codec,
            r.emission,
            r.plaintext,
            s.seal.spec_context(ObjectDomain::Envelope, r.envelope_index, s.plan.options),
            s.plan.options,
            s.plan.objects[r.envelope_index as int].object,
            None,
            s.rev,
        );
    }
}

/// Bytes of the first `count` volumes, as far as a number of 64 bits can tell.
pub open spec fn volume_total(volumes: Seq<Seq<u8>>, count: nat) -> int
    decreases count,
{
    if count == 0 {
        0
    } else {
        (volume_total(volumes, (count - 1) as nat) + volumes[count - 1].len())
            % 0x1_0000_0000_0000_0000
    }
}

proof fn account_is_the_total(e: Emission, count: nat)
    requires
        e.is_accounted(),
        count <= e.volumes.len(),
    ensures
        written_total(e.bytes_written, count) == volume_total(e.volumes, count),
    decreases count,
{
    if count > 0 {
        account_is_the_total(e, (count - 1) as nat);
        assert(e.bytes_written[count - 1] == e.volumes[count - 1].len());
    }
}

/// The bytes that an archive in two passes reports are the bytes that its volumes hold.
pub proof fn reported_bytes_are_written<C: ArchiveCodec + MetadataProfile, O: ArchiveWriteSink>(
    codec: &C,
    plan: PlanValue,
    subkeys: Subkeys,
    collect: bool,
    dictionary: Option<Seq<u8>>,
    runs: Seq<SourceRun>,
    caps: ReaderCaps,
    answer: FooterAnswer,
)
    requires
        keeps_its_layout(codec),
        plan.options.stripe_width > 0,
    ensures
        plan_emission::<C, O>(codec, plan, subkeys, collect, dictionary, runs, caps, answer)
            matches Ok(closed) ==> {
            let e = closed.emission;
            &&& e.volumes.len() == plan.options.stripe_width
            &&& written_total(e.bytes_written, e.bytes_written.len()) == volume_total(
                e.volumes,
                e.volumes.len(),
            )
        },
{
    if let Ok(closed) = plan_emission::<C, O>(
        codec,
        plan,
        subkeys,
        collect,
        dictionary,
        runs,
        caps,
        answer,
    ) {
        let s = replay_setting(codec, plan, subkeys);
        let start = begun(
            codec,
            plan.options.stripe_width,
            plan.crypto_header.bytes,
            plan.key_wrap_table,
            plan.archive_uuid,
            plan.session_id,
            plan.volume_format_rev,
            collect,
        )->Ok_0;
        begun_archives_are_accounted(
            codec,
            plan.options.stripe_width,
            plan.crypto_header.bytes,
            plan.key_wrap_table,
            plan.archive_uuid,
            plan.session_id,
            plan.volume_format_rev,
            collect,
            start,
        );
        replays_keep_the_balance::<C, O>(
            codec,
            s,
            nothing_replayed(start),
            dictionary,
            runs,
            runs.len(),
        );
        let p = replayed_members::<C, O>(
            codec,
            s,
            nothing_replayed(start),
            dictionary,
            runs,
            runs.len(),
        )->Ok_0;
        flush_keeps_the_balance(codec, s, p);
        let e = plan_payload_emission::<C, O>(codec, plan, subkeys, collect, dictionary, runs)->Ok_0;
        closing_keeps_the_balance(
            codec,
            e,
            plan,
            subkeys,
            s.headers,
            plan.volume_format_rev,
            caps,
            answer,
        );
        account_is_the_total(closed.emission, closed.emission.volumes.len());
    }
}

proof fn streams_keep_the_balance<C: ArchiveCodec>(codec: &C, s: StreamSetting, p: StreamValue)
    requires
        in_balance(p.emission, s.options.stripe_width),
    ensures
        flushed_stream(codec, s, p) matches Ok(next) ==> in_balance(
            next.emission,
            s.options.stripe_width,
        ),
{
    if let Ok(extent) = crate::packing::envelope_extent(
        crate::packing::PackValue { next_block: p.emission.next_block_index, ..p.pack },
        s.options,
    ) {
        objects_keep_the_balance(
            codec,
            p.emission,
            p.pack.plaintext,
            s.seal.spec_context(ObjectDomain::Envelope, p.pack.envelope_index, s.options),
            s.options,
            extent,
            None,
            s.rev,
        );
    }
}

/// The account of every volume is right behind a payload that was written while it was read; what
/// closes the archive keeps it so.
pub proof fn streamed_payloads_are_accounted<
    C: ArchiveCodec + MetadataProfile,
    O: ArchiveWriteSink,
>(
    codec: &C,
    declared: DeclaredValue,
    o: WriterOptions,
    request: PlanRequest,
    runs: Seq<SourceRun>,
)
    requires
        keeps_its_layout(codec),
        o.stripe_width > 0,
    ensures
        sent_payload::<C, O, StreamingArchiveWriter>(codec, declared, o, request, runs) matches Ok(
            sent,
        ) ==> in_balance(sent.value.emission, o.stripe_width),
{
    if let Ok(sent) = sent_payload::<C, O, StreamingArchiveWriter>(
        codec,
        declared,
        o,
        request,
        runs,
    ) {
        let s = stream_setting(codec, declared, o, request);
        let start = begun(
            codec,
            o.stripe_width,
            declared.header.bytes,
            declared.table,
            request.archive_uuid,
            request.session_id,
            request.volume_format_rev,
            request.root_auth is Some,
        )->Ok_0;
        begun_archives_are_accounted(
            codec,
            o.stripe_width,
            declared.header.bytes,
            declared.table,
            request.archive_uuid,
            request.session_id,
            request.volume_format_rev,
            request.root_auth is Some,
            start,
        );
        let keeps = |v: StreamValue| in_balance(v.emission, o.stripe_width);
        assert(frames_keep::<C, O, StreamingArchiveWriter>(codec, s, keeps)) by {
            assert forall|v: StreamValue, chunk: Seq<u8>, frame: Seq<u8>, place: FramePlace|
                keeps(v) implies (#[trigger] streamed_frame(codec, s, v, chunk, frame, place)
                matches Ok(next) ==> keeps(next)) by {
                streams_keep_the_balance(codec, s, v);
            }
        }
        let first = MembersValue {
            members: Seq::empty(),
            state: StreamValue { pack: nothing_packed(0), emission: start },
        };
        members_keep::<C, O, StreamingArchiveWriter>(
            codec,
            s,
            o,
            None,
            first,
            runs,
            runs.len(),
            keeps,
        );
        let taken = with_members::<C, O, StreamingArchiveWriter>(
            codec,
            s,
            o,
            None,
            first,
            runs,
            runs.len(),
        )->Ok_0;
        streams_keep_the_balance(codec, s, taken.state);
    }
}

} // verus!
