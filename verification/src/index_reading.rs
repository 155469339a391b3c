//! The index of an archive is read back from its volumes.
use crate::archive::{plan_emission, plan_payload_emission, replay_setting};
use crate::codec::{ArchiveCodec, ObjectDomain};
use crate::emit::{
    begun, begun_archives_are_accounted, home_volume, with_block, with_blocks, with_object,
    Emission,
};
use crate::errors::FormatError;
use crate::index_plan::MetadataObjectValue;
use crate::keys::Subkeys;
use crate::object_plan::{
    blocks_on_volume, blocks_on_volume_closed_form, MetadataObjectKind, ObjectExtent,
};
use crate::objects::{body_outcome, with_dictionary, with_metadata_objects, ArchiveSeal};
use crate::options::{ReaderCaps, WriterOptions};
use crate::plan::PlanValue;
use crate::profile::MetadataProfile;
use crate::readback::{
    holding_is_transitive, holds_all, metadata_only_adds, objects_only_add, tails_only_add,
};
use crate::reading::{pieces_make_the_whole, read_block, read_blocks, undoes, Decoder};
use crate::seal::{encrypted_outcome, piece, sealed_payload, ObjectEncryptionContext};
use crate::sink::ArchiveWriteSink;
use crate::sizes::{
    a_block_fills, an_object_fills, blocks_fill, holds_blocks, is_filled, is_measured,
    keeps_lengths, metadata_fills, object_blocks_are_numbered, payloads_hold_blocks,
};
use crate::source::SourceRun;
use crate::suffix::{with_tails, FooterAnswer};
use crate::volume_size::block_record_len;
use crate::wire::BlockValue;
use vstd::prelude::*;

verus! {

// ---------------------------------------------------------------------------------------------
// Blocks in their places
// ---------------------------------------------------------------------------------------------

/// Whether a block lies where its number says: in the volume that the number names, behind the
/// start of the volume and the blocks of smaller numbers there.
pub open spec fn lies_in_place<C: ArchiveCodec>(
    codec: &C,
    volumes: Seq<Seq<u8>>,
    o: WriterOptions,
    offset: int,
    block: BlockValue,
) -> bool {
    let width = o.stripe_width as int;
    let v = block.block_index as int % width;
    let len = block_record_len(o, codec.spec_layout());
    let at = offset + len * (block.block_index as int / width);
    &&& 0 <= v < volumes.len()
    &&& 0 <= at
    &&& at + len <= volumes[v].len()
    &&& volumes[v].subrange(at, at + len) == codec.block_bytes(block)
}

/// As many earlier blocks lie in the volume of a block as its number has whole rounds.
proof fn rounds_are_counted(number: int, width: int)
    requires
        number >= 0,
        width > 0,
    ensures
        blocks_on_volume(0, number, width, number % width) == number / width,
{
    let v = number % width;
    let q = number / width;
    vstd::arithmetic::div_mod::lemma_fundamental_div_mod(number, width);
    vstd::arithmetic::div_mod::lemma_mod_bound(number, width);
    blocks_on_volume_closed_form(0, number, width, v);
    assert((number - v + width - 1) / width == q) by {
        vstd::arithmetic::div_mod::lemma_fundamental_div_mod_converse(
            number - v + width - 1,
            width,
            q,
            width - 1,
        );
    }
    assert((0 - v + width - 1) / width == 0) by {
        vstd::arithmetic::div_mod::lemma_basic_div(0 - v + width - 1, width);
    }
}

proof fn places_are_kept<C: ArchiveCodec>(
    codec: &C,
    a: Emission,
    b: Emission,
    o: WriterOptions,
    offset: int,
    block: BlockValue,
)
    requires
        holds_all(a, b, o.stripe_width),
        lies_in_place(codec, a.volumes, o, offset, block),
    ensures
        lies_in_place(codec, b.volumes, o, offset, block),
{
    let width = o.stripe_width as int;
    let v = block.block_index as int % width;
    let len = block_record_len(o, codec.spec_layout());
    let at = offset + len * (block.block_index as int / width);
    assert(a.volumes[v].is_prefix_of(b.volumes[v]));
    assert(b.volumes[v].subrange(at, at + len) =~= a.volumes[v].subrange(at, at + len));
}

proof fn blocks_lie_in_place<C: ArchiveCodec>(
    codec: &C,
    e: Emission,
    o: WriterOptions,
    rev: u16,
    blocks: Seq<BlockValue>,
    offset: int,
    first: int,
    count: nat,
)
    requires
        count <= blocks.len(),
        offset >= 0,
        first >= 0,
        is_filled(e, o, codec.spec_layout(), offset, first),
        forall|i: int|
            0 <= i < blocks.len() ==> (#[trigger] blocks[i]).block_index == first + i
                && codec.block_bytes(blocks[i]).len() == block_record_len(o, codec.spec_layout()),
    ensures
        with_blocks(codec, e, o.stripe_width, rev, blocks, count) matches Ok(after) ==> forall|j: int|
            0 <= j < count ==> lies_in_place(
                codec,
                after.volumes,
                o,
                offset,
                #[trigger] blocks[j],
            ),
    decreases count,
{
    if count > 0 {
        let n = (count - 1) as nat;
        blocks_lie_in_place(codec, e, o, rev, blocks, offset, first, n);
        blocks_fill(codec, e, o, rev, blocks, offset, first, n);
        if let Ok(before) = with_blocks(codec, e, o.stripe_width, rev, blocks, n) {
            let block = blocks[n as int];
            assert(block.block_index == first + n);
            a_block_fills(codec, before, o, rev, block, offset);
            crate::emit::blocks_go_home(codec, before, o.stripe_width, rev, block);
            if let Ok(after) = with_block(codec, before, o.stripe_width, rev, block) {
                let width = o.stripe_width as int;
                let len = block_record_len(o, codec.spec_layout());
                let home = home_volume(block.block_index, o.stripe_width);
                rounds_are_counted(first + n, width);
                assert forall|v: int| 0 <= v < o.stripe_width implies before.volumes[v].is_prefix_of(
                    #[trigger] after.volumes[v],
                ) by {
                    if v == home {
                        assert(after.volumes[v] == before.volumes[v] + codec.block_bytes(block));
                    } else {
                        assert(after.volumes[v] == before.volumes[v]);
                    }
                    assert(before.volumes[v] =~= after.volumes[v].subrange(
                        0,
                        before.volumes[v].len() as int,
                    ));
                }
                assert(holds_all(before, after, o.stripe_width));
                assert forall|j: int| 0 <= j < count implies lies_in_place(
                    codec,
                    after.volumes,
                    o,
                    offset,
                    #[trigger] blocks[j],
                ) by {
                    if j < n {
                        places_are_kept(codec, before, after, o, offset, blocks[j]);
                    } else {
                        let q = (first + n) / width;
                        assert(before.volumes[home].len() == offset + before.record_counts[home]
                            * len);
                        assert(before.record_counts[home] == q);
                        assert(q * len == len * q) by (nonlinear_arith);
                        let at = offset + len * q;
                        assert(len * q >= 0) by (nonlinear_arith)
                            requires
                                len >= 0,
                                q >= 0,
                        ;
                        assert(after.volumes[home].subrange(at, at + len) =~= codec.block_bytes(
                            block,
                        ));
                    }
                }
            }
        }
    }
}

// ---------------------------------------------------------------------------------------------
// Objects
// ---------------------------------------------------------------------------------------------

/// Whether a payload was sealed as an object of this extent, and every block of the object lies in
/// its place.
pub open spec fn is_stored<C: ArchiveCodec>(
    codec: &C,
    volumes: Seq<Seq<u8>>,
    o: WriterOptions,
    offset: int,
    payload: Seq<u8>,
    context: ObjectEncryptionContext,
    extent: ObjectExtent,
) -> bool {
    encrypted_outcome(codec, payload, context, extent.first_block_index, o) matches Ok(object) && {
        &&& object.extent == extent
        &&& forall|j: int|
            0 <= j < object.records.len() ==> lies_in_place(
                codec,
                volumes,
                o,
                offset,
                #[trigger] object.records[j],
            )
    }
}

proof fn storage_is_kept<C: ArchiveCodec>(
    codec: &C,
    a: Emission,
    b: Emission,
    o: WriterOptions,
    offset: int,
    payload: Seq<u8>,
    context: ObjectEncryptionContext,
    extent: ObjectExtent,
)
    requires
        holds_all(a, b, o.stripe_width),
        is_stored(codec, a.volumes, o, offset, payload, context, extent),
    ensures
        is_stored(codec, b.volumes, o, offset, payload, context, extent),
{
    let object = encrypted_outcome(codec, payload, context, extent.first_block_index, o)->Ok_0;
    assert forall|j: int| 0 <= j < object.records.len() implies lies_in_place(
        codec,
        b.volumes,
        o,
        offset,
        #[trigger] object.records[j],
    ) by {
        places_are_kept(codec, a, b, o, offset, object.records[j]);
    }
}

proof fn written_objects_are_stored<C: ArchiveCodec>(
    codec: &C,
    e: Emission,
    payload: Seq<u8>,
    context: ObjectEncryptionContext,
    o: WriterOptions,
    expected: ObjectExtent,
    kind: Option<MetadataObjectKind>,
    rev: u16,
    offset: int,
)
    requires
        keeps_lengths(codec),
        o.block_size > 0,
        offset >= 0,
        holds_blocks(e, o, codec.spec_layout(), offset),
    ensures
        with_object(codec, e, payload, context, o, expected, kind, rev) matches Ok(w) ==> is_stored(
            codec,
            w.emission.volumes,
            o,
            offset,
            payload,
            context,
            expected,
        ),
{
    if let Ok(w) = with_object(codec, e, payload, context, o, expected, kind, rev) {
        let object = encrypted_outcome(codec, payload, context, e.next_block_index, o)->Ok_0;
        let first = e.next_block_index as int;
        object_blocks_are_numbered(codec, payload, context, o, e.next_block_index);
        let moved = Emission {
            next_block_index: (e.next_block_index + object.extent.total()) as u64,
            ..e
        };
        assert(is_filled(moved, o, codec.spec_layout(), offset, first)) by {
            assert forall|v: int|
                #![trigger moved.volumes[v]]
                #![trigger moved.record_counts[v]]
                0 <= v < o.stripe_width implies {
                &&& moved.record_counts[v] == blocks_on_volume(0, first, o.stripe_width as int, v)
                &&& moved.volumes[v].len() == offset + moved.record_counts[v] * block_record_len(
                    o,
                    codec.spec_layout(),
                )
            } by {
                assert(e.volumes[v].len() == moved.volumes[v].len());
            }
        }
        blocks_lie_in_place(
            codec,
            moved,
            o,
            rev,
            object.records,
            offset,
            first,
            object.records.len(),
        );
    }
}

/// A stored object is read back from its extent alone.
pub proof fn stored_objects_read_back<C: ArchiveCodec>(
    d: Decoder,
    codec: &C,
    options: WriterOptions,
    dictionary: Option<Seq<u8>>,
    starts: Seq<Seq<u8>>,
    volumes: Seq<Seq<u8>>,
    o: WriterOptions,
    offset: int,
    payload: Seq<u8>,
    context: ObjectEncryptionContext,
    extent: ObjectExtent,
)
    requires
        undoes(d, codec, options, dictionary, o),
        keeps_lengths(codec),
        o.block_size > 0,
        o.stripe_width > 0,
        forall|v: int| 0 <= v < o.stripe_width ==> (#[trigger] starts[v]).len() == offset,
        is_stored(codec, volumes, o, offset, payload, context, extent),
    ensures
        (d.open)(
            context,
            read_blocks(
                d,
                starts,
                volumes,
                o,
                extent.first_block_index as int,
                extent.data_block_count as nat,
            ),
        ) == payload,
{
    let object = encrypted_outcome(codec, payload, context, extent.first_block_index, o)->Ok_0;
    let sealed = sealed_payload(codec, payload, context, o)->Ok_0;
    let size = o.block_size as int;
    let first = extent.first_block_index as int;
    let count = extent.data_block_count as nat;
    object_blocks_are_numbered(codec, payload, context, o, extent.first_block_index);
    vstd::arithmetic::div_mod::lemma_fundamental_div_mod(sealed.len() as int, size);
    assert(count * size == sealed.len()) by (nonlinear_arith)
        requires
            sealed.len() == size * count,
    ;
    assert forall|j: int| 0 <= j < count implies (#[trigger] read_block(
        d,
        starts,
        volumes,
        o,
        first + j,
    )).payload == piece(sealed, size, j) by {
        let block = object.records[j];
        assert(lies_in_place(codec, volumes, o, offset, block));
        assert(block.block_index == first + j);
        vstd::arithmetic::div_mod::lemma_mod_bound(first + j, o.stripe_width as int);
        assert(starts[(first + j) % o.stripe_width as int].len() == offset);
        assert((d.block)(codec.block_bytes(block)) == block);
        assert(codec.block_bytes(block).len() == d.framing + block.payload.len());
    }
    pieces_make_the_whole(d, starts, volumes, o, first, sealed, count);
    assert(sealed.take(count * size) =~= sealed);
}

// ---------------------------------------------------------------------------------------------
// The index
// ---------------------------------------------------------------------------------------------

proof fn metadata_is_stored<C: ArchiveCodec>(
    codec: &C,
    e: Emission,
    objects: Seq<MetadataObjectValue>,
    domain: ObjectDomain,
    seal: ArchiveSeal,
    o: WriterOptions,
    rev: u16,
    count: nat,
    offset: int,
    k: int,
)
    requires
        keeps_lengths(codec),
        o.block_size > 0,
        offset >= 0,
        holds_blocks(e, o, codec.spec_layout(), offset),
        0 <= k < count,
    ensures
        with_metadata_objects(codec, e, objects, domain, seal, o, rev, count) matches Ok(after)
            ==> is_stored(
            codec,
            after.volumes,
            o,
            offset,
            objects[k].compressed,
            seal.spec_context(domain, objects[k].object_index, o),
            objects[k].extent,
        ),
    decreases count,
{
    let n = (count - 1) as nat;
    metadata_fills(codec, e, objects, domain, seal, o, rev, n, offset);
    if let Ok(before) = with_metadata_objects(codec, e, objects, domain, seal, o, rev, n) {
        let last = objects[n as int];
        let context = seal.spec_context(domain, last.object_index, o);
        written_objects_are_stored(
            codec,
            before,
            last.compressed,
            context,
            o,
            last.extent,
            None,
            rev,
            offset,
        );
        objects_only_add(codec, before, last.compressed, context, o, last.extent, None, rev);
        if k < n {
            metadata_is_stored(codec, e, objects, domain, seal, o, rev, n, offset, k);
            if let Ok(after) = with_metadata_objects(
                codec,
                e,
                objects,
                domain,
                seal,
                o,
                rev,
                count,
            ) {
                storage_is_kept(
                    codec,
                    before,
                    after,
                    o,
                    offset,
                    objects[k].compressed,
                    seal.spec_context(domain, objects[k].object_index, o),
                    objects[k].extent,
                );
            }
        }
    }
}

/// With a codec whose lengths are settled, the volumes of a closed archive hold the index: its root
/// lies where the plan says, and so does every one of its shards.
pub proof fn the_index_is_stored<C: ArchiveCodec + MetadataProfile, O: ArchiveWriteSink>(
    codec: &C,
    plan: PlanValue,
    subkeys: Subkeys,
    collect: bool,
    dictionary: Option<Seq<u8>>,
    runs: Seq<SourceRun>,
    caps: ReaderCaps,
    answer: FooterAnswer,
    k: int,
)
    requires
        keeps_lengths(codec),
        is_measured(plan, codec.spec_layout()),
    ensures
        plan_emission::<C, O>(codec, plan, subkeys, collect, dictionary, runs, caps, answer)
            matches Ok(closed) ==> {
            let o = plan.options;
            let seal = ArchiveSeal {
                subkeys,
                archive_uuid: plan.archive_uuid,
                session_id: plan.session_id,
            };
            let volumes = closed.emission.volumes;
            let offset = plan.block_records_offset as int;
            &&& is_stored(
                codec,
                volumes,
                o,
                offset,
                plan.compressed_index_root,
                seal.spec_context(ObjectDomain::IndexRoot, 0, o),
                plan.index_root_extent,
            )
            &&& 0 <= k < plan.index_shard_objects.len() ==> is_stored(
                codec,
                volumes,
                o,
                offset,
                plan.index_shard_objects[k].compressed,
                seal.spec_context(
                    ObjectDomain::IndexShard,
                    plan.index_shard_objects[k].object_index,
                    o,
                ),
                plan.index_shard_objects[k].extent,
            )
        },
{
    if let Ok(closed) = plan_emission::<C, O>(
        codec,
        plan,
        subkeys,
        collect,
        dictionary,
        runs,
        caps,
        answer,
    ) {
        let s = replay_setting(codec, plan, subkeys);
        let o = plan.options;
        let rev = plan.volume_format_rev;
        let offset = plan.block_records_offset as int;
        let seal = ArchiveSeal {
            subkeys,
            archive_uuid: plan.archive_uuid,
            session_id: plan.session_id,
        };
        payloads_hold_blocks::<C, O>(codec, plan, subkeys, collect, dictionary, runs);
        let e = plan_payload_emission::<C, O>(codec, plan, subkeys, collect, dictionary, runs)->Ok_0;
        let listed = plan.index_shard_objects;
        let hinted = plan.directory_hint_objects;
        let body = body_outcome(codec, e, plan, seal, rev)->Ok_0;
        let shards = with_metadata_objects(
            codec,
            e,
            listed,
            ObjectDomain::IndexShard,
            seal,
            o,
            rev,
            listed.len(),
        )->Ok_0;
        metadata_fills(codec, e, listed, ObjectDomain::IndexShard, seal, o, rev, listed.len(), offset);
        let dict = with_dictionary(codec, shards, plan, seal, rev)->Ok_0.emission;
        crate::readback::everything_holds_itself(shards, o.stripe_width);
        if let (Some(compressed), Some((extent, _))) = (
            plan.compressed_dictionary,
            plan.dictionary_extent,
        ) {
            let context = seal.spec_context(ObjectDomain::Dictionary, 0, o);
            let kind = Some(MetadataObjectKind::Dictionary);
            an_object_fills(codec, shards, compressed, context, o, extent, kind, rev, offset);
            objects_only_add(codec, shards, compressed, context, o, extent, kind, rev);
        }
        assert(holds_blocks(dict, o, codec.spec_layout(), offset));
        assert(holds_all(shards, dict, o.stripe_width));
        metadata_fills(
            codec,
            dict,
            hinted,
            ObjectDomain::DirectoryHint,
            seal,
            o,
            rev,
            hinted.len(),
            offset,
        );
        metadata_only_adds(
            codec,
            dict,
            hinted,
            ObjectDomain::DirectoryHint,
            seal,
            o,
            rev,
            hinted.len(),
        );
        let hints = with_metadata_objects(
            codec,
            dict,
            hinted,
            ObjectDomain::DirectoryHint,
            seal,
            o,
            rev,
            hinted.len(),
        )->Ok_0;
        let root_context = seal.spec_context(ObjectDomain::IndexRoot, 0, o);
        let root_kind = Some(MetadataObjectKind::IndexRoot);
        written_objects_are_stored(
            codec,
            hints,
            plan.compressed_index_root,
            root_context,
            o,
            plan.index_root_extent,
            root_kind,
            rev,
            offset,
        );
        objects_only_add(
            codec,
            hints,
            plan.compressed_index_root,
            root_context,
            o,
            plan.index_root_extent,
            root_kind,
            rev,
        );
        let footer = answer->Ok_0;
        tails_only_add(
            codec,
            body.emission,
            plan,
            subkeys,
            s.headers,
            footer,
            caps,
            o.stripe_width as nat,
        );
        let tailed = with_tails(
            codec,
            body.emission,
            plan,
            subkeys,
            s.headers,
            footer,
            caps,
            o.stripe_width as nat,
        )->Ok_0;
        assert(closed.emission.volumes == tailed.volumes);
        storage_is_kept(
            codec,
            body.emission,
            tailed,
            o,
            offset,
            plan.compressed_index_root,
            root_context,
            plan.index_root_extent,
        );
        if 0 <= k < listed.len() {
            let context = seal.spec_context(ObjectDomain::IndexShard, listed[k].object_index, o);
            metadata_is_stored(
                codec,
                e,
                listed,
                ObjectDomain::IndexShard,
                seal,
                o,
                rev,
                listed.len(),
                offset,
                k,
            );
            holding_is_transitive(shards, dict, hints, o.stripe_width);
            holding_is_transitive(shards, hints, body.emission, o.stripe_width);
            holding_is_transitive(shards, body.emission, tailed, o.stripe_width);
            storage_is_kept(
                codec,
                shards,
                tailed,
                o,
                offset,
                listed[k].compressed,
                context,
                listed[k].extent,
            );
        }
    }
}

/// What an object of the archive opens to, read from the volumes by its extent.
pub open spec fn read_object(
    d: Decoder,
    starts: Seq<Seq<u8>>,
    volumes: Seq<Seq<u8>>,
    o: WriterOptions,
    context: ObjectEncryptionContext,
    extent: ObjectExtent,
) -> Seq<u8> {
    (d.open)(
        context,
        read_blocks(
            d,
            starts,
            volumes,
            o,
            extent.first_block_index as int,
            extent.data_block_count as nat,
        ),
    )
}

/// With a decoder that undoes the codec, the root of the index and each of its shards are read back
/// from the volumes of a closed archive, by their extents, as they were planned.
pub proof fn the_index_reads_back<C: ArchiveCodec + MetadataProfile, O: ArchiveWriteSink>(
    d: Decoder,
    codec: &C,
    options: WriterOptions,
    plan: PlanValue,
    subkeys: Subkeys,
    collect: bool,
    dictionary: Option<Seq<u8>>,
    runs: Seq<SourceRun>,
    caps: ReaderCaps,
    answer: FooterAnswer,
    start: Emission,
    k: int,
)
    requires
        undoes(d, codec, options, dictionary, plan.options),
        keeps_lengths(codec),
        is_measured(plan, codec.spec_layout()),
        begun(
            codec,
            plan.options.stripe_width,
            plan.crypto_header.bytes,
            plan.key_wrap_table,
            plan.archive_uuid,
            plan.session_id,
            plan.volume_format_rev,
            collect,
        ) == Ok::<Emission, FormatError>(start),
    ensures
        plan_emission::<C, O>(codec, plan, subkeys, collect, dictionary, runs, caps, answer)
            matches Ok(closed) ==> {
            let o = plan.options;
            let seal = ArchiveSeal {
                subkeys,
                archive_uuid: plan.archive_uuid,
                session_id: plan.session_id,
            };
            &&& read_object(
                d,
                start.volumes,
                closed.emission.volumes,
                o,
                seal.spec_context(ObjectDomain::IndexRoot, 0, o),
                plan.index_root_extent,
            ) == plan.compressed_index_root
            &&& 0 <= k < plan.index_shard_objects.len() ==> read_object(
                d,
                start.volumes,
                closed.emission.volumes,
                o,
                seal.spec_context(
                    ObjectDomain::IndexShard,
                    plan.index_shard_objects[k].object_index,
                    o,
                ),
                plan.index_shard_objects[k].extent,
            ) == plan.index_shard_objects[k].compressed
        },
{
    if let Ok(closed) = plan_emission::<C, O>(
        codec,
        plan,
        subkeys,
        collect,
        dictionary,
        runs,
        caps,
        answer,
    ) {
        let o = plan.options;
        let offset = plan.block_records_offset as int;
        let seal = ArchiveSeal {
            subkeys,
            archive_uuid: plan.archive_uuid,
            session_id: plan.session_id,
        };
        let volumes = closed.emission.volumes;
        the_index_is_stored::<C, O>(
            codec,
            plan,
            subkeys,
            collect,
            dictionary,
            runs,
            caps,
            answer,
            k,
        );
        begun_archives_are_accounted(
            codec,
            o.stripe_width,
            plan.crypto_header.bytes,
            plan.key_wrap_table,
            plan.archive_uuid,
            plan.session_id,
            plan.volume_format_rev,
            collect,
            start,
        );
        assert forall|v: int| 0 <= v < o.stripe_width implies (#[trigger] start.volumes[v]).len()
            == offset by {
            assert(start.bytes_written[v] == start.volumes[v].len());
        }
        stored_objects_read_back(
            d,
            codec,
            options,
            dictionary,
            start.volumes,
            volumes,
            o,
            offset,
            plan.compressed_index_root,
            seal.spec_context(ObjectDomain::IndexRoot, 0, o),
            plan.index_root_extent,
        );
        if 0 <= k < plan.index_shard_objects.len() {
            let shard = plan.index_shard_objects[k];
            stored_objects_read_back(
                d,
                codec,
                options,
                dictionary,
                start.volumes,
                volumes,
                o,
                offset,
                shard.compressed,
                seal.spec_context(ObjectDomain::IndexShard, shard.object_index, o),
                shard.extent,
            );
        }
    }
}

} // verus!
