//! Reading a sidecar: its header leads to the manifest footer, to the blocks of the index root and to
//! those of the dictionary.
use crate::accounting::keeps_its_layout;
use crate::codec::{ArchiveCodec, HmacDomain, ObjectDomain, SIDECAR_HEADER_COVERED, TagContext};
use crate::emit::{with_object, Emission};
use crate::errors::FormatError;
use crate::format::AeadAlgo;
use crate::headers::{joined_blocks, optional_blocks, sidecar_header, sidecar_outcome};
use crate::keys::{NO_KEY, Subkeys};
use crate::object_plan::{MetadataObjectKind, ObjectExtent};
use crate::objects::{body_outcome, with_dictionary, with_metadata_objects, ArchiveSeal, BodyValue};
use crate::options::WriterOptions;
use crate::plan::PlanValue;
use crate::reading::{sealed_objects_are_whole, undoes, Decoder};
use crate::recovery::{joined_shards, payloads_of, pieces_join_to_the_whole};
use crate::restoration::lies_at;
use crate::seal::{encrypted_outcome, pieces, sealed_payload, ObjectEncryptionContext};
use crate::suffix::with_sidecar;
use crate::wire::{BlockValue, BootstrapSidecarHeader, Record};
use vstd::prelude::*;

verus! {

/// Whether the blocks of an object lie one behind the other in a region, and fill it.
pub open spec fn blocks_fill<C: ArchiveCodec>(
    codec: &C,
    region: Seq<u8>,
    blocks: Seq<BlockValue>,
) -> bool
    decreases blocks.len(),
{
    if blocks.len() == 0 {
        region.len() == 0
    } else {
        let size = codec.block_bytes(blocks[0]).len() as int;
        &&& lies_at(region, 0, codec.block_bytes(blocks[0]))
        &&& blocks_fill(codec, region.skip(size), blocks.skip(1))
    }
}

proof fn joined_blocks_begin_with_the_first<C: ArchiveCodec>(codec: &C, blocks: Seq<BlockValue>)
    requires
        blocks.len() > 0,
    ensures
        joined_blocks(codec, blocks) == codec.block_bytes(blocks[0]) + joined_blocks(
            codec,
            blocks.skip(1),
        ),
    decreases blocks.len(),
{
    reveal_with_fuel(joined_blocks, 2);
    if blocks.len() == 1 {
        assert(blocks.drop_last() =~= Seq::<BlockValue>::empty());
        assert(blocks.skip(1) =~= Seq::<BlockValue>::empty());
        assert(joined_blocks(codec, blocks) =~= codec.block_bytes(blocks[0]));
        assert(codec.block_bytes(blocks[0]) + Seq::<u8>::empty() =~= codec.block_bytes(blocks[0]));
    } else {
        joined_blocks_begin_with_the_first(codec, blocks.drop_last());
        assert(blocks.drop_last().skip(1) =~= blocks.skip(1).drop_last());
        assert(blocks.drop_last()[0] == blocks[0]);
        assert(joined_blocks(codec, blocks) =~= codec.block_bytes(blocks[0]) + joined_blocks(
            codec,
            blocks.skip(1),
        ));
    }
}

proof fn joined_blocks_fill<C: ArchiveCodec>(codec: &C, blocks: Seq<BlockValue>)
    ensures
        blocks_fill(codec, joined_blocks(codec, blocks), blocks),
    decreases blocks.len(),
{
    if blocks.len() > 0 {
        joined_blocks_begin_with_the_first(codec, blocks);
        joined_blocks_fill(codec, blocks.skip(1));
        let first = codec.block_bytes(blocks[0]);
        let whole = joined_blocks(codec, blocks);
        assert(whole.subrange(0, first.len() as int) =~= first);
        assert(whole.skip(first.len() as int) =~= joined_blocks(codec, blocks.skip(1)));
    }
}

/// Whether a part of some bytes is filled with the blocks of an object.
pub open spec fn holds_blocks<C: ArchiveCodec>(
    codec: &C,
    bytes: Seq<u8>,
    offset: u64,
    length: u64,
    blocks: Seq<BlockValue>,
) -> bool {
    &&& offset + length <= bytes.len()
    &&& blocks_fill(codec, bytes.subrange(offset as int, offset + length), blocks)
}

/// Whether a sidecar begins with a header that leads to its parts, up to its end. A bit of the flags
/// stands for each part that is there.
pub open spec fn sidecar_leads_on<C: ArchiveCodec>(
    codec: &C,
    bytes: Seq<u8>,
    header: BootstrapSidecarHeader,
    manifest_footer: Seq<u8>,
    index_root: Seq<BlockValue>,
    dictionary: Option<Seq<BlockValue>>,
) -> bool {
    let index_end = header.index_root_records_offset + header.index_root_records_length;
    &&& lies_at(bytes, 0, codec.encoded(Record::SidecarHeader(header)))
    &&& header.manifest_footer_length == manifest_footer.len()
    &&& lies_at(bytes, header.manifest_footer_offset as int, manifest_footer)
    &&& holds_blocks(
        codec,
        bytes,
        header.index_root_records_offset,
        header.index_root_records_length,
        index_root,
    )
    &&& match dictionary {
        None => {
            &&& header.flags == 3
            &&& header.dictionary_records_offset == 0
            &&& header.dictionary_records_length == 0
            &&& index_end == bytes.len()
        },
        Some(blocks) => {
            &&& header.flags == 7
            &&& header.dictionary_records_offset == index_end
            &&& header.dictionary_records_offset + header.dictionary_records_length == bytes.len()
            &&& holds_blocks(
                codec,
                bytes,
                header.dictionary_records_offset,
                header.dictionary_records_length,
                blocks,
            )
        },
    }
}

/// Whether the tag of a sidecar is that which a reader with the keys computes over the header without
/// its tag, for the archive that the header names.
pub open spec fn sidecar_tag_checks_out<C: ArchiveCodec>(
    codec: &C,
    header: BootstrapSidecarHeader,
    aead_algo: AeadAlgo,
    volume_format_rev: u16,
    subkeys: Subkeys,
) -> bool {
    let bare = codec.encoded(
        Record::SidecarHeader(BootstrapSidecarHeader { sidecar_hmac: NO_KEY, ..header }),
    );
    codec.tag(
        TagContext {
            domain: HmacDomain::BootstrapSidecar,
            aead_algo,
            volume_format_rev,
            mac_key: subkeys.mac_key,
            archive_uuid: header.archive_uuid,
            session_id: header.session_id,
        },
        bare.take(SIDECAR_HEADER_COVERED as int),
    ) == Ok::<[u8; 32], FormatError>(header.sidecar_hmac)
}

/// A sidecar is read back: its header names the archive and leads to the manifest footer, to the
/// blocks of the index root and to those of the dictionary, with nothing behind them; and its tag
/// checks out.
pub proof fn sidecars_lead_on<C: ArchiveCodec>(
    codec: &C,
    subkeys: Subkeys,
    aead_algo: AeadAlgo,
    volume_format_rev: u16,
    archive_uuid: [u8; 16],
    session_id: [u8; 16],
    manifest_footer: Seq<u8>,
    index_root: Seq<BlockValue>,
    dictionary: Option<Seq<BlockValue>>,
)
    requires
        keeps_its_layout(codec),
        manifest_footer.len() == codec.spec_layout().manifest_footer,
    ensures
        sidecar_outcome(
            codec,
            subkeys,
            aead_algo,
            volume_format_rev,
            archive_uuid,
            session_id,
            manifest_footer,
            index_root,
            dictionary,
        ) matches Ok(bytes) ==> exists|header: BootstrapSidecarHeader|
            {
                &&& header.archive_uuid == archive_uuid
                &&& header.session_id == session_id
                &&& #[trigger] sidecar_leads_on(
                    codec,
                    bytes,
                    header,
                    manifest_footer,
                    index_root,
                    dictionary,
                )
                &&& sidecar_tag_checks_out(codec, header, aead_algo, volume_format_rev, subkeys)
            },
{
    let outcome = sidecar_outcome(
        codec,
        subkeys,
        aead_algo,
        volume_format_rev,
        archive_uuid,
        session_id,
        manifest_footer,
        index_root,
        dictionary,
    );
    if let Ok(bytes) = outcome {
        let layout = codec.spec_layout();
        let index_bytes = joined_blocks(codec, index_root);
        let dictionary_bytes = optional_blocks(codec, dictionary);
        let bare = sidecar_header(
            layout,
            archive_uuid,
            session_id,
            index_bytes.len() as int,
            dictionary is Some,
            dictionary_bytes.len() as int,
        );
        let context = TagContext {
            domain: HmacDomain::BootstrapSidecar,
            aead_algo,
            volume_format_rev,
            mac_key: subkeys.mac_key,
            archive_uuid,
            session_id,
        };
        let tag = codec.tag(
            context,
            codec.encoded(Record::SidecarHeader(bare)).take(SIDECAR_HEADER_COVERED as int),
        )->Ok_0;
        let header = BootstrapSidecarHeader { sidecar_hmac: tag, ..bare };
        let head = codec.encoded(Record::SidecarHeader(header));
        let at = head.len() as int;
        let index_at = at + manifest_footer.len();
        let index_end = index_at + index_bytes.len();
        assert(bytes == head + manifest_footer + index_bytes + dictionary_bytes);
        assert(bytes.subrange(0, at) =~= head);
        assert(bytes.subrange(at, index_at) =~= manifest_footer);
        assert(bytes.subrange(index_at, index_end) =~= index_bytes);
        assert(bytes.subrange(index_end, bytes.len() as int) =~= dictionary_bytes);
        joined_blocks_fill(codec, index_root);
        if let Some(blocks) = dictionary {
            joined_blocks_fill(codec, blocks);
        }
        assert(bare == (BootstrapSidecarHeader { sidecar_hmac: NO_KEY, ..header }));
        assert(sidecar_leads_on(codec, bytes, header, manifest_footer, index_root, dictionary));
    }
}

/// What stands beside an archive of one volume is a sidecar of that archive, with the manifest footer
/// of its volume and the blocks of its index root and dictionary. No other archive has one.
pub proof fn archives_of_one_volume_have_a_sidecar<C: ArchiveCodec>(
    codec: &C,
    e: Emission,
    plan: PlanValue,
    subkeys: Subkeys,
    manifest: Seq<u8>,
    body: BodyValue,
)
    requires
        keeps_its_layout(codec),
        manifest.len() == codec.spec_layout().manifest_footer,
        e.sidecar.len() == 0,
    ensures
        with_sidecar(codec, e, plan, subkeys, manifest, body) matches Ok(closed) ==> {
            &&& closed.emission.sidecar.len() <= u64::MAX ==> closed.sidecar_bytes
                == closed.emission.sidecar.len()
            &&& plan.options.stripe_width != 1 ==> closed.sidecar_bytes == 0
            &&& plan.options.stripe_width == 1 ==> exists|header: BootstrapSidecarHeader|
                {
                    &&& header.archive_uuid == plan.archive_uuid
                    &&& header.session_id == plan.session_id
                    &&& #[trigger] sidecar_leads_on(
                        codec,
                        closed.emission.sidecar,
                        header,
                        manifest,
                        body.index_root,
                        body.dictionary,
                    )
                    &&& sidecar_tag_checks_out(
                        codec,
                        header,
                        plan.options.aead_algo,
                        plan.volume_format_rev,
                        subkeys,
                    )
                }
        },
{
    if let Ok(closed) = with_sidecar(codec, e, plan, subkeys, manifest, body) {
        if plan.options.stripe_width == 1 {
            let bytes = sidecar_outcome(
                codec,
                subkeys,
                plan.options.aead_algo,
                plan.volume_format_rev,
                plan.archive_uuid,
                plan.session_id,
                manifest,
                body.index_root,
                body.dictionary,
            )->Ok_0;
            assert(closed.emission.sidecar =~= bytes);
            sidecars_lead_on(
                codec,
                subkeys,
                plan.options.aead_algo,
                plan.volume_format_rev,
                plan.archive_uuid,
                plan.session_id,
                manifest,
                body.index_root,
                body.dictionary,
            );
        }
    }
}

/// Whether the first blocks of an object, as many as its extent says, open to a payload.
pub open spec fn blocks_open_to(
    d: Decoder,
    blocks: Seq<BlockValue>,
    extent: ObjectExtent,
    context: ObjectEncryptionContext,
    payload: Seq<u8>,
) -> bool {
    &&& blocks.len() == extent.total()
    &&& (d.open)(
        context,
        joined_shards(payloads_of(blocks.take(extent.data_block_count as int))),
    ) == payload
}

proof fn written_blocks_open<C: ArchiveCodec>(
    d: Decoder,
    codec: &C,
    e: Emission,
    payload: Seq<u8>,
    context: ObjectEncryptionContext,
    o: WriterOptions,
    expected: ObjectExtent,
    kind: Option<MetadataObjectKind>,
    rev: u16,
    dictionary: Option<Seq<u8>>,
)
    requires
        undoes(d, codec, o, dictionary, o),
        o.block_size > 0,
    ensures
        with_object(codec, e, payload, context, o, expected, kind, rev) matches Ok(w)
            ==> blocks_open_to(d, w.blocks, expected, context, payload),
{
    if let Ok(w) = with_object(codec, e, payload, context, o, expected, kind, rev) {
        sealed_objects_are_whole(
            d,
            codec,
            o,
            dictionary,
            o,
            payload,
            context,
            e.next_block_index,
        );
        let x = encrypted_outcome(codec, payload, context, e.next_block_index, o)->Ok_0;
        let sealed = sealed_payload(codec, payload, context, o)->Ok_0;
        let n = x.extent.data_block_count as int;
        let size = o.block_size as int;
        pieces_join_to_the_whole(sealed, size, n);
        assert(payloads_of(w.blocks.take(n)) =~= pieces(sealed, size, n));
        assert(sealed.take(n * size) =~= sealed);
    }
}

/// The blocks that a sidecar repeats open to the index root and to the dictionary of the plan, and
/// there are blocks of a dictionary where the plan has one.
pub proof fn sidecar_blocks_open_to_the_index<C: ArchiveCodec>(
    d: Decoder,
    codec: &C,
    e: Emission,
    plan: PlanValue,
    seal: ArchiveSeal,
    rev: u16,
    dictionary: Option<Seq<u8>>,
)
    requires
        undoes(d, codec, plan.options, dictionary, plan.options),
        plan.options.block_size > 0,
        plan.compressed_dictionary is Some == plan.dictionary_extent is Some,
    ensures
        body_outcome(codec, e, plan, seal, rev) matches Ok(body) ==> {
            &&& blocks_open_to(
                d,
                body.index_root,
                plan.index_root_extent,
                seal.spec_context(ObjectDomain::IndexRoot, 0, plan.options),
                plan.compressed_index_root,
            )
            &&& match plan.dictionary_extent {
                None => body.dictionary is None,
                Some((extent, _)) => {
                    &&& body.dictionary matches Some(blocks)
                    &&& blocks_open_to(
                        d,
                        blocks,
                        extent,
                        seal.spec_context(ObjectDomain::Dictionary, 0, plan.options),
                        plan.compressed_dictionary->0,
                    )
                },
            }
        },
{
    if let Ok(body) = body_outcome(codec, e, plan, seal, rev) {
        let o = plan.options;
        let shards = with_metadata_objects(
            codec,
            e,
            plan.index_shard_objects,
            ObjectDomain::IndexShard,
            seal,
            o,
            rev,
            plan.index_shard_objects.len(),
        )->Ok_0;
        let after = with_dictionary(codec, shards, plan, seal, rev)->Ok_0;
        let hints = with_metadata_objects(
            codec,
            after.emission,
            plan.directory_hint_objects,
            ObjectDomain::DirectoryHint,
            seal,
            o,
            rev,
            plan.directory_hint_objects.len(),
        )->Ok_0;
        if let Some((extent, _)) = plan.dictionary_extent {
            written_blocks_open(
                d,
                codec,
                shards,
                plan.compressed_dictionary->0,
                seal.spec_context(ObjectDomain::Dictionary, 0, o),
                o,
                extent,
                Some(MetadataObjectKind::Dictionary),
                rev,
                dictionary,
            );
        }
        written_blocks_open(
            d,
            codec,
            hints,
            plan.compressed_index_root,
            seal.spec_context(ObjectDomain::IndexRoot, 0, o),
            o,
            plan.index_root_extent,
            Some(MetadataObjectKind::IndexRoot),
            rev,
            dictionary,
        );
    }
}

} // verus!
