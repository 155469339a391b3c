//! What a signature over an archive binds: a verifier that goes by the footer comes to the root that
//! was signed, and archives that differ have different roots.
use crate::codec::{ArchiveCodec, ArchiveRootFacts, CriticalMetadataFacts, RootAuthDescriptor};
use crate::emit::{with_blocks, Emission};
use crate::errors::FormatError;
use crate::headers::manifest_common_part;
use crate::object_plan::ObjectExtent;
use crate::options::ReaderCaps;
use crate::root_auth::{
    draft_outcome, footer_outcome, layout_rows, leaf_hashes, signed_footer, DataLeaf, PayloadObject,
    RootAuthDraft, RootAuthInputValue, RootAuthWriterConfig,
};
use crate::wire::{
    BlockValue, CryptoHeaderFixed, DirectoryHintShardEntry, FecLayoutObjectRow, RootAuthFooterValue,
    ShardEntry,
};
use vstd::prelude::*;

verus! {

// ---------------------------------------------------------------------------------------------
// A verifier
// ---------------------------------------------------------------------------------------------

/// The archive root that a verifier computes from a footer, the algorithms that the crypto header
/// names and the digest of how the archive is signed.
pub open spec fn root_by_footer<C: ArchiveCodec>(
    codec: &C,
    footer: RootAuthFooterValue,
    header: CryptoHeaderFixed,
    descriptor_digest: [u8; 32],
) -> Result<[u8; 32], FormatError> {
    codec.archive_root(
        ArchiveRootFacts {
            archive_uuid: footer.archive_uuid,
            session_id: footer.session_id,
            format_version: footer.format_version,
            volume_format_rev: footer.volume_format_rev,
            compression_algo: header.compression_algo,
            aead_algo: header.aead_algo,
            fec_algo: header.fec_algo,
            kdf_algo: header.kdf_algo,
            critical_metadata_digest: footer.critical_metadata_digest,
            index_digest: footer.index_digest,
            fec_layout_digest: footer.fec_layout_digest,
            total_data_block_count: footer.total_data_block_count,
            data_block_merkle_root: footer.data_block_merkle_root,
            root_auth_descriptor_digest: descriptor_digest,
            signer_identity_digest: footer.signer_identity_digest,
        },
    )
}

/// The digest of how an archive is signed, as a verifier computes it from a footer of a length.
pub open spec fn descriptor_by_footer<C: ArchiveCodec>(
    codec: &C,
    footer: RootAuthFooterValue,
    footer_length: u32,
) -> Result<[u8; 32], FormatError> {
    codec.descriptor_digest(
        footer.volume_format_rev,
        RootAuthDescriptor {
            authenticator_id: footer.authenticator_id,
            signer_identity_type: footer.signer_identity_type,
            authenticator_value_length: footer.authenticator_value.len() as u32,
            footer_length,
        },
        footer.signer_identity_bytes,
    )
}

/// Whether a verifier accepts a footer: the digests in it are those of the index, of where the
/// objects lie, of the signer and of the data blocks in order, and the root in it is the one that
/// they lead to.
pub open spec fn accepts<C: ArchiveCodec>(
    codec: &C,
    footer: RootAuthFooterValue,
    footer_length: u32,
    header: CryptoHeaderFixed,
    index_root: Seq<u8>,
    rows: Seq<FecLayoutObjectRow>,
    hashes: Seq<[u8; 32]>,
) -> bool {
    let rev = footer.volume_format_rev;
    &&& footer.total_data_block_count == hashes.len()
    &&& codec.merkle_root(rev, hashes) == Ok::<[u8; 32], FormatError>(footer.data_block_merkle_root)
    &&& codec.index_digest(rev, index_root) == Ok::<[u8; 32], FormatError>(footer.index_digest)
    &&& codec.layout_digest(rev, rows) == Ok::<[u8; 32], FormatError>(footer.fec_layout_digest)
    &&& codec.signer_digest(footer.signer_identity_type, footer.signer_identity_bytes) == Ok::<
        [u8; 32],
        FormatError,
    >(footer.signer_identity_digest)
    &&& descriptor_by_footer(codec, footer, footer_length) matches Ok(descriptor)
    &&& root_by_footer(codec, footer, header, descriptor) == Ok::<[u8; 32], FormatError>(
        footer.archive_root,
    )
}

/// A verifier accepts the footer that a signature is put into, whatever the signature: the footer
/// carries the identities of the archive and of the signer, the signature and the root that was
/// signed, and that root is the one that the digests in the footer lead to.
pub proof fn signed_footers_are_accepted<C: ArchiveCodec>(
    codec: &C,
    config: RootAuthWriterConfig,
    input: RootAuthInputValue,
    caps: ReaderCaps,
    ordered: Seq<DataLeaf>,
    draft: RootAuthDraft,
    signature: Seq<u8>,
)
    requires
        ordered.len() == input.data_leaf_hashes.len(),
        draft_outcome(codec, config, input, caps, ordered) == Ok::<RootAuthDraft, FormatError>(
            draft,
        ),
        signature.len() == config.authenticator_value_length,
    ensures
        ({
            let footer = signed_footer(
                codec.spec_layout(),
                config,
                input.volume_format_rev,
                draft,
                signature,
            );
            let footer_length = crate::root_auth::footer_length_outcome(
                codec.spec_layout(),
                config.signer_identity@.len() as int,
                config.authenticator_value_length as int,
                caps,
            );
            &&& footer_outcome(codec, config, input.volume_format_rev, draft, Ok(signature))
                == codec.root_auth_footer_bytes(footer)
            &&& footer_length is Ok
            &&& accepts(
                codec,
                footer,
                footer_length->Ok_0,
                input.crypto_header.fixed,
                input.index_root_plaintext,
                input.rows(),
                leaf_hashes(ordered),
            )
            &&& footer.archive_uuid == input.archive_uuid
            &&& footer.session_id == input.session_id
            &&& footer.format_version == codec.spec_layout().format_version
            &&& footer.volume_format_rev == input.volume_format_rev
            &&& footer.authenticator_id == config.authenticator_id
            &&& footer.signer_identity_type == config.signer_identity_type
            &&& footer.signer_identity_bytes == config.signer_identity@
            &&& footer.authenticator_value == signature
            &&& draft.request.archive_root == footer.archive_root
            &&& draft.request.archive_uuid == footer.archive_uuid
            &&& draft.request.session_id == footer.session_id
            &&& codec.root_auth_spec_id(footer.volume_format_rev) == Ok::<[u8; 24], FormatError>(
                draft.request.root_auth_spec_id,
            )
        }),
{
    assert(leaf_hashes(ordered).len() == ordered.len());
}

// ---------------------------------------------------------------------------------------------
// Binding
// ---------------------------------------------------------------------------------------------

/// Whether no two things have the same digest.
pub open spec fn never_collides<C: ArchiveCodec>(codec: &C) -> bool {
    &&& forall|a: ArchiveRootFacts, b: ArchiveRootFacts|
        #![trigger codec.archive_root(a), codec.archive_root(b)]
        codec.archive_root(a) is Ok && codec.archive_root(a) == codec.archive_root(b) ==> a == b
    &&& forall|v: u16, w: u16, a: Seq<[u8; 32]>, b: Seq<[u8; 32]>|
        #![trigger codec.merkle_root(v, a), codec.merkle_root(w, b)]
        codec.merkle_root(v, a) is Ok && codec.merkle_root(v, a) == codec.merkle_root(w, b) ==> a == b
    &&& forall|v: u16, w: u16, a: Seq<u8>, b: Seq<u8>|
        #![trigger codec.index_digest(v, a), codec.index_digest(w, b)]
        codec.index_digest(v, a) is Ok && codec.index_digest(v, a) == codec.index_digest(w, b) ==> a
            == b
    &&& forall|v: u16, w: u16, a: Seq<FecLayoutObjectRow>, b: Seq<FecLayoutObjectRow>|
        #![trigger codec.layout_digest(v, a), codec.layout_digest(w, b)]
        codec.layout_digest(v, a) is Ok && codec.layout_digest(v, a) == codec.layout_digest(w, b)
            ==> a == b
    &&& forall|
        a: CriticalMetadataFacts,
        b: CriticalMetadataFacts,
        c: Seq<u8>,
        d: Seq<u8>,
        m: Seq<u8>,
        n: Seq<u8>,
    |
        #![trigger codec.critical_digest(a, c, m), codec.critical_digest(b, d, n)]
        codec.critical_digest(a, c, m) is Ok && codec.critical_digest(a, c, m)
            == codec.critical_digest(b, d, n) ==> a == b && c == d && m == n
    &&& forall|
        v: u16,
        w: u16,
        a: RootAuthDescriptor,
        b: RootAuthDescriptor,
        i: Seq<u8>,
        j: Seq<u8>,
    |
        #![trigger codec.descriptor_digest(v, a, i), codec.descriptor_digest(w, b, j)]
        codec.descriptor_digest(v, a, i) is Ok && codec.descriptor_digest(v, a, i)
            == codec.descriptor_digest(w, b, j) ==> a == b && i == j
}

/// A signature binds the archive: where no digests collide, drafts of one root are of one archive.
/// They have the same identities, signer, crypto header, manifest, index, layout of objects and
/// digests of data blocks in order.
pub proof fn archives_of_one_root_are_alike<C: ArchiveCodec>(
    codec: &C,
    config: RootAuthWriterConfig,
    other_config: RootAuthWriterConfig,
    input: RootAuthInputValue,
    other: RootAuthInputValue,
    caps: ReaderCaps,
    ordered: Seq<DataLeaf>,
    other_ordered: Seq<DataLeaf>,
    draft: RootAuthDraft,
    other_draft: RootAuthDraft,
)
    requires
        never_collides(codec),
        draft_outcome(codec, config, input, caps, ordered) == Ok::<RootAuthDraft, FormatError>(
            draft,
        ),
        draft_outcome(codec, other_config, other, caps, other_ordered) == Ok::<
            RootAuthDraft,
            FormatError,
        >(other_draft),
        draft.request.archive_root == other_draft.request.archive_root,
    ensures
        input.archive_uuid == other.archive_uuid,
        input.session_id == other.session_id,
        input.volume_format_rev == other.volume_format_rev,
        input.options.stripe_width == other.options.stripe_width,
        input.crypto_header.fixed == other.crypto_header.fixed,
        input.crypto_header.covered == other.crypto_header.covered,
        manifest_common_part(input.volume_zero_manifest) == manifest_common_part(
            other.volume_zero_manifest,
        ),
        input.index_root_plaintext == other.index_root_plaintext,
        input.index_root_extent == other.index_root_extent,
        input.rows() == other.rows(),
        leaf_hashes(ordered) == leaf_hashes(other_ordered),
        config.authenticator_id == other_config.authenticator_id,
        config.signer_identity_type == other_config.signer_identity_type,
        config.signer_identity@ == other_config.signer_identity@,
        config.authenticator_value_length == other_config.authenticator_value_length,
{
}

// ---------------------------------------------------------------------------------------------
// Data blocks
// ---------------------------------------------------------------------------------------------

/// The data blocks among the first `count` blocks.
pub open spec fn data_blocks(blocks: Seq<BlockValue>, count: nat) -> Seq<BlockValue>
    decreases count,
{
    if count == 0 {
        Seq::empty()
    } else if blocks[count - 1].kind.spec_is_data() {
        data_blocks(blocks, (count - 1) as nat).push(blocks[count - 1])
    } else {
        data_blocks(blocks, (count - 1) as nat)
    }
}

/// Whether leaves are the digests of blocks, under their numbers and in their order.
pub open spec fn are_leaves_of<C: ArchiveCodec>(
    codec: &C,
    rev: u16,
    blocks: Seq<BlockValue>,
    leaves: Seq<DataLeaf>,
) -> bool {
    &&& leaves.len() == blocks.len()
    &&& forall|i: int|
        0 <= i < blocks.len() ==> {
            &&& (#[trigger] leaves[i]).block_index == blocks[i].block_index
            &&& codec.merkle_leaf(rev, blocks[i]) == Ok::<[u8; 32], FormatError>(leaves[i].hash)
        }
}

/// Where digests are collected, the blocks that are written leave the digests of the data blocks
/// among them, of each and of no other.
pub proof fn written_data_blocks_leave_their_digests<C: ArchiveCodec>(
    codec: &C,
    e: Emission,
    stripe_width: u32,
    rev: u16,
    blocks: Seq<BlockValue>,
    count: nat,
)
    requires
        e.leaves is Some,
        count <= blocks.len(),
    ensures
        with_blocks(codec, e, stripe_width, rev, blocks, count) matches Ok(after) ==> {
            &&& after.leaves matches Some(leaves)
            &&& leaves.len() >= e.leaves->0.len()
            &&& leaves.take(e.leaves->0.len() as int) == e.leaves->0
            &&& are_leaves_of(
                codec,
                rev,
                data_blocks(blocks, count),
                leaves.skip(e.leaves->0.len() as int),
            )
        },
    decreases count,
{
    let first = e.leaves->0;
    let n = first.len() as int;
    if count == 0 {
        assert(first.take(n) =~= first);
        assert(first.skip(n).len() == 0);
    } else {
        written_data_blocks_leave_their_digests(
            codec,
            e,
            stripe_width,
            rev,
            blocks,
            (count - 1) as nat,
        );
        if let Ok(after) = with_blocks(codec, e, stripe_width, rev, blocks, count) {
            let before = with_blocks(codec, e, stripe_width, rev, blocks, (count - 1) as nat)->Ok_0;
            let old_leaves = before.leaves->0;
            let new_leaves = after.leaves->0;
            assert(new_leaves.take(n) =~= old_leaves.take(n));
            let tail = new_leaves.skip(n);
            let old_tail = old_leaves.skip(n);
            if blocks[count - 1].kind.spec_is_data() {
                assert(tail =~= old_tail.push(new_leaves.last()));
                let list = data_blocks(blocks, count);
                assert forall|i: int| 0 <= i < list.len() implies {
                    &&& (#[trigger] tail[i]).block_index == list[i].block_index
                    &&& codec.merkle_leaf(rev, list[i]) == Ok::<[u8; 32], FormatError>(tail[i].hash)
                } by {
                    if i < list.len() - 1 {
                        assert(tail[i] == old_tail[i]);
                    }
                }
            } else {
                assert(tail =~= old_tail);
            }
        }
    }
}

/// Whether no two data blocks have the same digest.
pub open spec fn blocks_never_collide<C: ArchiveCodec>(codec: &C) -> bool {
    forall|v: u16, w: u16, a: BlockValue, b: BlockValue|
        #![trigger codec.merkle_leaf(v, a), codec.merkle_leaf(w, b)]
        codec.merkle_leaf(v, a) is Ok && codec.merkle_leaf(v, a) == codec.merkle_leaf(w, b) ==> a == b
}

/// A signature binds every data block: where no digests collide, archives whose data blocks differ
/// have different roots.
pub proof fn archives_of_one_root_hold_the_same_blocks<C: ArchiveCodec>(
    codec: &C,
    config: RootAuthWriterConfig,
    other_config: RootAuthWriterConfig,
    input: RootAuthInputValue,
    other: RootAuthInputValue,
    caps: ReaderCaps,
    ordered: Seq<DataLeaf>,
    other_ordered: Seq<DataLeaf>,
    blocks: Seq<BlockValue>,
    other_blocks: Seq<BlockValue>,
    draft: RootAuthDraft,
    other_draft: RootAuthDraft,
)
    requires
        never_collides(codec),
        blocks_never_collide(codec),
        are_leaves_of(codec, input.volume_format_rev, blocks, ordered),
        are_leaves_of(codec, other.volume_format_rev, other_blocks, other_ordered),
        draft_outcome(codec, config, input, caps, ordered) == Ok::<RootAuthDraft, FormatError>(
            draft,
        ),
        draft_outcome(codec, other_config, other, caps, other_ordered) == Ok::<
            RootAuthDraft,
            FormatError,
        >(other_draft),
        draft.request.archive_root == other_draft.request.archive_root,
    ensures
        blocks == other_blocks,
{
    archives_of_one_root_are_alike(
        codec,
        config,
        other_config,
        input,
        other,
        caps,
        ordered,
        other_ordered,
        draft,
        other_draft,
    );
    let hashes = leaf_hashes(ordered);
    let other_hashes = leaf_hashes(other_ordered);
    assert(hashes.len() == ordered.len() && other_hashes.len() == other_ordered.len());
    assert forall|i: int| 0 <= i < blocks.len() implies blocks[i] == other_blocks[i] by {
        assert(hashes[i] == ordered[i].hash);
        assert(other_hashes[i] == other_ordered[i].hash);
    }
    assert(blocks =~= other_blocks);
}

// ---------------------------------------------------------------------------------------------
// Where objects lie
// ---------------------------------------------------------------------------------------------

/// The extent that a row tells of.
pub open spec fn extent_of_row(row: FecLayoutObjectRow) -> ObjectExtent {
    ObjectExtent {
        first_block_index: row.first_block_index,
        data_block_count: row.data_block_count,
        parity_block_count: row.parity_block_count,
        encrypted_size: row.encrypted_size,
    }
}

/// Whether the rows from place `at` on that are of a class tell of `count` objects.
pub open spec fn rows_are_of(
    rows: Seq<FecLayoutObjectRow>,
    at: int,
    count: int,
    class: u8,
) -> bool {
    forall|k: int|
        at <= k < at + count ==> (#[trigger] rows[k]).present && rows[k].object_class == class
}

/// Every object of an archive has a row of its own that tells its class, its number, where it lies
/// and how large it is before it is sealed; and every row is that of an object, but for the one of a
/// dictionary that is not there.
pub proof fn rows_tell_of_every_object(
    index_root: ObjectExtent,
    index_root_plain_size: u32,
    dictionary: Option<(ObjectExtent, u32)>,
    shards: Seq<ShardEntry>,
    payload: Seq<PayloadObject>,
    hints: Seq<DirectoryHintShardEntry>,
)
    ensures
        ({
            let rows = layout_rows(
                index_root,
                index_root_plain_size,
                dictionary,
                shards,
                payload,
                hints,
            );
            let s = shards.len() as int;
            let p = payload.len() as int;
            let h = hints.len() as int;
            &&& rows.len() == 2 + s + p + h
            &&& rows_are_of(rows, 0, 1, 1)
            &&& extent_of_row(rows[0]) == index_root
            &&& rows[0].plain_size == index_root_plain_size
            &&& rows[1].object_class == 2
            &&& rows[1].present <==> dictionary is Some
            &&& dictionary matches Some((extent, size)) ==> extent_of_row(rows[1]) == extent
                && rows[1].plain_size == size
            &&& rows_are_of(rows, 2, s, 3)
            &&& rows_are_of(rows, 2 + s, p, 4)
            &&& rows_are_of(rows, 2 + s + p, h, 5)
            &&& forall|k: int|
                0 <= k < s ==> {
                    let row = rows[2 + k];
                    &&& row.object_id == (#[trigger] shards[k]).shard_index
                    &&& row.first_block_index == shards[k].first_block_index
                    &&& row.data_block_count == shards[k].data_block_count
                    &&& row.parity_block_count == shards[k].parity_block_count
                    &&& row.encrypted_size == shards[k].encrypted_size
                    &&& row.plain_size == shards[k].decompressed_size
                }
            &&& forall|k: int|
                0 <= k < p ==> {
                    let row = rows[2 + s + k];
                    &&& row.object_id == (#[trigger] payload[k]).envelope_index
                    &&& extent_of_row(row) == payload[k].object
                    &&& row.plain_size == payload[k].plaintext_size
                }
            &&& forall|k: int|
                0 <= k < h ==> {
                    let row = rows[2 + s + p + k];
                    &&& row.object_id == (#[trigger] hints[k]).hint_shard_index
                    &&& row.first_block_index == hints[k].first_block_index
                    &&& row.data_block_count == hints[k].data_block_count
                    &&& row.parity_block_count == hints[k].parity_block_count
                    &&& row.encrypted_size == hints[k].encrypted_size
                    &&& row.plain_size == hints[k].decompressed_size
                }
        }),
{
}

} // verus!
