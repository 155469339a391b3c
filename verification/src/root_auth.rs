//! The root-authentication footer, which signs an archive as a whole.
use crate::arith::{checked_u64_add, u32_len};
use crate::bytes::to_bytes;
use crate::codec::{
    ArchiveCodec, ArchiveRootFacts, CriticalMetadataFacts, MANIFEST_FOOTER_COVERED,
    RootAuthDescriptor, WireLayout,
};
use crate::errors::{bytes_agree, FormatError};
use crate::format::CRYPTO_HEADER_HMAC_LEN;
use crate::headers::{
    manifest_common_part, manifest_footer_global_pre_hmac_bytes, CryptoHeader, CryptoHeaderValue,
};
use crate::object_plan::ObjectExtent;
use crate::options::{ReaderCaps, WriterOptions};
use crate::sorting::{is_ranked, of_rank, same_rank, stable_sort, stably_sorted, Ranked};
use crate::wire::{
    DirectoryHintShardEntry, FecLayoutObjectRow, RootAuthFooterV1, RootAuthFooterValue, ShardEntry,
};
use core::cmp::Ordering;
use vstd::prelude::*;

verus! {

/// Who signs an archive, and how long the signature is.
#[derive(Debug, Clone, Copy)]
pub struct RootAuthWriterConfig<'a> {
    pub authenticator_id: u16,
    pub signer_identity_type: u16,
    pub signer_identity: &'a [u8],
    pub authenticator_value_length: u32,
}

/// What a signer signs.
#[derive(Debug, Clone, Copy, PartialEq, Eq)]
pub struct RootAuthSigningRequest {
    pub root_auth_spec_id: [u8; 24],
    pub archive_uuid: [u8; 16],
    pub session_id: [u8; 16],
    pub archive_root: [u8; 32],
}

/// A payload envelope and where it lies.
#[derive(Debug, Clone, Copy, PartialEq, Eq)]
pub struct PayloadObject {
    pub envelope_index: u64,
    pub plaintext_size: u32,
    pub object: ObjectExtent,
}

// ---------------------------------------------------------------------------------------------
// Lengths
// ---------------------------------------------------------------------------------------------

/// Why the variable parts of a footer are too long.
pub open spec fn variable_length_refusal(identity_len: int, value_len: int, caps: ReaderCaps) -> Option<
    FormatError,
> {
    if identity_len > caps.max_root_auth_signer_identity_len {
        Some(
            FormatError::ReaderResourceLimitExceeded {
                field: "RootAuthFooterV1 signer identity length",
                cap: caps.max_root_auth_signer_identity_len as u64,
                actual: identity_len as u64,
            },
        )
    } else if value_len > caps.max_root_auth_authenticator_value_len {
        Some(
            FormatError::ReaderResourceLimitExceeded {
                field: "RootAuthFooterV1 authenticator value length",
                cap: caps.max_root_auth_authenticator_value_len as u64,
                actual: value_len as u64,
            },
        )
    } else {
        None
    }
}

pub fn validate_root_auth_variable_lengths_for_writer(
    signer_identity_len: usize,
    authenticator_value_len: usize,
    caps: &ReaderCaps,
) -> (r: Result<(), FormatError>)
    ensures
        r == (match variable_length_refusal(
            signer_identity_len as int,
            authenticator_value_len as int,
            *caps,
        ) {
            Some(e) => Err(e),
            None => Ok(()),
        }),
{
    if signer_identity_len as u64 > caps.max_root_auth_signer_identity_len as u64 {
        return Err(
            FormatError::ReaderResourceLimitExceeded {
                field: "RootAuthFooterV1 signer identity length",
                cap: caps.max_root_auth_signer_identity_len as u64,
                actual: signer_identity_len as u64,
            },
        );
    }
    if authenticator_value_len as u64 > caps.max_root_auth_authenticator_value_len as u64 {
        return Err(
            FormatError::ReaderResourceLimitExceeded {
                field: "RootAuthFooterV1 authenticator value length",
                cap: caps.max_root_auth_authenticator_value_len as u64,
                actual: authenticator_value_len as u64,
            },
        );
    }
    Ok(())
}

/// Bytes of the checksum that ends a footer.
pub const ROOT_AUTH_CHECKSUM_LEN: usize = 4;

/// The length of a footer: its fixed part, the identity, the signature and a checksum.
pub open spec fn footer_length_outcome(
    layout: WireLayout,
    identity_len: int,
    value_len: int,
    caps: ReaderCaps,
) -> Result<u32, FormatError> {
    let len = layout.root_auth_footer_fixed + identity_len + value_len + ROOT_AUTH_CHECKSUM_LEN;
    match variable_length_refusal(identity_len, value_len, caps) {
        Some(e) => Err(e),
        None => if len > usize::MAX {
            Err(FormatError::WriterUnsupported("RootAuthFooterV1 length overflow"))
        } else if len > caps.max_root_auth_footer_len {
            Err(
                FormatError::ReaderResourceLimitExceeded {
                    field: "RootAuthFooterV1 length",
                    cap: caps.max_root_auth_footer_len as u64,
                    actual: len as u64,
                },
            )
        } else {
            Ok(len as u32)
        },
    }
}

pub fn root_auth_footer_wire_length(
    signer_identity_len: usize,
    authenticator_value_len: usize,
    layout: &WireLayout,
    caps: &ReaderCaps,
) -> (r: Result<u32, FormatError>)
    ensures
        r == footer_length_outcome(
            *layout,
            signer_identity_len as int,
            authenticator_value_len as int,
            *caps,
        ),
{
    validate_root_auth_variable_lengths_for_writer(
        signer_identity_len,
        authenticator_value_len,
        caps,
    )?;
    let fixed: usize = layout.root_auth_footer_fixed as usize + ROOT_AUTH_CHECKSUM_LEN;
    let with_identity: usize = match fixed.checked_add(signer_identity_len) {
        Some(len) => len,
        None => {
            return Err(FormatError::WriterUnsupported("RootAuthFooterV1 length overflow"));
        },
    };
    let len: usize = match with_identity.checked_add(authenticator_value_len) {
        Some(len) => len,
        None => {
            return Err(FormatError::WriterUnsupported("RootAuthFooterV1 length overflow"));
        },
    };
    if len as u64 > caps.max_root_auth_footer_len as u64 {
        return Err(
            FormatError::ReaderResourceLimitExceeded {
                field: "RootAuthFooterV1 length",
                cap: caps.max_root_auth_footer_len as u64,
                actual: len as u64,
            },
        );
    }
    Ok(len as u32)
}

/// Whether a footer for this signer can be written.
pub fn validate_root_auth_writer_config(
    config: &RootAuthWriterConfig<'_>,
    layout: &WireLayout,
    caps: &ReaderCaps,
) -> (r: Result<(), FormatError>)
    ensures
        r == (match footer_length_outcome(
            *layout,
            config.signer_identity@.len() as int,
            config.authenticator_value_length as int,
            *caps,
        ) {
            Ok(_) => Ok(()),
            Err(e) => Err(e),
        }),
{
    root_auth_footer_wire_length(
        config.signer_identity.len(),
        config.authenticator_value_length as usize,
        layout,
        caps,
    )?;
    Ok(())
}

// ---------------------------------------------------------------------------------------------
// Object layout
// ---------------------------------------------------------------------------------------------

pub open spec fn extent_row(object_class: u8, object_id: u64, extent: ObjectExtent, plain_size: u32) -> FecLayoutObjectRow {
    FecLayoutObjectRow {
        object_class,
        present: true,
        object_id,
        first_block_index: extent.first_block_index,
        data_block_count: extent.data_block_count,
        parity_block_count: extent.parity_block_count,
        encrypted_size: extent.encrypted_size,
        plain_size,
    }
}

pub open spec fn absent_dictionary_row() -> FecLayoutObjectRow {
    FecLayoutObjectRow {
        object_class: 2,
        present: false,
        object_id: 0,
        first_block_index: 0,
        data_block_count: 0,
        parity_block_count: 0,
        encrypted_size: 0,
        plain_size: 0,
    }
}

pub open spec fn shard_row(entry: ShardEntry) -> FecLayoutObjectRow {
    FecLayoutObjectRow {
        object_class: 3,
        present: true,
        object_id: entry.shard_index,
        first_block_index: entry.first_block_index,
        data_block_count: entry.data_block_count,
        parity_block_count: entry.parity_block_count,
        encrypted_size: entry.encrypted_size,
        plain_size: entry.decompressed_size,
    }
}

pub open spec fn payload_row(payload: PayloadObject) -> FecLayoutObjectRow {
    extent_row(4, payload.envelope_index, payload.object, payload.plaintext_size)
}

pub open spec fn hint_row(entry: DirectoryHintShardEntry) -> FecLayoutObjectRow {
    FecLayoutObjectRow {
        object_class: 5,
        present: true,
        object_id: entry.hint_shard_index,
        first_block_index: entry.first_block_index,
        data_block_count: entry.data_block_count,
        parity_block_count: entry.parity_block_count,
        encrypted_size: entry.encrypted_size,
        plain_size: entry.decompressed_size,
    }
}

/// Every object of an archive: the index root, the dictionary or its absence, then the index
/// shards, the payload envelopes and the directory hints in order.
pub open spec fn layout_rows(
    index_root: ObjectExtent,
    index_root_plain_size: u32,
    dictionary: Option<(ObjectExtent, u32)>,
    shards: Seq<ShardEntry>,
    payload: Seq<PayloadObject>,
    hints: Seq<DirectoryHintShardEntry>,
) -> Seq<FecLayoutObjectRow> {
    seq![
        extent_row(1, 0, index_root, index_root_plain_size),
        match dictionary {
            Some((extent, size)) => extent_row(2, 0, extent, size),
            None => absent_dictionary_row(),
        },
    ] + shards.map_values(|e: ShardEntry| shard_row(e)) + payload.map_values(
        |p: PayloadObject| payload_row(p),
    ) + hints.map_values(|e: DirectoryHintShardEntry| hint_row(e))
}

pub fn writer_fec_layout_rows_from_extents(
    index_root_extent: ObjectExtent,
    index_root_plain_size: u32,
    dictionary_extent: Option<(ObjectExtent, u32)>,
    shard_entries: &Vec<ShardEntry>,
    payload_objects: &Vec<PayloadObject>,
    directory_hint_entries: &Vec<DirectoryHintShardEntry>,
) -> (r: Vec<FecLayoutObjectRow>)
    ensures
        r@ == layout_rows(
            index_root_extent,
            index_root_plain_size,
            dictionary_extent,
            shard_entries@,
            payload_objects@,
            directory_hint_entries@,
        ),
{
    let mut rows: Vec<FecLayoutObjectRow> = Vec::new();
    rows.push(
        FecLayoutObjectRow {
            object_class: 1,
            present: true,
            object_id: 0,
            first_block_index: index_root_extent.first_block_index,
            data_block_count: index_root_extent.data_block_count,
            parity_block_count: index_root_extent.parity_block_count,
            encrypted_size: index_root_extent.encrypted_size,
            plain_size: index_root_plain_size,
        },
    );
    match dictionary_extent {
        Some((dictionary, decompressed_size)) => {
            rows.push(
                FecLayoutObjectRow {
                    object_class: 2,
                    present: true,
                    object_id: 0,
                    first_block_index: dictionary.first_block_index,
                    data_block_count: dictionary.data_block_count,
                    parity_block_count: dictionary.parity_block_count,
                    encrypted_size: dictionary.encrypted_size,
                    plain_size: decompressed_size,
                },
            );
        },
        None => {
            rows.push(
                FecLayoutObjectRow {
                    object_class: 2,
                    present: false,
                    object_id: 0,
                    first_block_index: 0,
                    data_block_count: 0,
                    parity_block_count: 0,
                    encrypted_size: 0,
                    plain_size: 0,
                },
            );
        },
    }
    let ghost head = rows@;
    let mut i: usize = 0;
    while i < shard_entries.len()
        invariant
            i <= shard_entries.len(),
            rows@ =~= head + shard_entries@.take(i as int).map_values(|e: ShardEntry| shard_row(e)),
        decreases shard_entries.len() - i,
    {
        let entry: ShardEntry = shard_entries[i];
        rows.push(
            FecLayoutObjectRow {
                object_class: 3,
                present: true,
                object_id: entry.shard_index,
                first_block_index: entry.first_block_index,
                data_block_count: entry.data_block_count,
                parity_block_count: entry.parity_block_count,
                encrypted_size: entry.encrypted_size,
                plain_size: entry.decompressed_size,
            },
        );
        i = i + 1;
    }
    assert(shard_entries@.take(i as int) =~= shard_entries@);
    let ghost with_shards = rows@;
    let mut i: usize = 0;
    while i < payload_objects.len()
        invariant
            i <= payload_objects.len(),
            rows@ =~= with_shards + payload_objects@.take(i as int).map_values(
                |p: PayloadObject| payload_row(p),
            ),
        decreases payload_objects.len() - i,
    {
        let payload: PayloadObject = payload_objects[i];
        rows.push(
            FecLayoutObjectRow {
                object_class: 4,
                present: true,
                object_id: payload.envelope_index,
                first_block_index: payload.object.first_block_index,
                data_block_count: payload.object.data_block_count,
                parity_block_count: payload.object.parity_block_count,
                encrypted_size: payload.object.encrypted_size,
                plain_size: payload.plaintext_size,
            },
        );
        i = i + 1;
    }
    assert(payload_objects@.take(i as int) =~= payload_objects@);
    let ghost with_payload = rows@;
    let mut i: usize = 0;
    while i < directory_hint_entries.len()
        invariant
            i <= directory_hint_entries.len(),
            rows@ =~= with_payload + directory_hint_entries@.take(i as int).map_values(
                |e: DirectoryHintShardEntry| hint_row(e),
            ),
        decreases directory_hint_entries.len() - i,
    {
        let entry: DirectoryHintShardEntry = directory_hint_entries[i];
        rows.push(
            FecLayoutObjectRow {
                object_class: 5,
                present: true,
                object_id: entry.hint_shard_index,
                first_block_index: entry.first_block_index,
                data_block_count: entry.data_block_count,
                parity_block_count: entry.parity_block_count,
                encrypted_size: entry.encrypted_size,
                plain_size: entry.decompressed_size,
            },
        );
        i = i + 1;
    }
    assert(directory_hint_entries@.take(i as int) =~= directory_hint_entries@);
    rows
}

/// Data blocks of the objects that are there.
pub open spec fn present_data_blocks(rows: Seq<FecLayoutObjectRow>) -> int
    decreases rows.len(),
{
    if rows.len() == 0 {
        0
    } else {
        present_data_blocks(rows.drop_last()) + if rows.last().present {
            rows.last().data_block_count as int
        } else {
            0
        }
    }
}

proof fn present_data_blocks_grow(rows: Seq<FecLayoutObjectRow>, n: int)
    requires
        0 <= n <= rows.len(),
    ensures
        0 <= present_data_blocks(rows.take(n)) <= present_data_blocks(rows),
    decreases rows.len(),
{
    if rows.len() == 0 {
        assert(rows.take(n) =~= rows);
    } else if n == rows.len() {
        assert(rows.take(n) =~= rows);
        present_data_blocks_grow(rows.drop_last(), 0);
    } else {
        present_data_blocks_grow(rows.drop_last(), n);
        assert(rows.drop_last().take(n) =~= rows.take(n));
    }
}

fn count_present_data_blocks(rows: &Vec<FecLayoutObjectRow>) -> (r: Result<u64, FormatError>)
    ensures
        r == crate::arith::fit_u64(present_data_blocks(rows@), "root-auth data block count"),
        r matches Ok(count) ==> count == present_data_blocks(rows@),
{
    let mut total: u64 = 0;
    let mut i: usize = 0;
    while i < rows.len()
        invariant
            i <= rows.len(),
            total == present_data_blocks(rows@.take(i as int)),
        decreases rows.len() - i,
    {
        proof {
            assert(rows@.take(i + 1).drop_last() =~= rows@.take(i as int));
            present_data_blocks_grow(rows@, i + 1);
        }
        if rows[i].present {
            total = checked_u64_add(
                total,
                rows[i].data_block_count as u64,
                "root-auth data block count",
            )?;
        }
        i = i + 1;
    }
    assert(rows@.take(i as int) =~= rows@);
    Ok(total)
}

// ---------------------------------------------------------------------------------------------
// Digests
// ---------------------------------------------------------------------------------------------

/// The digest of a data block and the block's number, which ranks it.
#[derive(Debug, Clone, Copy, PartialEq, Eq)]
pub struct DataLeaf {
    pub block_index: u64,
    pub hash: [u8; 32],
}

impl Ranked for DataLeaf {
    open spec fn ranks_below(&self, other: &Self) -> bool {
        self.block_index < other.block_index
    }

    proof fn rank_is_irreflexive(a: &Self) {
    }

    proof fn rank_is_transitive(a: &Self, b: &Self, c: &Self) {
    }

    proof fn rank_ties_are_transitive(a: &Self, b: &Self, c: &Self) {
    }

    fn compare_rank(&self, other: &Self) -> (r: Ordering) {
        if self.block_index < other.block_index {
            Ordering::Less
        } else if other.block_index < self.block_index {
            Ordering::Greater
        } else {
            Ordering::Equal
        }
    }
}

pub open spec fn leaf_hashes(leaves: Seq<DataLeaf>) -> Seq<[u8; 32]> {
    leaves.map_values(|leaf: DataLeaf| leaf.hash)
}

/// What a footer is made from.
pub struct RootAuthFooterBuildInput<'a> {
    pub archive_uuid: [u8; 16],
    pub session_id: [u8; 16],
    pub volume_format_rev: u16,
    pub options: WriterOptions,
    pub crypto_header: &'a CryptoHeader,
    pub volume_zero_manifest: &'a [u8],
    pub index_root_plaintext: &'a [u8],
    pub index_root_extent: ObjectExtent,
    pub dictionary_extent: Option<(ObjectExtent, u32)>,
    pub shard_entries: &'a Vec<ShardEntry>,
    pub payload_objects: &'a Vec<PayloadObject>,
    pub directory_hint_entries: &'a Vec<DirectoryHintShardEntry>,
    pub data_leaf_hashes: &'a Vec<DataLeaf>,
}

impl<'a> RootAuthFooterBuildInput<'a> {
    pub open spec fn wf(self) -> bool {
        &&& self.crypto_header.wf()
        &&& self.volume_zero_manifest@.len() >= MANIFEST_FOOTER_COVERED
    }
}

/// The same by content.
pub struct RootAuthInputValue {
    pub archive_uuid: [u8; 16],
    pub session_id: [u8; 16],
    pub volume_format_rev: u16,
    pub options: WriterOptions,
    pub crypto_header: CryptoHeaderValue,
    pub volume_zero_manifest: Seq<u8>,
    pub index_root_plaintext: Seq<u8>,
    pub index_root_extent: ObjectExtent,
    pub dictionary_extent: Option<(ObjectExtent, u32)>,
    pub shard_entries: Seq<ShardEntry>,
    pub payload_objects: Seq<PayloadObject>,
    pub directory_hint_entries: Seq<DirectoryHintShardEntry>,
    pub data_leaf_hashes: Seq<DataLeaf>,
}

impl<'a> View for RootAuthFooterBuildInput<'a> {
    type V = RootAuthInputValue;

    open spec fn view(&self) -> RootAuthInputValue {
        RootAuthInputValue {
            archive_uuid: self.archive_uuid,
            session_id: self.session_id,
            volume_format_rev: self.volume_format_rev,
            options: self.options,
            crypto_header: self.crypto_header.value(),
            volume_zero_manifest: self.volume_zero_manifest@,
            index_root_plaintext: self.index_root_plaintext@,
            index_root_extent: self.index_root_extent,
            dictionary_extent: self.dictionary_extent,
            shard_entries: self.shard_entries@,
            payload_objects: self.payload_objects@,
            directory_hint_entries: self.directory_hint_entries@,
            data_leaf_hashes: self.data_leaf_hashes@,
        }
    }
}

impl RootAuthInputValue {
    pub open spec fn rows(self) -> Seq<FecLayoutObjectRow> {
        layout_rows(
            self.index_root_extent,
            self.index_root_plaintext.len() as u32,
            self.dictionary_extent,
            self.shard_entries,
            self.payload_objects,
            self.directory_hint_entries,
        )
    }
}

/// Everything that goes into a footer but the signature.
#[derive(Debug, Clone, Copy, PartialEq, Eq)]
pub struct RootAuthDraft {
    pub request: RootAuthSigningRequest,
    pub total_data_block_count: u64,
    pub critical_metadata_digest: [u8; 32],
    pub index_digest: [u8; 32],
    pub fec_layout_digest: [u8; 32],
    pub data_block_merkle_root: [u8; 32],
    pub signer_identity_digest: [u8; 32],
}

/// The digests of how and by whom an archive is signed.
pub open spec fn signer_digests<C: ArchiveCodec>(
    codec: &C,
    config: RootAuthWriterConfig,
    volume_format_rev: u16,
    caps: ReaderCaps,
) -> Result<([u8; 32], [u8; 32]), FormatError> {
    match footer_length_outcome(
        codec.spec_layout(),
        config.signer_identity@.len() as int,
        config.authenticator_value_length as int,
        caps,
    ) {
        Err(e) => Err(e),
        Ok(footer_length) => match codec.descriptor_digest(
            volume_format_rev,
            RootAuthDescriptor {
                authenticator_id: config.authenticator_id,
                signer_identity_type: config.signer_identity_type,
                authenticator_value_length: config.authenticator_value_length,
                footer_length,
            },
            config.signer_identity@,
        ) {
            Err(e) => Err(e),
            Ok(descriptor) => match codec.signer_digest(
                config.signer_identity_type,
                config.signer_identity@,
            ) {
                Err(e) => Err(e),
                Ok(signer) => Ok((descriptor, signer)),
            },
        },
    }
}

/// The digest of the critical metadata of the archive.
pub open spec fn critical_outcome<C: ArchiveCodec>(
    codec: &C,
    input: RootAuthInputValue,
    descriptor_digest: [u8; 32],
) -> Result<[u8; 32], FormatError> {
    if input.index_root_plaintext.len() > u32::MAX {
        Err(FormatError::WriterUnsupported("IndexRoot"))
    } else {
        codec.critical_digest(
            CriticalMetadataFacts {
                archive_uuid: input.archive_uuid,
                session_id: input.session_id,
                format_version: codec.spec_layout().format_version,
                volume_format_rev: input.volume_format_rev,
                stripe_width: input.options.stripe_width,
                total_volumes: input.options.stripe_width,
                crypto_header: input.crypto_header.fixed,
                index_root: input.index_root_extent,
                index_root_decompressed_size: input.index_root_plaintext.len() as u32,
                root_auth_descriptor_digest: descriptor_digest,
            },
            input.crypto_header.covered,
            manifest_common_part(input.volume_zero_manifest),
        )
    }
}

/// The digest of where all objects lie, once their data blocks are all accounted for.
pub open spec fn fec_layout_outcome<C: ArchiveCodec>(
    codec: &C,
    input: RootAuthInputValue,
) -> Result<[u8; 32], FormatError> {
    let expected = present_data_blocks(input.rows());
    if expected > u64::MAX {
        Err(FormatError::WriterUnsupported("root-auth data block count"))
    } else if expected != input.data_leaf_hashes.len() {
        Err(
            FormatError::WriterInvariant("root-auth data block count does not match FEC layout"),
        )
    } else {
        codec.layout_digest(input.volume_format_rev, input.rows())
    }
}

/// What is to be signed, given the data leaves in block order.
pub open spec fn draft_outcome<C: ArchiveCodec>(
    codec: &C,
    config: RootAuthWriterConfig,
    input: RootAuthInputValue,
    caps: ReaderCaps,
    ordered: Seq<DataLeaf>,
) -> Result<RootAuthDraft, FormatError> {
    let rev = input.volume_format_rev;
    match codec.merkle_root(rev, leaf_hashes(ordered)) {
        Err(e) => Err(e),
        Ok(merkle) => match signer_digests(codec, config, rev, caps) {
            Err(e) => Err(e),
            Ok((descriptor, signer)) => match critical_outcome(codec, input, descriptor) {
                Err(e) => Err(e),
                Ok(critical) => match codec.index_digest(rev, input.index_root_plaintext) {
                    Err(e) => Err(e),
                    Ok(index) => match fec_layout_outcome(codec, input) {
                        Err(e) => Err(e),
                        Ok(layout) => match codec.archive_root(
                            ArchiveRootFacts {
                                archive_uuid: input.archive_uuid,
                                session_id: input.session_id,
                                format_version: codec.spec_layout().format_version,
                                volume_format_rev: rev,
                                compression_algo: input.crypto_header.fixed.compression_algo,
                                aead_algo: input.crypto_header.fixed.aead_algo,
                                fec_algo: input.crypto_header.fixed.fec_algo,
                                kdf_algo: input.crypto_header.fixed.kdf_algo,
                                critical_metadata_digest: critical,
                                index_digest: index,
                                fec_layout_digest: layout,
                                total_data_block_count: input.data_leaf_hashes.len() as u64,
                                data_block_merkle_root: merkle,
                                root_auth_descriptor_digest: descriptor,
                                signer_identity_digest: signer,
                            },
                        ) {
                            Err(e) => Err(e),
                            Ok(root) => match codec.root_auth_spec_id(rev) {
                                Err(e) => Err(e),
                                Ok(id) => Ok(
                                    RootAuthDraft {
                                        request: RootAuthSigningRequest {
                                            root_auth_spec_id: id,
                                            archive_uuid: input.archive_uuid,
                                            session_id: input.session_id,
                                            archive_root: root,
                                        },
                                        total_data_block_count: input.data_leaf_hashes.len() as u64,
                                        critical_metadata_digest: critical,
                                        index_digest: index,
                                        fec_layout_digest: layout,
                                        data_block_merkle_root: merkle,
                                        signer_identity_digest: signer,
                                    },
                                ),
                            },
                        },
                    },
                },
            },
        },
    }
}

/// Whether `ordered` is the list of data leaves in block order.
pub open spec fn leaves_in_order(leaves: Seq<DataLeaf>, ordered: Seq<DataLeaf>) -> bool {
    stably_sorted(leaves, ordered)
}

/// Computes what is to be signed.
pub fn draft_root_auth_footer<C: ArchiveCodec>(
    codec: &C,
    config: &RootAuthWriterConfig<'_>,
    input: &RootAuthFooterBuildInput<'_>,
    caps: &ReaderCaps,
) -> (r: Result<RootAuthDraft, FormatError>)
    requires
        input.wf(),
    ensures
        exists|ordered: Seq<DataLeaf>|
            #![trigger leaves_in_order(input.data_leaf_hashes@, ordered)]
            leaves_in_order(input.data_leaf_hashes@, ordered) && r == draft_outcome(
                codec,
                *config,
                input@,
                *caps,
                ordered,
            ),
{
    let layout: WireLayout = codec.layout();
    let rev: u16 = input.volume_format_rev;
    let mut sorted: Vec<DataLeaf> = Vec::new();
    let mut i: usize = 0;
    while i < input.data_leaf_hashes.len()
        invariant
            i <= input.data_leaf_hashes.len(),
            sorted@ =~= input.data_leaf_hashes@.take(i as int),
        decreases input.data_leaf_hashes.len() - i,
    {
        sorted.push(input.data_leaf_hashes[i]);
        i = i + 1;
    }
    assert(sorted@ =~= input.data_leaf_hashes@);
    stable_sort(&mut sorted);
    let ghost ordered = sorted@;
    assert(leaves_in_order(input.data_leaf_hashes@, ordered));
    proof {
        broadcast use vstd::seq_lib::group_to_multiset_ensures;

        assert(ordered.len() == ordered.to_multiset().len());
        assert(ordered.len() == input.data_leaf_hashes@.len());
    }
    let mut hashes: Vec<[u8; 32]> = Vec::new();
    let mut i: usize = 0;
    while i < sorted.len()
        invariant
            i <= sorted.len(),
            sorted@ == ordered,
            hashes@ =~= leaf_hashes(ordered.take(i as int)),
        decreases sorted.len() - i,
    {
        hashes.push(sorted[i].hash);
        i = i + 1;
    }
    assert(ordered.take(i as int) =~= ordered);
    let total_data_block_count: u64 = hashes.len() as u64;
    let data_block_merkle_root: [u8; 32] = codec.hash_leaves(rev, &hashes)?;
    let footer_length: u32 = root_auth_footer_wire_length(
        config.signer_identity.len(),
        config.authenticator_value_length as usize,
        &layout,
        caps,
    )?;
    let root_auth_descriptor_digest: [u8; 32] = codec.hash_descriptor(
        rev,
        &RootAuthDescriptor {
            authenticator_id: config.authenticator_id,
            signer_identity_type: config.signer_identity_type,
            authenticator_value_length: config.authenticator_value_length,
            footer_length,
        },
        config.signer_identity,
    )?;
    let signer_identity_digest: [u8; 32] = codec.hash_signer(
        config.signer_identity_type,
        config.signer_identity,
    )?;
    let manifest: Vec<u8> = manifest_footer_global_pre_hmac_bytes(input.volume_zero_manifest);
    let covered_len: usize = input.crypto_header.bytes.len() - CRYPTO_HEADER_HMAC_LEN;
    let covered: &[u8] = vstd::slice::slice_subrange(
        input.crypto_header.bytes.as_slice(),
        0,
        covered_len,
    );
    assert(covered@ =~= input.crypto_header.covered());
    let index_root_plain_size: u32 = u32_len(input.index_root_plaintext.len(), "IndexRoot")?;
    let critical_metadata_digest: [u8; 32] = codec.hash_critical(
        &CriticalMetadataFacts {
            archive_uuid: input.archive_uuid,
            session_id: input.session_id,
            format_version: layout.format_version,
            volume_format_rev: rev,
            stripe_width: input.options.stripe_width,
            total_volumes: input.options.stripe_width,
            crypto_header: input.crypto_header.fixed,
            index_root: input.index_root_extent,
            index_root_decompressed_size: index_root_plain_size,
            root_auth_descriptor_digest,
        },
        covered,
        manifest.as_slice(),
    )?;
    let index_digest: [u8; 32] = codec.hash_index(rev, input.index_root_plaintext)?;
    let rows: Vec<FecLayoutObjectRow> = writer_fec_layout_rows_from_extents(
        input.index_root_extent,
        index_root_plain_size,
        input.dictionary_extent,
        input.shard_entries,
        input.payload_objects,
        input.directory_hint_entries,
    );
    let expected_data_block_count: u64 = count_present_data_blocks(&rows)?;
    if expected_data_block_count != total_data_block_count {
        return Err(
            FormatError::WriterInvariant("root-auth data block count does not match FEC layout"),
        );
    }
    assert(rows@ == input@.rows());
    let fec_layout_digest: [u8; 32] = codec.hash_layout(rev, &rows)?;
    let archive_root: [u8; 32] = codec.hash_archive(
        &ArchiveRootFacts {
            archive_uuid: input.archive_uuid,
            session_id: input.session_id,
            format_version: layout.format_version,
            volume_format_rev: rev,
            compression_algo: input.crypto_header.fixed.compression_algo,
            aead_algo: input.crypto_header.fixed.aead_algo,
            fec_algo: input.crypto_header.fixed.fec_algo,
            kdf_algo: input.crypto_header.fixed.kdf_algo,
            critical_metadata_digest,
            index_digest,
            fec_layout_digest,
            total_data_block_count,
            data_block_merkle_root,
            root_auth_descriptor_digest,
            signer_identity_digest,
        },
    )?;
    let root_auth_spec_id: [u8; 24] = codec.signing_scheme(rev)?;
    Ok(
        RootAuthDraft {
            request: RootAuthSigningRequest {
                root_auth_spec_id,
                archive_uuid: input.archive_uuid,
                session_id: input.session_id,
                archive_root,
            },
            total_data_block_count,
            critical_metadata_digest,
            index_digest,
            fec_layout_digest,
            data_block_merkle_root,
            signer_identity_digest,
        },
    )
}

// ---------------------------------------------------------------------------------------------
// Footer
// ---------------------------------------------------------------------------------------------

/// The footer with a signature in it.
pub open spec fn signed_footer(
    layout: WireLayout,
    config: RootAuthWriterConfig,
    volume_format_rev: u16,
    draft: RootAuthDraft,
    signature: Seq<u8>,
) -> RootAuthFooterValue {
    RootAuthFooterValue {
        archive_uuid: draft.request.archive_uuid,
        session_id: draft.request.session_id,
        format_version: layout.format_version,
        volume_format_rev,
        authenticator_id: config.authenticator_id,
        signer_identity_type: config.signer_identity_type,
        signer_identity_bytes: config.signer_identity@,
        authenticator_value: signature,
        total_data_block_count: draft.total_data_block_count,
        critical_metadata_digest: draft.critical_metadata_digest,
        index_digest: draft.index_digest,
        fec_layout_digest: draft.fec_layout_digest,
        data_block_merkle_root: draft.data_block_merkle_root,
        signer_identity_digest: draft.signer_identity_digest,
        archive_root: draft.request.archive_root,
    }
}

/// The footer that a signer's answer leads to.
pub open spec fn footer_outcome<C: ArchiveCodec>(
    codec: &C,
    config: RootAuthWriterConfig,
    volume_format_rev: u16,
    draft: RootAuthDraft,
    answer: Result<Seq<u8>, FormatError>,
) -> Result<Seq<u8>, FormatError> {
    match answer {
        Err(e) => Err(e),
        Ok(signature) => if signature.len() != config.authenticator_value_length {
            Err(FormatError::WriterUnsupported("root-auth authenticator length mismatch"))
        } else {
            codec.root_auth_footer_bytes(
                signed_footer(codec.spec_layout(), config, volume_format_rev, draft, signature),
            )
        },
    }
}

/// A signer's answer by content.
pub open spec fn answer_value(answer: Result<Vec<u8>, FormatError>) -> Result<
    Seq<u8>,
    FormatError,
> {
    match answer {
        Ok(signature) => Ok(signature@),
        Err(e) => Err(e),
    }
}

/// Puts a signer's answer into the footer.
pub fn sign_root_auth_footer<C: ArchiveCodec>(
    codec: &C,
    config: &RootAuthWriterConfig<'_>,
    volume_format_rev: u16,
    draft: &RootAuthDraft,
    answer: Result<Vec<u8>, FormatError>,
) -> (r: Result<Vec<u8>, FormatError>)
    ensures
        bytes_agree(
            r,
            footer_outcome(codec, *config, volume_format_rev, *draft, answer_value(answer)),
        ),
{
    let layout: WireLayout = codec.layout();
    let authenticator_value: Vec<u8> = answer?;
    if authenticator_value.len() as u64 != config.authenticator_value_length as u64 {
        return Err(FormatError::WriterUnsupported("root-auth authenticator length mismatch"));
    }
    let footer: RootAuthFooterV1 = RootAuthFooterV1 {
        archive_uuid: draft.request.archive_uuid,
        session_id: draft.request.session_id,
        format_version: layout.format_version,
        volume_format_rev,
        authenticator_id: config.authenticator_id,
        signer_identity_type: config.signer_identity_type,
        signer_identity_bytes: to_bytes(config.signer_identity),
        authenticator_value,
        total_data_block_count: draft.total_data_block_count,
        critical_metadata_digest: draft.critical_metadata_digest,
        index_digest: draft.index_digest,
        fec_layout_digest: draft.fec_layout_digest,
        data_block_merkle_root: draft.data_block_merkle_root,
        signer_identity_digest: draft.signer_identity_digest,
        archive_root: draft.request.archive_root,
    };
    codec.encode_root_auth_footer(&footer)
}

/// Whether `r` is what comes of asking `authenticator` to sign what `input` leads to.
pub open spec fn footer_is_signed<C: ArchiveCodec, F: FnOnce(&RootAuthSigningRequest) -> Result<
    Vec<u8>,
    FormatError,
>>(
    codec: &C,
    config: RootAuthWriterConfig,
    authenticator: F,
    input: RootAuthInputValue,
    caps: ReaderCaps,
    r: Result<Seq<u8>, FormatError>,
) -> bool {
    exists|ordered: Seq<DataLeaf>|
        #![trigger leaves_in_order(input.data_leaf_hashes, ordered)]
        leaves_in_order(input.data_leaf_hashes, ordered) && (match draft_outcome(
            codec,
            config,
            input,
            caps,
            ordered,
        ) {
            Err(e) => r == Err::<Seq<u8>, FormatError>(e),
            Ok(draft) => exists|answer: Result<Vec<u8>, FormatError>| #[trigger]
                authenticator.ensures((&draft.request,), answer) && r == footer_outcome(
                    codec,
                    config,
                    input.volume_format_rev,
                    draft,
                    answer_value(answer),
                ),
        })
}

/// Whether a signer answers every request.
pub open spec fn always_answers<F: FnOnce(&RootAuthSigningRequest) -> Result<Vec<u8>, FormatError>>(
    authenticator: F,
) -> bool {
    forall|request: &RootAuthSigningRequest| #[trigger] authenticator.requires((request,))
}

/// Builds the footer, asking `authenticator` for the signature.
pub fn build_root_auth_footer_from_leaf_hashes<
    C: ArchiveCodec,
    F: FnOnce(&RootAuthSigningRequest) -> Result<Vec<u8>, FormatError>,
>(
    codec: &C,
    config: &RootAuthWriterConfig<'_>,
    authenticator: F,
    input: &RootAuthFooterBuildInput<'_>,
    caps: &ReaderCaps,
) -> (r: Result<Vec<u8>, FormatError>)
    requires
        input.wf(),
        always_answers(authenticator),
    ensures
        footer_is_signed(codec, *config, authenticator, input@, *caps, answer_value(r)),
{
    let draft: RootAuthDraft = draft_root_auth_footer(codec, config, input, caps)?;
    let answer = authenticator(&draft.request);
    let ghost given = answer;
    assert(authenticator.ensures((&draft.request,), given));
    sign_root_auth_footer(codec, config, input.volume_format_rev, &draft, answer)
}

// ---------------------------------------------------------------------------------------------
// Laws
// ---------------------------------------------------------------------------------------------

/// The request that goes to the signer carries the archive's own identity, and its archive root
/// covers exactly the data blocks that the objects of the archive have.
pub proof fn signing_request_binds_the_archive<C: ArchiveCodec>(
    codec: &C,
    config: RootAuthWriterConfig,
    input: RootAuthInputValue,
    caps: ReaderCaps,
    ordered: Seq<DataLeaf>,
)
    ensures
        draft_outcome(codec, config, input, caps, ordered) matches Ok(draft) ==> {
            &&& draft.request.archive_uuid == input.archive_uuid
            &&& draft.request.session_id == input.session_id
            &&& draft.total_data_block_count == present_data_blocks(input.rows())
            &&& draft.total_data_block_count == input.data_leaf_hashes.len()
        },
{
}

/// Whether a block has one leaf only, however often the leaf is listed.
pub open spec fn blocks_have_one_leaf(leaves: Seq<DataLeaf>) -> bool {
    forall|i: int, j: int|
        0 <= i < leaves.len() && 0 <= j < leaves.len() && (#[trigger] leaves[i]).block_index == (
        #[trigger] leaves[j]).block_index ==> leaves[i] == leaves[j]
}

proof fn ordered_leaves_agree(a: Seq<DataLeaf>, b: Seq<DataLeaf>)
    requires
        is_ranked(a),
        is_ranked(b),
        a.to_multiset() == b.to_multiset(),
        blocks_have_one_leaf(a),
    ensures
        a == b,
    decreases a.len(),
{
    broadcast use vstd::seq_lib::group_to_multiset_ensures;

    assert(a.len() == a.to_multiset().len() && b.len() == b.to_multiset().len());
    if a.len() > 0 {
        let n = a.len() - 1;
        assert(a.contains(a[n]) && a.to_multiset().count(a[n]) > 0);
        assert(b.contains(b[n]) && b.to_multiset().count(b[n]) > 0);
        assert(b.contains(a[n]));
        assert(a.contains(b[n]));
        let i = choose|i: int| 0 <= i < b.len() && b[i] == a[n];
        let j = choose|j: int| 0 <= j < a.len() && a[j] == b[n];
        assert(a[n] == b[n]) by {
            if i < n {
                assert(!b[n].ranks_below(&b[i]));
            }
            if j < n {
                assert(!a[n].ranks_below(&a[j]));
            }
            assert(a[j].block_index == a[n].block_index);
        }
        assert(a.remove(n) =~= a.drop_last());
        assert(b.remove(n) =~= b.drop_last());
        ordered_leaves_agree(a.drop_last(), b.drop_last());
        assert(a =~= a.drop_last().push(a[n]));
        assert(b =~= b.drop_last().push(b[n]));
    } else {
        assert(a =~= b);
    }
}

/// In which order the leaves are listed has no part in what is signed.
pub proof fn leaf_order_does_not_matter<C: ArchiveCodec>(
    codec: &C,
    config: RootAuthWriterConfig,
    input: RootAuthInputValue,
    shuffled: Seq<DataLeaf>,
    caps: ReaderCaps,
    ordered: Seq<DataLeaf>,
    ordered_shuffled: Seq<DataLeaf>,
)
    requires
        shuffled.to_multiset() == input.data_leaf_hashes.to_multiset(),
        blocks_have_one_leaf(input.data_leaf_hashes),
        leaves_in_order(input.data_leaf_hashes, ordered),
        leaves_in_order(shuffled, ordered_shuffled),
    ensures
        ordered == ordered_shuffled,
        draft_outcome(codec, config, input, caps, ordered) == draft_outcome(
            codec,
            config,
            RootAuthInputValue { data_leaf_hashes: shuffled, ..input },
            caps,
            ordered_shuffled,
        ),
{
    broadcast use vstd::seq_lib::group_to_multiset_ensures;

    let leaves = input.data_leaf_hashes;
    assert forall|i: int, j: int|
        0 <= i < ordered.len() && 0 <= j < ordered.len() && (#[trigger] ordered[i]).block_index == (
        #[trigger] ordered[j]).block_index implies ordered[i] == ordered[j] by {
        assert(ordered.contains(ordered[i]) && ordered.contains(ordered[j]));
        assert(ordered.to_multiset().count(ordered[i]) > 0);
        assert(ordered.to_multiset().count(ordered[j]) > 0);
        assert(leaves.contains(ordered[i]) && leaves.contains(ordered[j]));
    }
    ordered_leaves_agree(ordered, ordered_shuffled);
    assert(leaves.len() == leaves.to_multiset().len());
    assert(shuffled.len() == shuffled.to_multiset().len());
}

proof fn filters_keep_counts(s: Seq<DataLeaf>, p: spec_fn(DataLeaf) -> bool, x: DataLeaf)
    ensures
        s.filter(p).to_multiset().count(x) == if p(x) {
            s.to_multiset().count(x)
        } else {
            0
        },
    decreases s.len(),
{
    broadcast use vstd::seq_lib::group_to_multiset_ensures;

    reveal(Seq::filter);
    if s.len() > 0 {
        filters_keep_counts(s.drop_last(), p, x);
        assert(s =~= s.drop_last().push(s.last()));
    }
}

/// What is in order for one list of leaves is so for the same leaves in any order.
proof fn shuffled_leaves_have_one_order(
    leaves: Seq<DataLeaf>,
    shuffled: Seq<DataLeaf>,
    ordered: Seq<DataLeaf>,
)
    requires
        shuffled.to_multiset() == leaves.to_multiset(),
        blocks_have_one_leaf(leaves),
        leaves_in_order(leaves, ordered),
    ensures
        leaves_in_order(shuffled, ordered),
{
    assert forall|x: DataLeaf| #[trigger] of_rank(ordered, x) == of_rank(shuffled, x) by {
        let p = |y: DataLeaf| same_rank(&x, &y);
        let f = of_rank(leaves, x);
        let g = of_rank(shuffled, x);
        assert(f.to_multiset() =~= g.to_multiset()) by {
            assert forall|y: DataLeaf| f.to_multiset().count(y) == g.to_multiset().count(y) by {
                filters_keep_counts(leaves, p, y);
                filters_keep_counts(shuffled, p, y);
            }
        }
        leaves.filter_lemma(p);
        shuffled.filter_lemma(p);
        assert forall|i: int, j: int|
            0 <= i < f.len() && 0 <= j < f.len() && (#[trigger] f[i]).block_index == (
            #[trigger] f[j]).block_index implies f[i] == f[j] by {
            broadcast use vstd::seq_lib::group_to_multiset_ensures;

            assert(f.contains(f[i]) && f.contains(f[j]));
            filters_keep_counts(leaves, p, f[i]);
            filters_keep_counts(leaves, p, f[j]);
            assert(f.to_multiset().count(f[i]) > 0 && f.to_multiset().count(f[j]) > 0);
            assert(leaves.contains(f[i]) && leaves.contains(f[j]));
        }
        ordered_leaves_agree(f, g);
        assert(of_rank(ordered, x) == f);
    }
}

/// The same signer may give the same footers, and no others, for the same leaves in any order.
pub proof fn footers_do_not_depend_on_leaf_order<
    C: ArchiveCodec,
    F: FnOnce(&RootAuthSigningRequest) -> Result<Vec<u8>, FormatError>,
>(
    codec: &C,
    config: RootAuthWriterConfig,
    authenticator: F,
    input: RootAuthInputValue,
    shuffled: Seq<DataLeaf>,
    caps: ReaderCaps,
    r: Result<Seq<u8>, FormatError>,
)
    requires
        shuffled.to_multiset() == input.data_leaf_hashes.to_multiset(),
        blocks_have_one_leaf(input.data_leaf_hashes),
        footer_is_signed(codec, config, authenticator, input, caps, r),
    ensures
        footer_is_signed(
            codec,
            config,
            authenticator,
            RootAuthInputValue { data_leaf_hashes: shuffled, ..input },
            caps,
            r,
        ),
{
    let leaves = input.data_leaf_hashes;
    let ordered = choose|ordered: Seq<DataLeaf>|
        #![trigger leaves_in_order(leaves, ordered)]
        leaves_in_order(leaves, ordered) && (match draft_outcome(
            codec,
            config,
            input,
            caps,
            ordered,
        ) {
            Err(e) => r == Err::<Seq<u8>, FormatError>(e),
            Ok(draft) => exists|answer: Result<Vec<u8>, FormatError>| #[trigger]
                authenticator.ensures((&draft.request,), answer) && r == footer_outcome(
                    codec,
                    config,
                    input.volume_format_rev,
                    draft,
                    answer_value(answer),
                ),
        });
    shuffled_leaves_have_one_order(leaves, shuffled, ordered);
    leaf_order_does_not_matter(codec, config, input, shuffled, caps, ordered, ordered);
}

/// A signature of the wrong length is never written.
pub proof fn wrong_signature_length_is_refused<C: ArchiveCodec>(
    codec: &C,
    config: RootAuthWriterConfig,
    volume_format_rev: u16,
    draft: RootAuthDraft,
    signature: Seq<u8>,
)
    requires
        signature.len() != config.authenticator_value_length,
    ensures
        footer_outcome(codec, config, volume_format_rev, draft, Ok(signature)) == Err::<
            Seq<u8>,
            FormatError,
        >(FormatError::WriterUnsupported("root-auth authenticator length mismatch")),
{
}

} // verus!
