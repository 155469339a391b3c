//! Archives written through a small codec, read back by a reader of its own.
use sha2::{Digest, Sha256};
use std::cell::RefCell;
use std::collections::{BTreeMap, BTreeSet};
use std::rc::Rc;
use tzap_writer::byte_map::ByteMap;
use tzap_writer::capture::{capture_member, open_member};
use tzap_writer::codec::{
    ArchiveCodec, ArchiveRootFacts, CriticalMetadataFacts, HmacDomain, ObjectDomain,
    RootAuthDescriptor, SealContext, TagContext, WireLayout,
};
use tzap_writer::emit::begin_writer_emission_state;
use tzap_writer::entry_flags::{
    native_metadata_requires_system_restore, v45_portable_file_entry_flags,
};
use tzap_writer::errors::{ArchiveWriteError, FormatError, IoError};
use tzap_writer::format::{
    AeadAlgo, BlockKind, KdfAlgo, CRYPTO_EXTENSION_HEADER_LEN, CRYPTO_HEADER_HMAC_LEN,
    MIN_BLOCK_SIZE, TAR_BLOCK_LEN, VOLUME_FORMAT_REV_45,
};
use tzap_writer::headers::{build_crypto_header, serialize_kdf_params};
use tzap_writer::hints::{
    build_directory_hint_plaintexts, should_emit_directory_hints, PlannedDirectoryHintShard,
    DIRECTORY_HINT_REQUIRED_FILE_COUNT,
};
use tzap_writer::key_wrap::{KeyWrapRecordSource, RecipientRecords};
use tzap_writer::keys::{KdfParams, MasterKey, Subkeys};
use tzap_writer::member::{
    build_primary_member_prefix, build_regular_file_member_group, PrimaryInput,
};
use tzap_writer::metadata::{
    ArchiveTimestamp, NativeAuxiliaryMetadata, NativeAuxiliaryNameEncoding, NativeFileMetadata,
    PortableFileMetadata, PortableModeOrigin, PortablePosixOwner, RestoreClass, SourceEntryKind,
    TarEntryKind,
};
use tzap_writer::object_plan::{
    plan_encrypted_object, plan_index_root_metadata_class, validate_object_shard_total,
    ObjectExtent,
};
use tzap_writer::objects::ArchiveSeal;
use tzap_writer::options::{
    compute_object_parity, compute_parity, compute_parity_u16, plan_single_pass_writer_options,
    plan_writer_options, ReaderCaps, WriterOptions, DEFAULT_INDEX_ROOT_FEC_DATA_SHARDS,
    DEFAULT_STRIPE_WIDTH, MIN_INDEX_ROOT_FEC_DATA_SHARDS,
};
use tzap_writer::ordered::{
    build_ordered_envelope_result, build_ordered_frame_result, OrderedEnvelopeJob,
    OrderedEnvelopeRecords, OrderedFrameJob, OrderedParallelState,
};
use tzap_writer::payload::FramePlace;
use tzap_writer::plain::PlainCodec;
use tzap_writer::plan::{build_writer_plan_from_payload, PlanRequest};
use tzap_writer::planning::plan_payload_stream;
use tzap_writer::profile::{AuxiliaryDeclaration, EntryFlagBits, MetadataProfile};
use tzap_writer::progress::{
    ArchiveWritePhase, ArchiveWriteProgressSink, SourceProgressState, Unobserved,
};
use tzap_writer::root_auth::{RootAuthSigningRequest, RootAuthWriterConfig};
use tzap_writer::rows::{
    partition_file_rows, sorted_file_rows, FileRow, TarMember, DEFAULT_FILES_PER_INDEX_SHARD,
    MAX_HASH_PREFIX_RUN_FILES,
};
use tzap_writer::shard::build_index_shard_plaintexts;
use tzap_writer::sink::{ArchiveWriteSink, MemoryArchiveSink};
use tzap_writer::source::{
    open_inline_auxiliary, BytesReader, RegularFile, RegularFileSource, SourceReader,
};
use tzap_writer::sparse::SparseExtent;
use tzap_writer::wire::{
    BlockRecord, CriticalMetadataLayout, EnvelopeEntry, FecLayoutObjectRow, FrameEntry, IndexRoot,
    IndexRootHeader, KeyWrapTableHeader, RecipientRecordV1, Record, RootAuthFooterV1,
    SerializedRegion, ShardEntry,
};
use tzap_writer::writer::{
    write_archive, write_archive_sources_to_sink, write_archive_sources_to_sink_ordered_parallel,
    write_archive_sources_to_sink_ordered_parallel_probe,
    write_archive_sources_to_sink_ordered_parallel_with_progress,
    write_archive_sources_to_sink_ordered_parallel_with_recipient_wrap_records,
    write_archive_sources_to_sink_ordered_parallel_with_recipient_wrap_records_and_progress,
    write_archive_sources_to_sink_single_pass,
    write_archive_sources_to_sink_single_pass_with_progress,
    write_archive_sources_to_sink_single_pass_with_recipient_wrap_records,
    write_archive_sources_to_sink_unordered_probe, write_archive_sources_to_sink_with_progress,
    write_archive_unencrypted, write_archive_with_dictionary,
    write_archive_with_dictionary_and_kdf, write_archive_with_dictionary_and_root_auth,
    write_archive_with_dictionary_kdf_and_root_auth, write_archive_with_kdf,
    write_archive_with_recipient_wrap_records, write_archive_with_root_auth,
    write_archive_with_root_auth_and_kdf, write_archive_with_root_auth_and_recipient_wrap_records,
    write_empty_archive, WrittenArchive,
};

// ---------------------------------------------------------------------------------------------
// A codec
// ---------------------------------------------------------------------------------------------

const LAYOUT: WireLayout = WireLayout {
    format_version: 1,
    kdf_no_key: 0,
    kdf_raw: 1,
    kdf_argon2id: 2,
    kdf_recipient_wrap: 3,
    volume_header: 64,
    crypto_header_fixed: 80,
    block_record_framing: 18,
    manifest_footer: 136,
    volume_trailer: 128,
    recovery_locator: 168,
    recovery_header: 104,
    sidecar_header: 128,
    root_auth_footer_fixed: 320,
    index_shard_header: 64,
    file_entry: 192,
    frame_entry: 48,
    envelope_entry: 48,
    hint_table_header: 64,
    hint_entry: 32,
};

const FLAGS: EntryFlagBits = EntryFlagBits {
    extended_metadata_v1: 1,
    capture_partial: 2,
    has_auxiliary_streams: 4,
    has_native_metadata: 8,
    has_sparse_extents: 16,
    requires_system_restore: 32,
};

const READER_MAX_ROOT_AUTH_AUTHENTICATOR_VALUE_LEN: u32 = 128 * 1024;

const CAPS: ReaderCaps = ReaderCaps {
    max_stripe_width: 1024,
    max_block_size: 16 * 1024 * 1024,
    max_chunk_size: 64 * 1024 * 1024,
    max_path_length: 65_536,
    max_fec_class_shards: 4096,
    max_index_root_fec_class_shards: 65_535,
    max_root_auth_signer_identity_len: 65_536,
    max_root_auth_authenticator_value_len: READER_MAX_ROOT_AUTH_AUTHENTICATOR_VALUE_LEN,
    max_root_auth_footer_len: 512 * 1024,
    max_cmra_parity_pct: 100,
};

struct Bytes(Vec<u8>);

impl Bytes {
    fn new() -> Self {
        Bytes(Vec::new())
    }

    fn num(mut self, value: u64, len: usize) -> Self {
        self.0.extend_from_slice(&value.to_le_bytes()[..len]);
        self
    }

    fn raw(mut self, bytes: &[u8]) -> Self {
        self.0.extend_from_slice(bytes);
        self
    }

    fn at(mut self, offset: usize, bytes: &[u8]) -> Self {
        assert!(self.0.len() <= offset, "record fields overlap");
        self.0.resize(offset, 0);
        self.raw(bytes)
    }

    fn filled(mut self, len: usize) -> Vec<u8> {
        assert!(self.0.len() <= len, "record longer than its layout");
        self.0.resize(len, 0);
        self.0
    }
}

struct Fields<'a> {
    bytes: &'a [u8],
    at: usize,
}

impl<'a> Fields<'a> {
    fn new(bytes: &'a [u8]) -> Self {
        Fields { bytes, at: 0 }
    }

    fn raw(&mut self, len: usize) -> Result<&'a [u8], String> {
        let out = self.bytes.get(self.at..self.at + len).ok_or("record is cut off")?;
        self.at += len;
        Ok(out)
    }

    fn num(&mut self, len: usize) -> Result<u64, String> {
        let mut out = [0u8; 8];
        out[..len].copy_from_slice(self.raw(len)?);
        Ok(u64::from_le_bytes(out))
    }

    fn array<const N: usize>(&mut self) -> Result<[u8; N], String> {
        let mut out = [0u8; N];
        out.copy_from_slice(self.raw(N)?);
        Ok(out)
    }
}

fn digest(parts: &[&[u8]]) -> [u8; 32] {
    let mut hasher = Sha256::new();
    for part in parts {
        hasher.update((part.len() as u64).to_le_bytes());
        hasher.update(part);
    }
    hasher.finalize().into()
}

fn domain_code(domain: ObjectDomain) -> u8 {
    match domain {
        ObjectDomain::Envelope => 0,
        ObjectDomain::IndexShard => 1,
        ObjectDomain::Dictionary => 2,
        ObjectDomain::DirectoryHint => 3,
        ObjectDomain::IndexRoot => 4,
    }
}

const KINDS: [BlockKind; 10] = [
    BlockKind::PayloadData,
    BlockKind::PayloadParity,
    BlockKind::IndexShardData,
    BlockKind::IndexShardParity,
    BlockKind::DictionaryData,
    BlockKind::DictionaryParity,
    BlockKind::DirectoryHintData,
    BlockKind::DirectoryHintParity,
    BlockKind::IndexRootData,
    BlockKind::IndexRootParity,
];

fn kind_of(code: u64) -> Result<BlockKind, String> {
    KINDS.get(code as usize).copied().ok_or("unknown block kind".to_string())
}

/// Runs of zeros are shortened, everything else is kept.
fn squeeze(plain: &[u8], dictionary: Option<&[u8]>) -> Vec<u8> {
    let mut out = match dictionary {
        None => vec![0u8],
        Some(dictionary) => {
            let mut head = vec![1u8];
            head.extend_from_slice(&digest(&[dictionary])[..4]);
            head
        }
    };
    let mut at = 0usize;
    while at < plain.len() {
        let zeros = plain[at..].iter().take_while(|byte| **byte == 0).count();
        if zeros >= 16 {
            out.push(1);
            out.extend_from_slice(&(zeros as u32).to_le_bytes());
            at += zeros;
            continue;
        }
        let mut end = at;
        let mut run = 0usize;
        while end < plain.len() {
            run = if plain[end] == 0 { run + 1 } else { 0 };
            if run == 16 {
                end -= 15;
                break;
            }
            end += 1;
        }
        out.push(0);
        out.extend_from_slice(&((end - at) as u32).to_le_bytes());
        out.extend_from_slice(&plain[at..end]);
        at = end;
    }
    out
}

fn unsqueeze(bytes: &[u8], dictionary: Option<&[u8]>) -> Result<Vec<u8>, String> {
    let mut fields = Fields::new(bytes);
    if fields.num(1)? == 1 {
        let mark = fields.raw(4)?;
        let dictionary = dictionary.ok_or("frame needs a dictionary")?;
        if mark != &digest(&[dictionary])[..4] {
            return Err("frame needs another dictionary".to_string());
        }
    }
    let mut out = Vec::new();
    while fields.at < bytes.len() {
        let zeros = fields.num(1)? == 1;
        let len = fields.num(4)? as usize;
        if zeros {
            out.resize(out.len() + len, 0);
        } else {
            out.extend_from_slice(fields.raw(len)?);
        }
    }
    Ok(out)
}

fn key_stream(key: &[u8; 32], nonce: &[u8], bytes: &[u8]) -> Vec<u8> {
    bytes
        .iter()
        .enumerate()
        .map(|(i, byte)| byte ^ key[i % 32] ^ nonce[i % nonce.len()])
        .collect()
}

struct TestCodec;

impl ArchiveCodec for TestCodec {
    fn layout(&self) -> WireLayout {
        LAYOUT
    }

    fn encode(&self, record: &Record) -> Vec<u8> {
        let len = LAYOUT.record_len(record);
        match record {
            Record::VolumeHeader(h) => Bytes::new()
                .raw(b"TZVH")
                .num(h.format_version as u64, 2)
                .num(h.volume_format_rev as u64, 2)
                .num(h.volume_index as u64, 4)
                .num(h.stripe_width as u64, 4)
                .raw(&h.archive_uuid)
                .raw(&h.session_id)
                .num(h.crypto_header_offset as u64, 4)
                .num(h.crypto_header_length as u64, 4),
            Record::CryptoHeaderFixed(h) => Bytes::new()
                .raw(b"TZCH")
                .num(h.length as u64, 4)
                .num(h.aead_algo.is_encrypted() as u64, 1)
                .num(LAYOUT.kdf_code(h.kdf_algo) as u64, 2)
                .num(h.chunk_size as u64, 4)
                .num(h.envelope_target_size as u64, 4)
                .num(h.block_size as u64, 4)
                .num(h.fec_data_shards as u64, 2)
                .num(h.fec_parity_shards as u64, 2)
                .num(h.index_fec_data_shards as u64, 2)
                .num(h.index_fec_parity_shards as u64, 2)
                .num(h.index_root_fec_data_shards as u64, 2)
                .num(h.index_root_fec_parity_shards as u64, 2)
                .num(h.stripe_width as u64, 4)
                .num(h.volume_loss_tolerance as u64, 1)
                .num(h.bit_rot_buffer_pct as u64, 1)
                .num(h.has_dictionary as u64, 1)
                .num(h.max_path_length as u64, 4)
                .num(h.expected_volume_size, 8),
            Record::ManifestFooter(h) => Bytes::new()
                .raw(b"TZMF")
                .raw(&h.archive_uuid)
                .raw(&h.session_id)
                .num(h.volume_index as u64, 4)
                .num(h.is_authoritative as u64, 1)
                .num(h.total_volumes as u64, 4)
                .num(h.index_root_first_block, 8)
                .num(h.index_root_data_block_count as u64, 4)
                .num(h.index_root_parity_block_count as u64, 4)
                .num(h.index_root_encrypted_size as u64, 4)
                .num(h.index_root_decompressed_size as u64, 4)
                .at(104, &h.manifest_hmac),
            Record::VolumeTrailer(h) => Bytes::new()
                .raw(b"TZVT")
                .raw(&h.archive_uuid)
                .raw(&h.session_id)
                .num(h.volume_index as u64, 4)
                .num(h.block_count, 8)
                .num(h.bytes_written, 8)
                .num(h.manifest_footer_offset, 8)
                .num(h.manifest_footer_length as u64, 4)
                .num(h.closed_at_ns as u64, 8)
                .num(h.root_auth_footer_offset, 8)
                .num(h.root_auth_footer_length as u64, 4)
                .num(h.root_auth_flags as u64, 4)
                .at(96, &h.trailer_hmac),
            Record::RecoveryLocator(h) => Bytes::new()
                .raw(b"TZRL")
                .num(h.cmra_offset, 8)
                .num(h.cmra_length as u64, 4)
                .num(h.volume_trailer_offset, 8)
                .num(h.body_bytes_before_cmra, 8)
                .num(h.locator_sequence as u64, 4)
                .num(h.cmra_image_length as u64, 4)
                .raw(&h.cmra_image_sha256),
            Record::RecoveryHeader(h) => Bytes::new()
                .raw(b"TZRH")
                .num(h.shard_size as u64, 4)
                .num(h.data_shard_count as u64, 2)
                .num(h.parity_shard_count as u64, 2)
                .num(h.image_length as u64, 4)
                .raw(&h.image_sha256),
            Record::SidecarHeader(h) => Bytes::new()
                .raw(b"TZBS")
                .raw(&h.archive_uuid)
                .raw(&h.session_id)
                .num(h.flags as u64, 4)
                .num(h.manifest_footer_offset, 8)
                .num(h.manifest_footer_length as u64, 4)
                .num(h.index_root_records_offset, 8)
                .num(h.index_root_records_length, 8)
                .num(h.dictionary_records_offset, 8)
                .num(h.dictionary_records_length, 8)
                .at(92, &h.sidecar_hmac),
            Record::IndexShardHeader(h) => Bytes::new()
                .num(h.version as u64, 4)
                .num(h.shard_index, 8)
                .num(h.file_count as u64, 4)
                .num(h.frame_count as u64, 4)
                .num(h.envelope_count as u64, 4)
                .num(h.file_table_offset as u64, 4)
                .num(h.frame_table_offset as u64, 4)
                .num(h.envelope_table_offset as u64, 4)
                .num(h.string_pool_offset as u64, 4)
                .num(h.string_pool_size as u64, 4),
            Record::FileEntry(h) => Bytes::new()
                .raw(&h.path_hash)
                .num(h.path_offset as u64, 4)
                .num(h.path_length as u64, 4)
                .num(h.first_frame_index, 8)
                .num(h.frame_count as u64, 4)
                .num(h.offset_in_first_frame_plaintext as u64, 4)
                .num(h.tar_member_group_size, 8)
                .num(h.file_data_size, 8)
                .num(h.flags as u64, 4)
                .num(h.mtime_nsec as u64, 4)
                .num(h.mtime_sec as u64, 8)
                .num(h.mode as u64, 4)
                .num(h.kind as u64, 1),
            Record::FrameEntry(h) => Bytes::new()
                .num(h.frame_index, 8)
                .num(h.envelope_index, 8)
                .num(h.offset_in_envelope as u64, 4)
                .num(h.compressed_size as u64, 4)
                .num(h.decompressed_size as u64, 4)
                .num(h.flags as u64, 4)
                .num(h.tar_stream_offset, 8),
            Record::EnvelopeEntry(h) => Bytes::new()
                .num(h.envelope_index, 8)
                .num(h.first_block_index, 8)
                .num(h.data_block_count as u64, 4)
                .num(h.parity_block_count as u64, 4)
                .num(h.encrypted_size as u64, 4)
                .num(h.plaintext_size as u64, 4)
                .num(h.first_frame_index, 8)
                .num(h.frame_count as u64, 4),
            Record::HintTableHeader(h) => Bytes::new()
                .num(h.version as u64, 4)
                .num(h.hint_shard_index, 8)
                .num(h.entry_count, 8)
                .num(h.entry_table_offset, 8)
                .num(h.shard_list_offset, 8)
                .num(h.string_pool_offset, 8)
                .num(h.string_pool_size, 8),
            Record::HintEntry(h) => Bytes::new()
                .raw(&h.dir_hash)
                .num(h.path_offset, 8)
                .num(h.path_length as u64, 4)
                .num(h.shard_list_start_index as u64, 4)
                .num(h.shard_count as u64, 4),
        }
        .filled(len)
    }

    fn encode_block(&self, block_index: u64, kind: BlockKind, flags: u8, payload: &[u8]) -> Vec<u8> {
        let code = KINDS.iter().position(|k| *k == kind).unwrap() as u64;
        let head = Bytes::new().num(block_index, 8).num(code, 1).num(flags as u64, 1).0;
        let check = digest(&[&head, payload]);
        Bytes(head).raw(payload).raw(&check[..8]).0
    }

    fn encode_index_root(&self, root: &IndexRoot) -> Vec<u8> {
        let h = &root.header;
        let mut out = Bytes::new()
            .num(root.shards.len() as u64, 4)
            .num(root.directory_hint_shards.len() as u64, 4)
            .num(h.frame_count, 8)
            .num(h.envelope_count, 8)
            .num(h.file_count, 8)
            .num(h.payload_block_count, 8)
            .num(h.tar_total_size, 8)
            .raw(&h.content_sha256)
            .num(h.dictionary_first_block, 8)
            .num(h.dictionary_data_block_count as u64, 4)
            .num(h.dictionary_parity_block_count as u64, 4)
            .num(h.dictionary_encrypted_size as u64, 4)
            .num(h.dictionary_decompressed_size as u64, 4);
        for s in &root.shards {
            out = out
                .num(s.shard_index, 8)
                .num(s.first_block_index, 8)
                .num(s.data_block_count as u64, 4)
                .num(s.parity_block_count as u64, 4)
                .num(s.encrypted_size as u64, 4)
                .num(s.decompressed_size as u64, 4)
                .num(s.file_count as u64, 4)
                .raw(&s.first_path_hash)
                .raw(&s.last_path_hash);
        }
        for s in &root.directory_hint_shards {
            out = out.num(s.hint_shard_index, 8).num(s.first_block_index, 8).num(s.entry_count, 8);
        }
        out.0
    }

    fn encode_image(
        &self,
        layout: &CriticalMetadataLayout,
        regions: &Vec<SerializedRegion>,
    ) -> Result<Vec<u8>, FormatError> {
        let mut out = Bytes::new()
            .raw(b"TZIM")
            .num(layout.layout_flags as u64, 4)
            .num(layout.volume_index as u64, 4)
            .num(layout.volume_trailer_offset, 8)
            .num(regions.len() as u64, 4);
        for region in regions {
            out = out
                .num(region.region_type as u64, 2)
                .num(region.offset, 8)
                .num(region.bytes.len() as u64, 4)
                .raw(&region.bytes);
        }
        Ok(out.0)
    }

    fn encode_recovery_shard(
        &self,
        shard_index: u16,
        shard_role: u8,
        payload_length: u32,
        payload: &[u8],
    ) -> Result<Vec<u8>, FormatError> {
        Ok(Bytes::new()
            .num(shard_index as u64, 2)
            .num(shard_role as u64, 1)
            .num(payload_length as u64, 4)
            .raw(payload)
            .0)
    }

    fn encode_root_auth_footer(&self, footer: &RootAuthFooterV1) -> Result<Vec<u8>, FormatError> {
        let fixed = Bytes::new()
            .raw(b"TZRA")
            .raw(&footer.archive_uuid)
            .raw(&footer.session_id)
            .num(footer.format_version as u64, 2)
            .num(footer.volume_format_rev as u64, 2)
            .num(footer.authenticator_id as u64, 2)
            .num(footer.signer_identity_type as u64, 2)
            .num(footer.signer_identity_bytes.len() as u64, 4)
            .num(footer.authenticator_value.len() as u64, 4)
            .num(footer.total_data_block_count, 8)
            .raw(&footer.critical_metadata_digest)
            .raw(&footer.index_digest)
            .raw(&footer.fec_layout_digest)
            .raw(&footer.data_block_merkle_root)
            .raw(&footer.signer_identity_digest)
            .raw(&footer.archive_root)
            .filled(LAYOUT.root_auth_footer_fixed as usize);
        let body = Bytes(fixed)
            .raw(&footer.signer_identity_bytes)
            .raw(&footer.authenticator_value)
            .0;
        let check = digest(&[&body]);
        Ok(Bytes(body).raw(&check[..4]).0)
    }

    fn encode_recipient(&self, record: &RecipientRecordV1) -> Result<Vec<u8>, FormatError> {
        Ok(Bytes::new()
            .num(record.record_length as u64, 4)
            .num(record.profile_id as u64, 2)
            .num(record.recipient_identity_type as u64, 2)
            .num(record.recipient_identity_bytes.len() as u64, 4)
            .num(record.profile_payload_bytes.len() as u64, 4)
            .raw(&record.recipient_identity_bytes)
            .raw(&record.profile_payload_bytes)
            .0)
    }

    fn encode_key_wrap_table(
        &self,
        header: &KeyWrapTableHeader,
        records: &Vec<RecipientRecordV1>,
    ) -> Result<Vec<u8>, FormatError> {
        let mut out = Bytes(
            Bytes::new()
                .raw(b"TZKW")
                .num(header.version as u64, 2)
                .raw(&header.archive_uuid)
                .raw(&header.session_id)
                .num(header.recipient_record_count as u64, 4)
                .filled(header.records_offset as usize),
        );
        for record in records {
            out = out.raw(&self.encode_recipient(record)?);
        }
        Ok(out.0)
    }

    fn digest_key_wrap_table(&self, length: u32, table: &[u8]) -> [u8; 32] {
        digest(&[&length.to_le_bytes(), table])
    }

    fn compress(
        &self,
        plain: &[u8],
        _level: i32,
        dictionary: Option<&[u8]>,
        _jobs: usize,
    ) -> Result<Vec<u8>, FormatError> {
        Ok(squeeze(plain, dictionary))
    }

    fn derive_subkeys(
        &self,
        master_key: &MasterKey,
        archive_uuid: &[u8; 16],
        session_id: &[u8; 16],
    ) -> Result<Subkeys, FormatError> {
        let derive = |label: &[u8]| digest(&[label, &master_key.0, archive_uuid, session_id]);
        Ok(Subkeys {
            enc_key: derive(b"enc"),
            nonce_seed: derive(b"nonce"),
            index_shard_key: derive(b"shard"),
            index_root_key: derive(b"root"),
            dictionary_key: derive(b"dictionary"),
            dir_hint_key: derive(b"hint"),
            index_nonce_seed: derive(b"index nonce"),
            mac_key: derive(b"mac"),
        })
    }

    fn pad(&self, payload: &[u8], tag_len: usize, block_size: usize) -> Result<Vec<u8>, FormatError> {
        let mut out = payload.to_vec();
        let padding = block_size - (payload.len() + tag_len) % block_size;
        out.push(1);
        out.resize(payload.len() + padding, 0);
        Ok(out)
    }

    fn derive_nonce(&self, context: &SealContext, len: usize) -> Result<Vec<u8>, FormatError> {
        let all = digest(&[
            &context.nonce_seed,
            &[domain_code(context.domain)],
            &context.archive_uuid,
            &context.session_id,
            &context.counter.to_le_bytes(),
        ]);
        Ok(all[..len].to_vec())
    }

    fn build_aad(&self, context: &SealContext) -> Result<Vec<u8>, FormatError> {
        Ok(Bytes::new()
            .num(domain_code(context.domain) as u64, 1)
            .raw(&context.archive_uuid)
            .raw(&context.session_id)
            .num(context.counter, 8)
            .0)
    }

    fn seal(
        &self,
        _algo: AeadAlgo,
        key: &[u8; 32],
        nonce: &[u8],
        aad: &[u8],
        plain: &[u8],
    ) -> Result<Vec<u8>, FormatError> {
        let mut out = key_stream(key, nonce, plain);
        out.extend_from_slice(&digest(&[key, nonce, aad, plain])[..16]);
        Ok(out)
    }

    fn integrity_tag(&self, context: &TagContext, covered: &[u8]) -> Result<[u8; 32], FormatError> {
        let domain = match context.domain {
            HmacDomain::CryptoHeader => 0u8,
            HmacDomain::ManifestFooter => 1,
            HmacDomain::VolumeTrailer => 2,
            HmacDomain::BootstrapSidecar => 3,
        };
        Ok(digest(&[
            &[domain],
            &context.volume_format_rev.to_le_bytes(),
            &context.mac_key,
            &context.archive_uuid,
            &context.session_id,
            covered,
        ]))
    }

    fn encode_parity(&self, shards: &Vec<Vec<u8>>, count: usize) -> Result<Vec<Vec<u8>>, FormatError> {
        let len = shards.first().map_or(0, Vec::len);
        let mut sum = vec![0u8; len];
        for shard in shards {
            for (out, byte) in sum.iter_mut().zip(shard) {
                *out ^= byte;
            }
        }
        Ok((0..count).map(|i| sum.iter().map(|byte| byte.wrapping_add(i as u8)).collect()).collect())
    }

    fn hash_prefix(&self, path: &[u8]) -> [u8; 8] {
        let mut out = [0u8; 8];
        out.copy_from_slice(&digest(&[path])[..8]);
        out
    }

    fn normalize_path(&self, path: &str, max_len: u32) -> Result<Vec<u8>, FormatError> {
        let path: String = unicode_normalization::UnicodeNormalization::nfc(path).collect();
        self.check_path(path.as_bytes(), max_len)?;
        Ok(path.into_bytes())
    }

    fn check_path(&self, path: &[u8], max_len: u32) -> Result<(), FormatError> {
        if path.is_empty() || path.len() > max_len as usize {
            return Err(FormatError::WriterUnsupported("path length"));
        }
        if path.split(|byte| *byte == b'/').any(|part| part.is_empty() || part == b"..") {
            return Err(FormatError::WriterUnsupported("path segment"));
        }
        Ok(())
    }

    fn check_symlink(&self, _path: &[u8], target: &[u8]) -> Result<(), FormatError> {
        if target.starts_with(b"/") {
            return Err(FormatError::WriterUnsupported("absolute link target"));
        }
        Ok(())
    }

    fn hash_leaf(&self, volume_format_rev: u16, block: &BlockRecord) -> Result<[u8; 32], FormatError> {
        let bytes = self.encode_block(block.block_index, block.kind, block.flags, &block.payload);
        Ok(digest(&[&volume_format_rev.to_le_bytes(), &bytes]))
    }

    fn hash_leaves(&self, volume_format_rev: u16, leaves: &Vec<[u8; 32]>) -> Result<[u8; 32], FormatError> {
        Ok(digest(&[&volume_format_rev.to_le_bytes(), &leaves.concat()]))
    }

    fn hash_descriptor(
        &self,
        volume_format_rev: u16,
        descriptor: &RootAuthDescriptor,
        signer_identity: &[u8],
    ) -> Result<[u8; 32], FormatError> {
        Ok(digest(&[
            &volume_format_rev.to_le_bytes(),
            &descriptor.authenticator_id.to_le_bytes(),
            &descriptor.authenticator_value_length.to_le_bytes(),
            signer_identity,
        ]))
    }

    fn hash_signer(&self, identity_type: u16, identity: &[u8]) -> Result<[u8; 32], FormatError> {
        Ok(digest(&[&identity_type.to_le_bytes(), identity]))
    }

    fn hash_critical(
        &self,
        facts: &CriticalMetadataFacts,
        crypto_header: &[u8],
        manifest: &[u8],
    ) -> Result<[u8; 32], FormatError> {
        Ok(digest(&[&facts.archive_uuid, &facts.session_id, crypto_header, manifest]))
    }

    fn hash_index(&self, volume_format_rev: u16, index_root: &[u8]) -> Result<[u8; 32], FormatError> {
        Ok(digest(&[&volume_format_rev.to_le_bytes(), index_root]))
    }

    fn hash_layout(
        &self,
        volume_format_rev: u16,
        rows: &Vec<FecLayoutObjectRow>,
    ) -> Result<[u8; 32], FormatError> {
        let mut out = Bytes::new().num(volume_format_rev as u64, 2);
        for row in rows {
            out = out
                .num(row.object_class as u64, 1)
                .num(row.object_id, 8)
                .num(row.first_block_index, 8)
                .num(row.data_block_count as u64, 4);
        }
        Ok(digest(&[&out.0]))
    }

    fn hash_archive(&self, facts: &ArchiveRootFacts) -> Result<[u8; 32], FormatError> {
        Ok(digest(&[
            &facts.archive_uuid,
            &facts.session_id,
            &facts.critical_metadata_digest,
            &facts.index_digest,
            &facts.fec_layout_digest,
            &facts.data_block_merkle_root,
            &facts.signer_identity_digest,
        ]))
    }

    fn signing_scheme(&self, _volume_format_rev: u16) -> Result<[u8; 24], FormatError> {
        Ok([0x52; 24])
    }
}

fn put(records: &mut ByteMap<Vec<u8>>, key: &str, value: &[u8]) {
    records.insert(key.as_bytes().to_vec(), value.to_vec());
}

impl MetadataProfile for TestCodec {
    fn is_source_os(&self, os: &String) -> bool {
        ["other", "linux", "macos", "windows", "freebsd", "other-unix"].contains(&os.as_str())
    }

    fn valid_filesystem_token(&self, token: &String) -> bool {
        !token.is_empty() && token.bytes().all(|byte| byte.is_ascii_lowercase() || byte.is_ascii_digit())
    }

    fn source_os_requires_posix_profile(&self, os: &String) -> bool {
        os == "other-unix"
    }

    fn canonical_pax_value(&self, time: ArchiveTimestamp) -> Result<Vec<u8>, FormatError> {
        if time.nanoseconds >= 1_000_000_000 {
            return Err(FormatError::WriterUnsupported(
                "timestamp nanoseconds must be less than one billion",
            ));
        }
        let total = time.seconds as i128 * 1_000_000_000 + time.nanoseconds as i128;
        let sign = if total < 0 { "-" } else { "" };
        let whole = total.unsigned_abs() / 1_000_000_000;
        let fraction = format!("{:09}", total.unsigned_abs() % 1_000_000_000);
        let fraction = fraction.trim_end_matches('0');
        let dot = if fraction.is_empty() { "" } else { "." };
        Ok(format!("{sign}{whole}{dot}{fraction}").into_bytes())
    }

    fn portable_primary_pax(
        &self,
        path: &[u8],
        mode: u32,
        source_os: &String,
        path_override: bool,
    ) -> Result<ByteMap<Vec<u8>>, FormatError> {
        let mut records = ByteMap::new();
        put(&mut records, "TZAP.metadata.version", b"1");
        put(&mut records, "TZAP.metadata.required-profiles", b"portable-v1");
        put(&mut records, "TZAP.metadata.optional-profiles", b"");
        put(&mut records, "TZAP.metadata.source-os", source_os.as_bytes());
        put(&mut records, "TZAP.metadata.capture-status", b"complete");
        put(&mut records, "TZAP.portable.mode", format!("{mode:o}").as_bytes());
        put(&mut records, "TZAP.portable.owner-kind", b"none");
        if path_override || !path.is_ascii() {
            put(&mut records, "path", path);
        }
        Ok(records)
    }

    fn canonical_base64_encode(&self, bytes: &[u8]) -> Vec<u8> {
        const DIGITS: &[u8; 64] = b"ABCDEFGHIJKLMNOPQRSTUVWXYZabcdefghijklmnopqrstuvwxyz0123456789+/";
        let mut out = Vec::new();
        for chunk in bytes.chunks(3) {
            let word = chunk.iter().fold(0u32, |word, byte| word << 8 | *byte as u32) << (8 * (3 - chunk.len()));
            for i in 0..4 {
                out.push(if i <= chunk.len() { DIGITS[(word >> (18 - 6 * i)) as usize & 63] } else { b'=' });
            }
        }
        out
    }

    fn check_primary_declaration(&self, records: &ByteMap<Vec<u8>>) -> bool {
        records.contains_key(b"TZAP.metadata.required-profiles")
    }

    fn check_auxiliary_declaration(&self, declaration: &AuxiliaryDeclaration<'_>) -> Result<(), FormatError> {
        let recorded = declaration.records.get(b"TZAP.aux.sha256").ok_or(FormatError::InvalidArchive("aux digest"))?;
        if let Some(payload) = declaration.payload {
            let digest: [u8; 32] = Sha256::digest(payload).into();
            if recorded != hex::encode(digest).as_bytes() {
                return Err(FormatError::InvalidArchive("auxiliary digest"));
            }
        }
        Ok(())
    }

    fn check_group(&self, _primary: &ByteMap<Vec<u8>>, _auxiliary: &Vec<AuxiliaryDeclaration<'_>>) -> bool {
        true
    }

    fn encode_canonical_pax(&self, records: &ByteMap<Vec<u8>>) -> Result<Vec<u8>, FormatError> {
        let mut out = Vec::new();
        for (key, value) in records.entries() {
            let body = key.len() + value.len() + 3;
            let mut len = body;
            while len.to_string().len() + body != len {
                len += 1;
            }
            out.extend_from_slice(format!("{len} ").as_bytes());
            out.extend_from_slice(key);
            out.push(b'=');
            out.extend_from_slice(value);
            out.push(b'\n');
        }
        Ok(out)
    }

    fn encode_kind(&self, kind: TarEntryKind) -> u8 {
        match kind {
            TarEntryKind::Regular => 0,
            TarEntryKind::Directory => 1,
            TarEntryKind::Symlink => 2,
            TarEntryKind::Hardlink => 3,
            TarEntryKind::CharacterDevice => 4,
            TarEntryKind::BlockDevice => 5,
            TarEntryKind::Fifo => 6,
        }
    }

    fn entry_flag_bits(&self) -> EntryFlagBits {
        FLAGS
    }

    fn max_sparse_extents(&self) -> usize {
        1 << 20
    }
}

// ---------------------------------------------------------------------------------------------
// A reader
// ---------------------------------------------------------------------------------------------

type PaxRecords = BTreeMap<String, Vec<u8>>;

#[derive(Debug)]
struct ParsedAuxiliary {
    kind: String,
    decoded_name: Vec<u8>,
    records: PaxRecords,
    payload: Vec<u8>,
}

#[derive(Debug)]
struct ParsedGroup {
    kind: TarEntryKind,
    path: Vec<u8>,
    link_target: Option<Vec<u8>>,
    data: Vec<u8>,
    logical_size: u64,
    mode: u32,
    mtime: ArchiveTimestamp,
    uid: Option<u64>,
    gid: Option<u64>,
    uname: Option<Vec<u8>>,
    records: PaxRecords,
    auxiliary: Vec<ParsedAuxiliary>,
    sparse_extents: Option<Vec<SparseExtent>>,
}

fn padding_to_512(len: usize) -> usize {
    (TAR_BLOCK_LEN - len % TAR_BLOCK_LEN) % TAR_BLOCK_LEN
}

fn field_text(field: &[u8]) -> Vec<u8> {
    field.iter().copied().take_while(|byte| *byte != 0).collect()
}

fn field_octal(field: &[u8]) -> u64 {
    field
        .iter()
        .take_while(|byte| (b'0'..=b'7').contains(byte))
        .fold(0, |value, byte| value * 8 + u64::from(byte - b'0'))
}

fn parse_pax(payload: &[u8]) -> Result<PaxRecords, String> {
    let mut out = PaxRecords::new();
    let mut at = 0usize;
    while at < payload.len() {
        let space = payload[at..].iter().position(|byte| *byte == b' ').ok_or("pax length")?;
        let len: usize = std::str::from_utf8(&payload[at..at + space])
            .map_err(|_| "pax length")?
            .parse()
            .map_err(|_| "pax length")?;
        let line = payload.get(at + space + 1..at + len - 1).ok_or("pax record is cut off")?;
        if payload.get(at + len - 1) != Some(&b'\n') {
            return Err("pax record has no end".to_string());
        }
        let equals = line.iter().position(|byte| *byte == b'=').ok_or("pax key")?;
        let key = String::from_utf8(line[..equals].to_vec()).map_err(|_| "pax key")?;
        if out.insert(key, line[equals + 1..].to_vec()).is_some() {
            return Err("pax key twice".to_string());
        }
        at += len;
    }
    Ok(out)
}

fn parse_time(text: &[u8]) -> Result<ArchiveTimestamp, String> {
    let text = std::str::from_utf8(text).map_err(|_| "time")?;
    let (sign, digits) = match text.strip_prefix('-') {
        Some(rest) => (-1i128, rest),
        None => (1, text),
    };
    let (whole, fraction) = digits.split_once('.').unwrap_or((digits, ""));
    let nanos: i128 = format!("{fraction:0<9}").parse().map_err(|_| "time")?;
    let total = sign * (whole.parse::<i128>().map_err(|_| "time")? * 1_000_000_000 + nanos);
    Ok(ArchiveTimestamp {
        seconds: total.div_euclid(1_000_000_000) as i64,
        nanoseconds: total.rem_euclid(1_000_000_000) as u32,
    })
}

fn base64_decode(text: &[u8]) -> Vec<u8> {
    let mut out = Vec::new();
    let mut word = 0u32;
    let mut bits = 0u32;
    for byte in text.iter().filter(|byte| **byte != b'=') {
        let digit = match byte {
            b'A'..=b'Z' => byte - b'A',
            b'a'..=b'z' => byte - b'a' + 26,
            b'0'..=b'9' => byte - b'0' + 52,
            b'+' => 62,
            _ => 63,
        };
        word = word << 6 | u32::from(digit);
        bits += 6;
        if bits >= 8 {
            bits -= 8;
            out.push((word >> bits) as u8);
        }
    }
    out
}

/// Reads one member group: its auxiliary members, then its primary member.
fn parse_tar_member_group(group: &[u8]) -> Result<ParsedGroup, String> {
    let mut at = 0usize;
    let mut pending: Option<PaxRecords> = None;
    let mut auxiliary = Vec::new();
    let mut primary: Option<ParsedGroup> = None;
    while at < group.len() {
        let header = group.get(at..at + TAR_BLOCK_LEN).ok_or("tar header is cut off")?;
        let sum: u64 = header
            .iter()
            .enumerate()
            .map(|(i, byte)| if (148..156).contains(&i) { 32 } else { u64::from(*byte) })
            .sum();
        if sum != field_octal(&header[148..156]) {
            return Err("tar checksum".to_string());
        }
        at += TAR_BLOCK_LEN;
        let typeflag = header[156];
        let records = if typeflag == b'x' { None } else { pending.take() };
        let size = match records.as_ref().and_then(|records| records.get("size")) {
            Some(text) => std::str::from_utf8(text).unwrap().parse::<usize>().unwrap(),
            None => field_octal(&header[124..136]) as usize,
        };
        let payload = group.get(at..at + size).ok_or("tar payload is cut off")?;
        at += size;
        let padding = group.get(at..at + padding_to_512(size)).ok_or("tar padding is cut off")?;
        if padding.iter().any(|byte| *byte != 0) {
            return Err("tar padding".to_string());
        }
        at += padding.len();
        if typeflag == b'x' {
            pending = Some(parse_pax(payload)?);
            continue;
        }
        let records = records.ok_or("member without records")?;
        if primary.is_some() {
            return Err("member behind the primary member".to_string());
        }
        if typeflag == b'Z' {
            let text = |key: &str| records.get(key).cloned().unwrap_or_default();
            let digest: [u8; 32] = Sha256::digest(payload).into();
            if text("TZAP.aux.sha256") != hex::encode(digest).as_bytes() {
                return Err("auxiliary digest".to_string());
            }
            let decoded_name = base64_decode(&text("TZAP.aux.name"));
            let kind = String::from_utf8(text("TZAP.aux.kind")).unwrap();
            auxiliary.push(ParsedAuxiliary { kind, decoded_name, records, payload: payload.to_vec() });
            continue;
        }
        let kind = match typeflag {
            b'0' => TarEntryKind::Regular,
            b'1' => TarEntryKind::Hardlink,
            b'2' => TarEntryKind::Symlink,
            b'3' => TarEntryKind::CharacterDevice,
            b'4' => TarEntryKind::BlockDevice,
            b'5' => TarEntryKind::Directory,
            b'6' => TarEntryKind::Fifo,
            other => return Err(format!("tar type {other}")),
        };
        let number = |key: &str, field: &[u8]| match records.get(key) {
            Some(text) => std::str::from_utf8(text).unwrap().parse::<u64>().unwrap(),
            None => field_octal(field),
        };
        let posix = records.get("TZAP.portable.owner-kind").map(Vec::as_slice) == Some(b"posix");
        let path = records
            .get("path")
            .or(records.get("GNU.sparse.name"))
            .cloned()
            .unwrap_or_else(|| field_text(&header[0..100]));
        let link_target = match kind {
            TarEntryKind::Symlink | TarEntryKind::Hardlink => {
                Some(records.get("linkpath").cloned().unwrap_or_else(|| field_text(&header[157..257])))
            }
            _ => None,
        };
        let mtime = match records.get("mtime") {
            Some(text) => parse_time(text)?,
            None => ArchiveTimestamp::from_seconds(field_octal(&header[136..148]) as i64),
        };
        let mut sparse_extents = None;
        let mut logical_size = size as u64;
        if let Some(text) = records.get("GNU.sparse.realsize") {
            logical_size = std::str::from_utf8(text).unwrap().parse().unwrap();
            let mut lines = payload.split(|byte| *byte == b'\n').map(|line| {
                std::str::from_utf8(line).unwrap().parse::<u64>().unwrap()
            });
            let count = lines.next().unwrap();
            sparse_extents = Some(
                (0..count)
                    .map(|_| SparseExtent { offset: lines.next().unwrap(), length: lines.next().unwrap() })
                    .collect(),
            );
        }
        let mode = match records.get("TZAP.portable.mode") {
            Some(text) => u32::from_str_radix(std::str::from_utf8(text).unwrap(), 8).unwrap(),
            None => field_octal(&header[100..108]) as u32,
        };
        primary = Some(ParsedGroup {
            kind,
            path,
            link_target,
            data: payload.to_vec(),
            logical_size,
            mode,
            mtime,
            uid: if posix { Some(number("uid", &header[108..116])) } else { None },
            gid: if posix { Some(number("gid", &header[116..124])) } else { None },
            uname: if posix {
                Some(records.get("uname").cloned().unwrap_or_else(|| field_text(&header[265..297])))
            } else {
                None
            },
            records,
            auxiliary: Vec::new(),
            sparse_extents,
        });
    }
    let mut primary = primary.ok_or("group without primary member")?;
    primary.auxiliary = auxiliary;
    Ok(primary)
}

impl ParsedGroup {
    fn text(&self, key: &str) -> &str {
        std::str::from_utf8(self.records.get(key).map_or(b"".as_slice(), Vec::as_slice)).unwrap()
    }

    fn required_profiles(&self) -> Vec<&str> {
        self.text("TZAP.metadata.required-profiles").split(',').collect()
    }

    fn attributes(&self) -> Option<u32> {
        let text = self.records.get("TZAP.portable.attributes")?;
        Some(u32::from_str_radix(std::str::from_utf8(text).unwrap(), 16).unwrap())
    }

    /// What the file holds, holes filled with zeros.
    fn contents(&self) -> Vec<u8> {
        match &self.sparse_extents {
            None => self.data.clone(),
            Some(extents) => {
                let mut lines = format!("{}\n", extents.len());
                for extent in extents {
                    lines.push_str(&format!("{}\n{}\n", extent.offset, extent.length));
                }
                let mut at = lines.len() + padding_to_512(lines.len());
                let mut out = vec![0u8; self.logical_size as usize];
                for extent in extents {
                    let len = extent.length as usize;
                    out[extent.offset as usize..][..len].copy_from_slice(&self.data[at..at + len]);
                    at += len;
                }
                out
            }
        }
    }

    /// The modification time as the records of the member mirror it, in whole seconds and
    /// nanoseconds from there on. A time that the header holds is not mirrored.
    fn mirrored_mtime(&self) -> (i64, u32) {
        let text = self.text("mtime");
        let (whole, fraction) = text.split_once('.').unwrap_or((text, ""));
        let seconds: i64 = whole.parse().unwrap();
        let nanoseconds: u32 = format!("{fraction:0<9}").parse().unwrap();
        if text.starts_with('-') && nanoseconds > 0 {
            (seconds - 1, 1_000_000_000 - nanoseconds)
        } else {
            (seconds, nanoseconds)
        }
    }

    /// The flags that the records of the member imply.
    fn file_entry_flags(&self) -> u32 {
        let native_profile = self.required_profiles().iter().any(|profile| *profile != "portable-v1");
        let mut flags = FLAGS.extended_metadata_v1;
        if native_profile {
            flags |= FLAGS.has_native_metadata;
        }
        if !self.auxiliary.is_empty() {
            flags |= FLAGS.has_auxiliary_streams;
        }
        if self.text("TZAP.metadata.capture-status") == "partial" {
            flags |= FLAGS.capture_partial;
        }
        if self.uid.is_some() || self.mode & 0o6000 != 0 {
            flags |= FLAGS.requires_system_restore;
        }
        flags
    }
}

#[derive(Debug, Clone, PartialEq)]
struct Entry {
    path: String,
    file_data_size: u64,
    flags: u32,
    first_frame_index: u64,
    frame_count: u32,
    tar_member_group_size: u64,
}

#[derive(Debug)]
struct Shard {
    files: Vec<Entry>,
    frames: Vec<FrameEntry>,
    envelopes: Vec<EnvelopeEntry>,
}

fn parse_index_shard(plain: &[u8]) -> Result<Shard, String> {
    let mut head = Fields::new(plain);
    head.raw(12)?;
    let file_count = head.num(4)? as usize;
    let frame_count = head.num(4)? as usize;
    let envelope_count = head.num(4)? as usize;
    let files_at = head.num(4)? as usize;
    let frames_at = head.num(4)? as usize;
    let envelopes_at = head.num(4)? as usize;
    let pool_at = head.num(4)? as usize;
    let pool_size = head.num(4)? as usize;
    let pool = plain.get(pool_at..pool_at + pool_size).ok_or("string pool is cut off")?;
    let mut shard = Shard { files: Vec::new(), frames: Vec::new(), envelopes: Vec::new() };
    for i in 0..file_count {
        let mut f = Fields::new(&plain[files_at + i * LAYOUT.file_entry as usize..]);
        let hash: [u8; 8] = f.array()?;
        let path_offset = f.num(4)? as usize;
        let path_length = f.num(4)? as usize;
        let path = pool.get(path_offset..path_offset + path_length).ok_or("path is cut off")?;
        if hash != TestCodec.hash_prefix(path) {
            return Err("path hash".to_string());
        }
        let first_frame_index = f.num(8)?;
        let frame_count = f.num(4)? as u32;
        f.num(4)?;
        let tar_member_group_size = f.num(8)?;
        let file_data_size = f.num(8)?;
        let flags = f.num(4)? as u32;
        let path = String::from_utf8(path.to_vec()).map_err(|_| "path")?;
        shard.files.push(Entry { path, file_data_size, flags, first_frame_index, frame_count, tar_member_group_size });
    }
    for i in 0..frame_count {
        let mut f = Fields::new(&plain[frames_at + i * LAYOUT.frame_entry as usize..]);
        shard.frames.push(FrameEntry {
            frame_index: f.num(8)?,
            envelope_index: f.num(8)?,
            offset_in_envelope: f.num(4)? as u32,
            compressed_size: f.num(4)? as u32,
            decompressed_size: f.num(4)? as u32,
            flags: f.num(4)? as u32,
            tar_stream_offset: f.num(8)?,
        });
    }
    for i in 0..envelope_count {
        let mut f = Fields::new(&plain[envelopes_at + i * LAYOUT.envelope_entry as usize..]);
        shard.envelopes.push(EnvelopeEntry {
            envelope_index: f.num(8)?,
            first_block_index: f.num(8)?,
            data_block_count: f.num(4)? as u32,
            parity_block_count: f.num(4)? as u32,
            encrypted_size: f.num(4)? as u32,
            plaintext_size: f.num(4)? as u32,
            first_frame_index: f.num(8)?,
            frame_count: f.num(4)? as u32,
        });
    }
    Ok(shard)
}

fn parse_index_root(plain: &[u8]) -> Result<IndexRoot, String> {
    let mut f = Fields::new(plain);
    let shard_count = f.num(4)?;
    let hint_count = f.num(4)?;
    let header = IndexRootHeader {
        frame_count: f.num(8)?,
        envelope_count: f.num(8)?,
        file_count: f.num(8)?,
        payload_block_count: f.num(8)?,
        tar_total_size: f.num(8)?,
        content_sha256: f.array()?,
        dictionary_first_block: f.num(8)?,
        dictionary_data_block_count: f.num(4)? as u32,
        dictionary_parity_block_count: f.num(4)? as u32,
        dictionary_encrypted_size: f.num(4)? as u32,
        dictionary_decompressed_size: f.num(4)? as u32,
    };
    let mut shards = Vec::new();
    for _ in 0..shard_count {
        shards.push(ShardEntry {
            shard_index: f.num(8)?,
            first_block_index: f.num(8)?,
            data_block_count: f.num(4)? as u32,
            parity_block_count: f.num(4)? as u32,
            encrypted_size: f.num(4)? as u32,
            decompressed_size: f.num(4)? as u32,
            file_count: f.num(4)? as u32,
            first_path_hash: f.array()?,
            last_path_hash: f.array()?,
        });
    }
    assert_eq!(hint_count, 0, "the reader reads no hint tables");
    Ok(IndexRoot { header, shards, directory_hint_shards: Vec::new() })
}

#[derive(Debug)]
struct Footer {
    volume_format_rev: u16,
    authenticator_id: u16,
    authenticator_value: Vec<u8>,
    archive_root: [u8; 32],
}

struct Opened {
    blocks: BTreeMap<u64, BlockRecord>,
    block_size: usize,
    unsealed: bool,
    subkeys: Subkeys,
    archive_uuid: [u8; 16],
    session_id: [u8; 16],
    index_root: IndexRoot,
    index_root_fec_data_shards: u16,
    index_root_fec_parity_shards: u16,
    total_volumes: u32,
    root_auth_footer: Option<Footer>,
    key_wrap_table: Vec<u8>,
    objects: RefCell<BTreeMap<u64, Vec<u8>>>,
}

fn checked_tag(
    domain: HmacDomain,
    opened: (&Subkeys, &[u8; 16], &[u8; 16]),
    covered: &[u8],
    tag: &[u8],
) -> Result<(), String> {
    let context = TagContext {
        domain,
        aead_algo: AeadAlgo::AesGcmSiv256,
        volume_format_rev: VOLUME_FORMAT_REV_45,
        mac_key: opened.0.mac_key,
        archive_uuid: *opened.1,
        session_id: *opened.2,
    };
    if TestCodec.integrity_tag(&context, covered).unwrap() != tag {
        return Err(format!("tag of {domain:?}"));
    }
    Ok(())
}

/// Opens an archive from all of its volumes.
fn open_volumes(volumes: &[Vec<u8>], key: Option<&MasterKey>) -> Result<Opened, String> {
    let mut blocks = BTreeMap::new();
    let mut opened: Option<Opened> = None;
    for (volume_index, bytes) in volumes.iter().enumerate() {
        let mut f = Fields::new(bytes);
        if f.raw(4)? != b"TZVH" {
            return Err("no volume header".to_string());
        }
        f.num(4)?;
        if f.num(4)? != volume_index as u64 || f.num(4)? != volumes.len() as u64 {
            return Err("volume order".to_string());
        }
        let archive_uuid: [u8; 16] = f.array()?;
        let session_id: [u8; 16] = f.array()?;
        let crypto_start = f.num(4)? as usize;
        let crypto_len = f.num(4)? as usize;
        let crypto = bytes.get(crypto_start..crypto_start + crypto_len).ok_or("crypto header")?;
        let subkeys = match key {
            Some(key) => TestCodec.derive_subkeys(key, &archive_uuid, &session_id).unwrap(),
            None => Subkeys::unencrypted_placeholder(),
        };
        let ids = (&subkeys, &archive_uuid, &session_id);
        let covered = crypto_len - CRYPTO_HEADER_HMAC_LEN;
        checked_tag(HmacDomain::CryptoHeader, ids, &crypto[..covered], &crypto[covered..])?;

        let mut c = Fields::new(crypto);
        if c.raw(4)? != b"TZCH" || c.num(4)? != crypto_len as u64 {
            return Err("crypto header".to_string());
        }
        let unsealed = c.num(1)? == 0;
        let kdf = c.num(2)? as u16;
        c.num(8)?;
        let block_size = c.num(4)? as usize;
        c.num(8)?;
        let index_root_fec_data_shards = c.num(2)? as u16;
        let index_root_fec_parity_shards = c.num(2)? as u16;
        let mut k = Fields::new(&crypto[LAYOUT.crypto_header_fixed as usize..]);
        if k.num(2)? as u16 != kdf {
            return Err("key derivation".to_string());
        }
        let body_start = crypto_start + crypto_len;
        let table_len = if kdf == LAYOUT.kdf_recipient_wrap { k.num(4)? as usize } else { 0 };
        let table = bytes.get(body_start..body_start + table_len).ok_or("key-wrap table")?;
        if table_len > 0 {
            k.num(8)?;
            let recorded: [u8; 32] = k.array()?;
            if recorded != TestCodec.digest_key_wrap_table(table_len as u32, table) {
                return Err("key-wrap table digest".to_string());
            }
        }

        let locator_at = bytes.len() - LAYOUT.recovery_locator as usize;
        let mut l = Fields::new(&bytes[locator_at..]);
        if l.raw(4)? != b"TZRL" {
            return Err("no locator".to_string());
        }
        let cmra_offset = l.num(8)? as usize;
        l.num(4)?;
        let trailer_at = l.num(8)? as usize;
        l.num(8)?;
        if l.num(4)? != 0 {
            return Err("volume ends behind its mirror locator".to_string());
        }
        let trailer = bytes.get(trailer_at..trailer_at + LAYOUT.volume_trailer as usize).ok_or("trailer")?;
        if cmra_offset != trailer_at + trailer.len() {
            return Err("recovery area".to_string());
        }
        let mut t = Fields::new(trailer);
        if t.raw(4)? != b"TZVT" {
            return Err("no trailer".to_string());
        }
        checked_tag(HmacDomain::VolumeTrailer, ids, &trailer[..96], &trailer[96..])?;
        t.raw(36)?;
        let block_count = t.num(8)?;
        if t.num(8)? != trailer_at as u64 {
            return Err("bytes written".to_string());
        }
        let manifest_at = t.num(8)? as usize;
        t.num(4)?;
        t.num(8)?;
        let footer_at = t.num(8)? as usize;
        let footer_len = t.num(4)? as usize;
        let manifest = bytes.get(manifest_at..manifest_at + LAYOUT.manifest_footer as usize).ok_or("manifest")?;
        checked_tag(HmacDomain::ManifestFooter, ids, &manifest[..104], &manifest[104..])?;

        let mut b = Fields::new(&bytes[body_start + table_len..manifest_at]);
        for _ in 0..block_count {
            let head = b.raw(10)?;
            let mut h = Fields::new(head);
            let block_index = h.num(8)?;
            let kind = kind_of(h.num(1)?)?;
            let flags = h.num(1)? as u8;
            let payload = b.raw(block_size)?;
            if b.raw(8)? != &digest(&[head, payload])[..8] {
                return Err("block checksum".to_string());
            }
            if block_index % volumes.len() as u64 != volume_index as u64 {
                return Err("block in another volume".to_string());
            }
            let payload = payload.to_vec();
            blocks.insert(block_index, BlockRecord { block_index, kind, flags, payload });
        }
        if b.at != b.bytes.len() {
            return Err("bytes between blocks and manifest".to_string());
        }
        if volume_index > 0 {
            continue;
        }

        let mut m = Fields::new(manifest);
        m.raw(40)?;
        if m.num(1)? != 1 {
            return Err("manifest".to_string());
        }
        let total_volumes = m.num(4)? as u32;
        let first_block_index = m.num(8)?;
        let extent = ObjectExtent {
            first_block_index,
            data_block_count: m.num(4)? as u32,
            parity_block_count: m.num(4)? as u32,
            encrypted_size: m.num(4)? as u32,
        };
        let root_auth_footer = if footer_len == 0 {
            None
        } else {
            let footer = bytes.get(footer_at..footer_at + footer_len).ok_or("footer")?;
            let mut r = Fields::new(footer);
            r.raw(36)?;
            r.num(2)?;
            let volume_format_rev = r.num(2)? as u16;
            let authenticator_id = r.num(2)? as u16;
            r.num(2)?;
            let identity_len = r.num(4)? as usize;
            let value_len = r.num(4)? as usize;
            r.num(8)?;
            r.raw(5 * 32)?;
            let archive_root = r.array()?;
            let value_at = LAYOUT.root_auth_footer_fixed as usize + identity_len;
            let authenticator_value = footer.get(value_at..value_at + value_len).ok_or("footer")?.to_vec();
            Some(Footer { volume_format_rev, authenticator_id, authenticator_value, archive_root })
        };
        opened = Some(Opened {
            blocks: BTreeMap::new(),
            block_size,
            unsealed,
            subkeys,
            archive_uuid,
            session_id,
            index_root: IndexRoot {
                header: IndexRootHeader {
                    frame_count: first_block_index,
                    envelope_count: extent.data_block_count as u64,
                    file_count: extent.encrypted_size as u64,
                    payload_block_count: 0,
                    tar_total_size: 0,
                    content_sha256: [0; 32],
                    dictionary_first_block: 0,
                    dictionary_data_block_count: 0,
                    dictionary_parity_block_count: 0,
                    dictionary_encrypted_size: 0,
                    dictionary_decompressed_size: 0,
                },
                shards: Vec::new(),
                directory_hint_shards: Vec::new(),
            },
            index_root_fec_data_shards,
            index_root_fec_parity_shards,
            total_volumes,
            root_auth_footer,
            key_wrap_table: table.to_vec(),
            objects: RefCell::new(BTreeMap::new()),
        });
    }
    let mut opened = opened.ok_or("no volumes")?;
    opened.blocks = blocks;
    let located = &opened.index_root.header;
    let root = opened.object(
        ObjectDomain::IndexRoot,
        0,
        located.frame_count,
        located.envelope_count,
        located.file_count as usize,
    )?;
    opened.index_root = parse_index_root(&unsqueeze(&root, None)?)?;
    Ok(opened)
}

fn open_archive(volume: &[u8], key: &MasterKey) -> Result<Opened, String> {
    open_volumes(&[volume.to_vec()], Some(key))
}

impl Opened {
    /// The payload of an object: its blocks, opened and unpadded.
    fn object(
        &self,
        domain: ObjectDomain,
        counter: u64,
        first_block: u64,
        data_blocks: u64,
        encrypted_size: usize,
    ) -> Result<Vec<u8>, String> {
        if let Some(plain) = self.objects.borrow().get(&first_block) {
            return Ok(plain.clone());
        }
        let mut sealed = Vec::new();
        for index in first_block..first_block + data_blocks {
            let block = self.blocks.get(&index).ok_or("block is missing")?;
            if !block.kind.is_data() || (block.flags == 1) != (index + 1 == first_block + data_blocks) {
                return Err("block of another object".to_string());
            }
            sealed.extend_from_slice(&block.payload);
        }
        if sealed.len() != encrypted_size || sealed.len() % self.block_size != 0 {
            return Err("object size".to_string());
        }
        let mut plain = sealed;
        if !self.unsealed {
            let (key, nonce_seed) = match domain {
                ObjectDomain::Envelope => (self.subkeys.enc_key, self.subkeys.nonce_seed),
                ObjectDomain::IndexShard => (self.subkeys.index_shard_key, self.subkeys.index_nonce_seed),
                ObjectDomain::Dictionary => (self.subkeys.dictionary_key, self.subkeys.index_nonce_seed),
                ObjectDomain::DirectoryHint => (self.subkeys.dir_hint_key, self.subkeys.index_nonce_seed),
                ObjectDomain::IndexRoot => (self.subkeys.index_root_key, self.subkeys.index_nonce_seed),
            };
            let context = SealContext {
                nonce_seed,
                domain,
                archive_uuid: self.archive_uuid,
                session_id: self.session_id,
                counter,
            };
            let nonce = TestCodec.derive_nonce(&context, 12).unwrap();
            let aad = TestCodec.build_aad(&context).unwrap();
            let tag = plain.split_off(plain.len() - 16);
            plain = key_stream(&key, &nonce, &plain);
            if tag != digest(&[&key, &nonce, &aad, &plain])[..16] {
                return Err(format!("seal of {domain:?} {counter}"));
            }
        }
        while plain.last() == Some(&0) {
            plain.pop();
        }
        if plain.pop() != Some(1) {
            return Err("padding".to_string());
        }
        self.objects.borrow_mut().insert(first_block, plain.clone());
        Ok(plain)
    }

    fn dictionary(&self) -> Result<Option<Vec<u8>>, String> {
        let h = &self.index_root.header;
        if h.dictionary_data_block_count == 0 {
            return Ok(None);
        }
        let bytes = self.object(
            ObjectDomain::Dictionary,
            0,
            h.dictionary_first_block,
            h.dictionary_data_block_count as u64,
            h.dictionary_encrypted_size as usize,
        )?;
        Ok(Some(unsqueeze(&bytes, None)?))
    }

    fn shards(&self) -> Result<Vec<Shard>, String> {
        let mut out = Vec::new();
        for entry in &self.index_root.shards {
            let bytes = self.object(
                ObjectDomain::IndexShard,
                entry.shard_index,
                entry.first_block_index,
                entry.data_block_count as u64,
                entry.encrypted_size as usize,
            )?;
            out.push(parse_index_shard(&unsqueeze(&bytes, None)?)?);
        }
        Ok(out)
    }

    fn list_index_entries(&self) -> Result<Vec<Entry>, String> {
        Ok(self.shards()?.into_iter().flat_map(|shard| shard.files).collect())
    }

    fn list_files(&self) -> Result<Vec<Entry>, String> {
        self.list_index_entries()
    }

    fn lookup_index_entry(&self, path: &str) -> Result<Option<Entry>, String> {
        Ok(self.list_index_entries()?.into_iter().find(|entry| entry.path == path))
    }

    fn frame_bytes(&self, shard: &Shard, frame: &FrameEntry, dictionary: Option<&[u8]>) -> Result<Vec<u8>, String> {
        let envelope = shard
            .envelopes
            .iter()
            .find(|envelope| envelope.envelope_index == frame.envelope_index)
            .ok_or("envelope is missing")?;
        let plain = self.object(
            ObjectDomain::Envelope,
            envelope.envelope_index,
            envelope.first_block_index,
            envelope.data_block_count as u64,
            envelope.encrypted_size as usize,
        )?;
        if plain.len() != envelope.plaintext_size as usize {
            return Err("envelope size".to_string());
        }
        let start = frame.offset_in_envelope as usize;
        let bytes = plain.get(start..start + frame.compressed_size as usize).ok_or("frame is cut off")?;
        let bytes = unsqueeze(bytes, dictionary)?;
        if bytes.len() != frame.decompressed_size as usize {
            return Err("frame size".to_string());
        }
        Ok(bytes)
    }

    fn member(&self, path: &str) -> Result<Option<ParsedGroup>, String> {
        let dictionary = self.dictionary()?;
        for shard in self.shards()? {
            for file in &shard.files {
                if file.path != path {
                    continue;
                }
                let mut group = Vec::new();
                for frame in &shard.frames {
                    if (file.first_frame_index..file.first_frame_index + file.frame_count as u64)
                        .contains(&frame.frame_index)
                    {
                        group.extend_from_slice(&self.frame_bytes(&shard, frame, dictionary.as_deref())?);
                    }
                }
                if group.len() as u64 != file.tar_member_group_size {
                    return Err("member size".to_string());
                }
                return Ok(Some(parse_tar_member_group(&group)?));
            }
        }
        Ok(None)
    }

    fn extract_file(&self, path: &str) -> Result<Option<Vec<u8>>, String> {
        Ok(self.member(path)?.map(|member| member.contents()))
    }

    /// The whole tar stream is there, and the index says its length and digest.
    fn verify(&self) -> Result<(), String> {
        let dictionary = self.dictionary()?;
        let mut frames = BTreeMap::new();
        let mut files = 0u64;
        for shard in self.shards()? {
            files += shard.files.len() as u64;
            for frame in &shard.frames {
                let bytes = self.frame_bytes(&shard, frame, dictionary.as_deref())?;
                frames.insert(frame.frame_index, (frame.tar_stream_offset, bytes));
            }
            for file in &shard.files {
                let member = self.member(&file.path)?.ok_or("member is missing")?;
                if member.logical_size != file.file_data_size || member.path != file.path.as_bytes() {
                    return Err("index entry of another member".to_string());
                }
            }
        }
        let h = &self.index_root.header;
        let mut stream = Vec::new();
        for (offset, bytes) in frames.values() {
            if *offset != stream.len() as u64 {
                return Err("frame order".to_string());
            }
            stream.extend_from_slice(bytes);
        }
        let content: [u8; 32] = Sha256::digest(&stream).into();
        if frames.len() as u64 != h.frame_count
            || files != h.file_count
            || stream.len() as u64 != h.tar_total_size
            || content != h.content_sha256
        {
            return Err("content".to_string());
        }
        Ok(())
    }

    fn verify_content(&self) -> Result<(), String> {
        self.verify()
    }

    fn verify_root_auth_with(
        &self,
        check: impl Fn(&Footer, &[u8; 32]) -> Result<bool, String>,
    ) -> Result<&Footer, String> {
        let footer = self.root_auth_footer.as_ref().ok_or("no footer")?;
        if !check(footer, &footer.archive_root)? {
            return Err("authenticator refused".to_string());
        }
        Ok(footer)
    }
}

// ---------------------------------------------------------------------------------------------
// Sources, sinks and observers
// ---------------------------------------------------------------------------------------------

type Signer = fn(&RootAuthSigningRequest) -> Result<Vec<u8>, FormatError>;

const NO_SIGNER: Option<Signer> = None;

fn default_options() -> WriterOptions {
    WriterOptions::with_jobs(4)
}

fn one_volume() -> WriterOptions {
    WriterOptions { stripe_width: 1, volume_loss_tolerance: 0, ..default_options() }
}

fn time(seconds: i64, nanoseconds: u32) -> ArchiveTimestamp {
    ArchiveTimestamp { seconds, nanoseconds }
}

struct SparseTestSource {
    logical_size: u64,
    extents: Vec<SparseExtent>,
    extent_bytes: Vec<u8>,
}

impl RegularFileSource for SparseTestSource {
    fn archive_path(&self) -> &str {
        "sparse.bin"
    }

    fn entry_kind(&self) -> SourceEntryKind {
        SourceEntryKind::Regular
    }

    fn link_target(&self) -> Option<&[u8]> {
        None
    }

    fn file_data_size(&self) -> u64 {
        self.logical_size
    }

    fn sparse_extents(&self) -> Option<&[SparseExtent]> {
        Some(&self.extents)
    }

    fn mode(&self) -> u32 {
        0o644
    }

    fn mtime(&self) -> ArchiveTimestamp {
        ArchiveTimestamp::unix_epoch()
    }

    fn portable_metadata(&self) -> PortableFileMetadata {
        PortableFileMetadata::default()
    }

    fn open<'a>(&'a self) -> Result<Box<dyn SourceReader + 'a>, ArchiveWriteError> {
        Ok(Box::new(BytesReader::new(&self.extent_bytes)))
    }

    fn open_auxiliary<'a>(&'a self, _ordinal: usize) -> Result<Box<dyn SourceReader + 'a>, ArchiveWriteError> {
        unreachable!()
    }
}

struct StreamedSource {
    metadata: PortableFileMetadata,
    payload: Vec<u8>,
}

impl RegularFileSource for StreamedSource {
    fn archive_path(&self) -> &str {
        "streamed-aux.txt"
    }

    fn entry_kind(&self) -> SourceEntryKind {
        SourceEntryKind::Regular
    }

    fn link_target(&self) -> Option<&[u8]> {
        None
    }

    fn file_data_size(&self) -> u64 {
        8
    }

    fn sparse_extents(&self) -> Option<&[SparseExtent]> {
        None
    }

    fn mode(&self) -> u32 {
        0o640
    }

    fn mtime(&self) -> ArchiveTimestamp {
        ArchiveTimestamp::from_seconds(12)
    }

    fn portable_metadata(&self) -> PortableFileMetadata {
        self.metadata.clone()
    }

    fn open<'a>(&'a self) -> Result<Box<dyn SourceReader + 'a>, ArchiveWriteError> {
        Ok(Box::new(BytesReader::new(b"contents")))
    }

    fn open_auxiliary<'a>(&'a self, ordinal: usize) -> Result<Box<dyn SourceReader + 'a>, ArchiveWriteError> {
        assert_eq!(ordinal, 0);
        Ok(Box::new(BytesReader::new(&self.payload)))
    }
}

struct DummySourceWithAux {
    aux: NativeAuxiliaryMetadata,
    metadata: PortableFileMetadata,
}

impl DummySourceWithAux {
    fn new(aux: NativeAuxiliaryMetadata) -> Self {
        let metadata = PortableFileMetadata {
            source_os: "linux".to_string(),
            source_filesystem: "ext4".to_string(),
            mode_origin: PortableModeOrigin::Projected,
            posix_owner: None,
            attributes: None,
            created: None,
            accessed: None,
            native: NativeFileMetadata {
                required_profiles: vec!["portable-v1".to_string()],
                optional_profiles: Vec::new(),
                primary_pax_records: ByteMap::new(),
                auxiliary_records: vec![aux.clone()],
            },
        };
        DummySourceWithAux { aux, metadata }
    }
}

impl RegularFileSource for DummySourceWithAux {
    fn archive_path(&self) -> &str {
        "dummy.txt"
    }

    fn entry_kind(&self) -> SourceEntryKind {
        SourceEntryKind::Regular
    }

    fn link_target(&self) -> Option<&[u8]> {
        None
    }

    fn file_data_size(&self) -> u64 {
        0
    }

    fn sparse_extents(&self) -> Option<&[SparseExtent]> {
        None
    }

    fn mode(&self) -> u32 {
        0o644
    }

    fn mtime(&self) -> ArchiveTimestamp {
        ArchiveTimestamp::unix_epoch()
    }

    fn portable_metadata(&self) -> PortableFileMetadata {
        self.metadata.clone()
    }

    fn open<'a>(&'a self) -> Result<Box<dyn SourceReader + 'a>, ArchiveWriteError> {
        Ok(Box::new(BytesReader::new(b"")))
    }

    fn open_auxiliary<'a>(&'a self, ordinal: usize) -> Result<Box<dyn SourceReader + 'a>, ArchiveWriteError> {
        open_inline_auxiliary(&self.metadata, ordinal)
    }
}

#[derive(Default)]
struct GeneratedSourceStats {
    open_count: usize,
    total_read: u64,
    max_read_request: usize,
}

struct GeneratedFileSource {
    path: &'static str,
    len: usize,
    stats: Rc<RefCell<GeneratedSourceStats>>,
}

impl RegularFileSource for GeneratedFileSource {
    fn archive_path(&self) -> &str {
        self.path
    }

    fn entry_kind(&self) -> SourceEntryKind {
        SourceEntryKind::Regular
    }

    fn link_target(&self) -> Option<&[u8]> {
        None
    }

    fn file_data_size(&self) -> u64 {
        self.len as u64
    }

    fn sparse_extents(&self) -> Option<&[SparseExtent]> {
        None
    }

    fn mode(&self) -> u32 {
        0o644
    }

    fn mtime(&self) -> ArchiveTimestamp {
        ArchiveTimestamp::unix_epoch()
    }

    fn portable_metadata(&self) -> PortableFileMetadata {
        PortableFileMetadata::default()
    }

    fn open<'a>(&'a self) -> Result<Box<dyn SourceReader + 'a>, ArchiveWriteError> {
        self.stats.borrow_mut().open_count += 1;
        Ok(Box::new(GeneratedReader { remaining: self.len, position: 0, stats: Rc::clone(&self.stats) }))
    }

    fn open_auxiliary<'a>(&'a self, _ordinal: usize) -> Result<Box<dyn SourceReader + 'a>, ArchiveWriteError> {
        unreachable!()
    }
}

struct GeneratedReader {
    remaining: usize,
    position: usize,
    stats: Rc<RefCell<GeneratedSourceStats>>,
}

impl SourceReader for GeneratedReader {
    fn read(&mut self, max: usize) -> Result<Vec<u8>, IoError> {
        if self.remaining == 0 {
            return Ok(Vec::new());
        }
        let count = max.min(self.remaining);
        let out = (self.position..self.position + count)
            .map(|position| position.wrapping_mul(31).wrapping_add(17) as u8)
            .collect();
        self.position += count;
        self.remaining -= count;
        let mut stats = self.stats.borrow_mut();
        stats.total_read += count as u64;
        stats.max_read_request = stats.max_read_request.max(max);
        Ok(out)
    }
}

#[derive(Default)]
struct TrackingArchiveSink {
    volume_bytes: Vec<u64>,
    bootstrap_sidecar_bytes: u64,
    max_write_len: usize,
}

impl ArchiveWriteSink for TrackingArchiveSink {
    fn begin_archive(&mut self, volume_count: usize) -> Result<(), ArchiveWriteError> {
        self.volume_bytes = vec![0; volume_count];
        self.bootstrap_sidecar_bytes = 0;
        self.max_write_len = 0;
        Ok(())
    }

    fn write_volume(&mut self, volume_index: usize, bytes: &[u8]) -> Result<(), ArchiveWriteError> {
        let volume = self.volume_bytes.get_mut(volume_index).ok_or(ArchiveWriteError::Format(
            FormatError::WriterInvariant("tracking sink volume index is out of bounds"),
        ))?;
        *volume += bytes.len() as u64;
        self.max_write_len = self.max_write_len.max(bytes.len());
        Ok(())
    }

    fn write_bootstrap_sidecar(&mut self, bytes: &[u8]) -> Result<(), ArchiveWriteError> {
        self.bootstrap_sidecar_bytes += bytes.len() as u64;
        self.max_write_len = self.max_write_len.max(bytes.len());
        Ok(())
    }
}

/// Fails on a chosen write.
struct FailingArchiveSink {
    writes_before_failure: usize,
    writes_seen: usize,
    begin_calls: usize,
    volumes: Vec<Vec<u8>>,
}

impl FailingArchiveSink {
    fn new(writes_before_failure: usize) -> Self {
        Self { writes_before_failure, writes_seen: 0, begin_calls: 0, volumes: Vec::new() }
    }
}

impl ArchiveWriteSink for FailingArchiveSink {
    fn begin_archive(&mut self, volume_count: usize) -> Result<(), ArchiveWriteError> {
        self.begin_calls += 1;
        self.volumes = vec![Vec::new(); volume_count];
        Ok(())
    }

    fn write_volume(&mut self, volume_index: usize, bytes: &[u8]) -> Result<(), ArchiveWriteError> {
        if self.writes_seen >= self.writes_before_failure {
            return Err(ArchiveWriteError::Io(IoError::Other("simulated storage failure mid-archive")));
        }
        self.writes_seen += 1;
        self.volumes[volume_index].extend_from_slice(bytes);
        Ok(())
    }

    fn write_bootstrap_sidecar(&mut self, _bytes: &[u8]) -> Result<(), ArchiveWriteError> {
        Ok(())
    }
}

#[derive(Default)]
struct RecordingWriteProgress {
    phases: Vec<ArchiveWritePhase>,
    phase_bytes: BTreeMap<ArchiveWritePhase, u64>,
}

impl RecordingWriteProgress {
    fn bytes_for(&self, phase: ArchiveWritePhase) -> u64 {
        self.phase_bytes.get(&phase).copied().unwrap_or_default()
    }
}

impl ArchiveWriteProgressSink for RecordingWriteProgress {
    fn phase_started(&mut self, phase: ArchiveWritePhase) {
        self.phases.push(phase);
    }

    fn source_bytes_read(&mut self, phase: ArchiveWritePhase, _archive_path: &str, bytes: u64) {
        let total = self.phase_bytes.entry(phase).or_default();
        *total = total.saturating_add(bytes);
    }
}

fn deterministic_bytes(len: usize) -> Vec<u8> {
    let mut state = 0x4d41_4d45u32;
    let mut out = Vec::with_capacity(len);
    for _ in 0..len {
        state = state.wrapping_mul(1_664_525).wrapping_add(1_013_904_223);
        out.push((state >> 24) as u8);
    }
    out
}

fn single_volume_metadata_test_options() -> WriterOptions {
    plan_writer_options(
        WriterOptions {
            block_size: MIN_BLOCK_SIZE,
            stripe_width: 1,
            volume_loss_tolerance: 0,
            bit_rot_buffer_pct: 0,
            index_root_fec_parity_shards: 0,
            ..default_options()
        },
        &CAPS,
    )
    .unwrap()
}

fn progress_test_writer_options() -> WriterOptions {
    WriterOptions {
        block_size: MIN_BLOCK_SIZE,
        chunk_size: 16 * 1024,
        envelope_target_size: 64 * 1024,
        stripe_width: 1,
        volume_loss_tolerance: 0,
        bit_rot_buffer_pct: 0,
        fec_parity_shards: 0,
        index_fec_parity_shards: 0,
        index_root_fec_parity_shards: 0,
        ..default_options()
    }
}

fn payload_len_for_encrypted_data_blocks(data_block_count: u32, options: WriterOptions) -> usize {
    assert!(data_block_count > 0);
    if data_block_count == 1 {
        return 1;
    }
    let block_size = options.block_size as usize;
    (data_block_count as usize - 1) * block_size - options.aead_algo.tag_len() + 1
}

/// The tar stream of the files, without their auxiliary payloads.
fn build_tar_stream<S: RegularFileSource>(
    files: &[S],
    max_path_length: u32,
) -> Result<(Vec<u8>, Vec<TarMember>), FormatError> {
    let mut stream = Vec::new();
    let mut members = Vec::new();
    for file in files {
        let member = capture_member(&TestCodec, file, max_path_length)?;
        let (mut reader, size) = open_member(&TestCodec, file, &member, 512)?;
        let start = stream.len() as u64;
        let mut ledger = SourceProgressState::new();
        let group = reader
            .read_exact(size as usize, &mut Unobserved::new(), &mut ledger)
            .map_err(|_| FormatError::WriterInvariant("test source failed to read"))?;
        stream.extend_from_slice(&group);
        members.push(member.placed_at(start, size));
    }
    Ok((stream, members))
}

fn assert_path_specific_member_group(group: &[u8]) {
    let mut cursor = 0usize;
    let mut saw_main = false;
    while cursor < group.len() {
        let header = &group[cursor..cursor + TAR_BLOCK_LEN];
        assert!(header.iter().any(|byte| *byte != 0), "tar zero block inside member group");
        let typeflag = header[156];
        assert_ne!(typeflag, b'g', "global PAX metadata");
        assert!(!matches!(typeflag, b'V' | b'M' | b'N'), "global GNU metadata");
        assert!(matches!(typeflag, b'x' | b'0'), "unexpected tar record type {typeflag:?}");
        if typeflag == b'0' {
            saw_main = true;
        }
        let size = field_octal(&header[124..136]) as usize;
        cursor += TAR_BLOCK_LEN + size + padding_to_512(size);
    }
    assert_eq!(cursor, group.len());
    assert!(saw_main);
}

fn plain_member(path: &[u8], entry_kind: SourceEntryKind, start: u64, mode: u32) -> TarMember {
    TarMember {
        path: path.to_vec(),
        entry_kind,
        link_target: None,
        tar_member_group_start: start,
        tar_member_group_size: 512,
        file_data_size: 0,
        sparse_extents: None,
        mode,
        mtime: ArchiveTimestamp::unix_epoch(),
        portable_metadata: PortableFileMetadata::default(),
    }
}

fn test_file_row(idx: usize, path_hash: [u8; 8]) -> FileRow {
    FileRow {
        path_hash,
        path: format!("file-{idx:05}.txt").into_bytes(),
        member_index: idx,
        entry_kind: SourceEntryKind::Regular,
        tar_member_group_start: idx as u64 * 512,
    }
}

fn hint_row(path: &[u8], entry_kind: SourceEntryKind, member_index: usize) -> FileRow {
    FileRow {
        path_hash: TestCodec.hash_prefix(path),
        path: path.to_vec(),
        member_index,
        entry_kind,
        tar_member_group_start: member_index as u64 * 512,
    }
}

fn recipient_wrap_test_record() -> RecipientRecordV1 {
    RecipientRecordV1 {
        record_length: 0,
        profile_id: 1,
        recipient_identity_type: 2,
        flags: 0,
        recipient_identity_length: 0,
        profile_payload_length: 0,
        recipient_identity_digest: [0u8; 32],
        recipient_identity_bytes: b"recipient-a".to_vec(),
        profile_payload_bytes: b"profile-payload".to_vec(),
    }
}

/// The directories of a hint table and the shards that each names.
fn parse_hint_table(planned: &PlannedDirectoryHintShard) -> BTreeMap<Vec<u8>, Vec<u32>> {
    let plain = &planned.plaintext;
    let mut head = Fields::new(plain);
    head.num(4).unwrap();
    assert_eq!(head.num(8).unwrap(), planned.hint_shard_index);
    let entry_count = head.num(8).unwrap();
    assert_eq!(entry_count, planned.entry_count);
    let entries_at = head.num(8).unwrap() as usize;
    let lists_at = head.num(8).unwrap() as usize;
    let pool_at = head.num(8).unwrap() as usize;
    let mut table = BTreeMap::new();
    let mut hashes = Vec::new();
    for i in 0..entry_count as usize {
        let mut f = Fields::new(&plain[entries_at + i * LAYOUT.hint_entry as usize..]);
        let hash: [u8; 8] = f.array().unwrap();
        let path_offset = f.num(8).unwrap() as usize;
        let path_length = f.num(4).unwrap() as usize;
        let start = f.num(4).unwrap() as usize;
        let count = f.num(4).unwrap() as usize;
        let path = plain[pool_at + path_offset..][..path_length].to_vec();
        assert_eq!(hash, TestCodec.hash_prefix(&path));
        let mut list = Fields::new(&plain[lists_at + 4 * start..]);
        let shards = (0..count).map(|_| list.num(4).unwrap() as u32).collect();
        hashes.push(hash);
        assert!(table.insert(path, shards).is_none());
    }
    assert!(hashes.windows(2).all(|pair| pair[0] <= pair[1]));
    assert_eq!(hashes.first(), Some(&planned.first_dir_hash));
    assert_eq!(hashes.last(), Some(&planned.last_dir_hash));
    table
}

// ---------------------------------------------------------------------------------------------
// Options and object plans
// ---------------------------------------------------------------------------------------------

#[test]
fn writer_defaults_use_v41_sizing_and_parallel_mode() {
    let options = WriterOptions::with_jobs(6);

    assert_eq!(options.chunk_size, 256 * 1024);
    assert_eq!(options.envelope_target_size, 1024 * 1024);
    assert_eq!(options.block_size, 64 * 1024);
    assert_eq!(options.stripe_width, 8);
    assert_eq!(options.volume_loss_tolerance, 1);
    assert_eq!(options.fec_data_shards, 224);
    assert_eq!(options.index_fec_data_shards, 16);
    assert_eq!(options.index_root_fec_data_shards, MIN_INDEX_ROOT_FEC_DATA_SHARDS);
    assert_eq!(options.bit_rot_buffer_pct, 5);
    assert_eq!(options.jobs, 6);
    assert_eq!(WriterOptions::with_jobs(3), WriterOptions { jobs: 3, ..options });
}

#[test]
fn writer_defaults_use_v45_sizing_and_parallel_mode() {
    let options = WriterOptions::with_jobs(6);

    assert_eq!(options.chunk_size, 256 * 1024);
    assert_eq!(options.envelope_target_size, 1024 * 1024);
    assert_eq!(options.block_size, 64 * 1024);
    assert_eq!(options.stripe_width, 8);
    assert_eq!(options.volume_loss_tolerance, 1);
    assert_eq!(options.fec_data_shards, 224);
    assert_eq!(options.index_fec_data_shards, 16);
    assert_eq!(options.index_root_fec_data_shards, MIN_INDEX_ROOT_FEC_DATA_SHARDS);
    assert_eq!(options.bit_rot_buffer_pct, 5);
    assert_eq!(options.jobs, 6);
}

#[test]
fn writer_writer_options_reject_zero_jobs() {
    writer_options_reject_zero_jobs();
}

#[test]
fn tests_writer_options_reject_zero_jobs() {
    writer_options_reject_zero_jobs();
}

fn writer_options_reject_zero_jobs() {
    let err = plan_writer_options(WriterOptions { jobs: 0, ..default_options() }, &CAPS).unwrap_err();

    assert_eq!(err, FormatError::WriterUnsupported("jobs must be at least 1"));
}

#[test]
fn parity_auto_scaling_matches_v41_examples() {
    let options = WriterOptions {
        fec_data_shards: 224,
        stripe_width: 8,
        volume_loss_tolerance: 1,
        bit_rot_buffer_pct: 5,
        ..default_options()
    };

    assert_eq!(compute_parity(224, options).unwrap(), 48);
    assert_eq!(compute_parity(17, options).unwrap(), 5);
}

#[test]
fn parity_auto_scaling_matches_v45_examples() {
    let options = WriterOptions {
        fec_data_shards: 224,
        stripe_width: 8,
        volume_loss_tolerance: 1,
        bit_rot_buffer_pct: 5,
        ..default_options()
    };

    assert_eq!(compute_parity(224, options).unwrap(), 48);
    assert_eq!(compute_parity(17, options).unwrap(), 5);
}

#[test]
fn writer_parity_auto_scaling_rejects_non_convergent_budget() {
    parity_auto_scaling_rejects_non_convergent_budget();
}

#[test]
fn tests_parity_auto_scaling_rejects_non_convergent_budget() {
    parity_auto_scaling_rejects_non_convergent_budget();
}

fn parity_auto_scaling_rejects_non_convergent_budget() {
    let err = compute_parity(
        1,
        WriterOptions { stripe_width: 2, volume_loss_tolerance: 1, bit_rot_buffer_pct: 50, ..default_options() },
    )
    .unwrap_err();

    assert_eq!(err, FormatError::WriterUnsupported("parity calculation did not converge"));
}

#[test]
fn writer_zero_parity_is_allowed_when_no_recovery_margin_is_requested() {
    zero_parity_is_allowed_when_no_recovery_margin_is_requested();
}

#[test]
fn tests_zero_parity_is_allowed_when_no_recovery_margin_is_requested() {
    zero_parity_is_allowed_when_no_recovery_margin_is_requested();
}

fn zero_parity_is_allowed_when_no_recovery_margin_is_requested() {
    let planned = plan_writer_options(
        WriterOptions {
            bit_rot_buffer_pct: 0,
            stripe_width: 1,
            volume_loss_tolerance: 0,
            fec_parity_shards: 0,
            index_fec_parity_shards: 0,
            index_root_fec_parity_shards: 0,
            ..default_options()
        },
        &CAPS,
    )
    .unwrap();

    assert_eq!(planned.fec_parity_shards, 0);
    assert_eq!(planned.index_fec_parity_shards, 0);
    assert_eq!(planned.index_root_fec_parity_shards, 0);
    assert_eq!(compute_parity(1, planned).unwrap(), 0);
}

#[test]
fn index_root_data_shard_maximum_obeys_v41_minimum() {
    let planned =
        plan_writer_options(WriterOptions { index_root_fec_data_shards: 1, ..default_options() }, &CAPS).unwrap();

    assert_eq!(planned.index_root_fec_data_shards, MIN_INDEX_ROOT_FEC_DATA_SHARDS);
}

#[test]
fn index_root_data_shard_maximum_obeys_v45_minimum() {
    let planned =
        plan_writer_options(WriterOptions { index_root_fec_data_shards: 1, ..default_options() }, &CAPS).unwrap();

    assert_eq!(planned.index_root_fec_data_shards, MIN_INDEX_ROOT_FEC_DATA_SHARDS);
}

#[test]
fn writer_metadata_class_planning_raises_index_root_class_above_default() {
    metadata_class_planning_raises_index_root_class_above_default();
}

#[test]
fn tests_metadata_class_planning_raises_index_root_class_above_default() {
    metadata_class_planning_raises_index_root_class_above_default();
}

fn metadata_class_planning_raises_index_root_class_above_default() {
    let options = plan_writer_options(
        WriterOptions {
            block_size: MIN_BLOCK_SIZE,
            index_root_fec_parity_shards: 0,
            bit_rot_buffer_pct: 0,
            ..default_options()
        },
        &CAPS,
    )
    .unwrap();
    let index_root_payload_len = payload_len_for_encrypted_data_blocks(64, options);

    let planned = plan_index_root_metadata_class(options, index_root_payload_len, None).unwrap();

    assert_eq!(planned.index_root.data_block_count, 64);
    assert_eq!(planned.options.index_root_fec_data_shards, 64);
    assert_eq!(
        planned.options.index_root_fec_parity_shards,
        compute_parity_u16(
            planned.options.index_root_fec_data_shards as u64,
            planned.options,
            "index_root_fec_parity_shards",
        )
        .unwrap()
    );
}

#[test]
fn writer_single_pass_writer_predeclares_metadata_class_before_payload_streaming() {
    single_pass_writer_predeclares_metadata_class_before_payload_streaming();
}

#[test]
fn tests_single_pass_writer_predeclares_metadata_class_before_payload_streaming() {
    single_pass_writer_predeclares_metadata_class_before_payload_streaming();
}

fn single_pass_writer_predeclares_metadata_class_before_payload_streaming() {
    let planned = plan_single_pass_writer_options(
        WriterOptions {
            block_size: MIN_BLOCK_SIZE,
            stripe_width: 1,
            volume_loss_tolerance: 0,
            bit_rot_buffer_pct: 0,
            index_root_fec_parity_shards: 0,
            ..default_options()
        },
        &CAPS,
    )
    .unwrap();

    assert!(planned.index_root_fec_data_shards > DEFAULT_INDEX_ROOT_FEC_DATA_SHARDS);
    let index_root_payload_len =
        payload_len_for_encrypted_data_blocks(u32::from(planned.index_root_fec_data_shards - 1), planned);
    let metadata_class = plan_index_root_metadata_class(planned, index_root_payload_len, None).unwrap();

    assert_eq!(metadata_class.options, planned);
}

#[test]
fn writer_metadata_class_planning_rejects_oversized_index_root() {
    metadata_class_planning_rejects_oversized_index_root();
}

#[test]
fn tests_metadata_class_planning_rejects_oversized_index_root() {
    metadata_class_planning_rejects_oversized_index_root();
}

fn metadata_class_planning_rejects_oversized_index_root() {
    let options = single_volume_metadata_test_options();
    let index_root_payload_len = payload_len_for_encrypted_data_blocks(u16::MAX as u32 + 1, options);

    let err = plan_index_root_metadata_class(options, index_root_payload_len, None).unwrap_err();

    assert_eq!(err, FormatError::WriterUnsupported("IndexRoot too large"));
}

#[test]
fn writer_metadata_class_planning_rejects_index_root_u32_encrypted_size_overflow() {
    metadata_class_planning_rejects_index_root_u32_encrypted_size_overflow();
}

#[test]
fn tests_metadata_class_planning_rejects_index_root_u32_encrypted_size_overflow() {
    metadata_class_planning_rejects_index_root_u32_encrypted_size_overflow();
}

fn metadata_class_planning_rejects_index_root_u32_encrypted_size_overflow() {
    let options = single_volume_metadata_test_options();
    let index_root_payload_len = u32::MAX as usize - options.aead_algo.tag_len() + 1;

    let err = plan_index_root_metadata_class(options, index_root_payload_len, None).unwrap_err();

    assert_eq!(err, FormatError::WriterUnsupported("IndexRoot too large"));
}

#[test]
fn writer_metadata_class_planning_rejects_oversized_dictionary() {
    metadata_class_planning_rejects_oversized_dictionary();
}

#[test]
fn tests_metadata_class_planning_rejects_oversized_dictionary() {
    metadata_class_planning_rejects_oversized_dictionary();
}

fn metadata_class_planning_rejects_oversized_dictionary() {
    let options = single_volume_metadata_test_options();
    let dictionary_payload_len = payload_len_for_encrypted_data_blocks(u16::MAX as u32 + 1, options);

    let err = plan_index_root_metadata_class(options, 1, Some(dictionary_payload_len)).unwrap_err();

    assert_eq!(err, FormatError::WriterUnsupported("dictionary object too large"));
}

#[test]
fn writer_metadata_class_planning_rejects_gf16_total_overflow_for_dictionary() {
    metadata_class_planning_rejects_gf16_total_overflow_for_dictionary();
}

#[test]
fn tests_metadata_class_planning_rejects_gf16_total_overflow_for_dictionary() {
    metadata_class_planning_rejects_gf16_total_overflow_for_dictionary();
}

fn metadata_class_planning_rejects_gf16_total_overflow_for_dictionary() {
    let options = plan_writer_options(
        WriterOptions {
            block_size: MIN_BLOCK_SIZE,
            stripe_width: 8,
            volume_loss_tolerance: 1,
            bit_rot_buffer_pct: 5,
            ..default_options()
        },
        &CAPS,
    )
    .unwrap();
    let dictionary_payload_len = payload_len_for_encrypted_data_blocks(60_000, options);

    let err = plan_index_root_metadata_class(options, 1, Some(dictionary_payload_len)).unwrap_err();

    assert_eq!(err, FormatError::WriterUnsupported("dictionary object too large"));
}

#[test]
fn writer_object_parity_uses_per_object_recurrence_even_with_larger_class_max() {
    object_parity_uses_per_object_recurrence_even_with_larger_class_max();
}

#[test]
fn tests_object_parity_uses_per_object_recurrence_even_with_larger_class_max() {
    object_parity_uses_per_object_recurrence_even_with_larger_class_max();
}

fn object_parity_uses_per_object_recurrence_even_with_larger_class_max() {
    let options = WriterOptions {
        bit_rot_buffer_pct: 0,
        stripe_width: 1,
        volume_loss_tolerance: 0,
        fec_parity_shards: 1,
        ..default_options()
    };

    assert_eq!(compute_object_parity(1, options, 1).unwrap(), 0);
}

#[test]
fn writer_object_total_shards_obeys_reed_solomon_limit() {
    object_total_shards_obeys_reed_solomon_limit();
}

#[test]
fn tests_object_total_shards_obeys_reed_solomon_limit() {
    object_total_shards_obeys_reed_solomon_limit();
}

fn object_total_shards_obeys_reed_solomon_limit() {
    assert!(validate_object_shard_total(65_535, 0).is_ok());
    assert_eq!(
        validate_object_shard_total(65_535, 1).unwrap_err(),
        FormatError::WriterUnsupported("encrypted object exceeds ReedSolomonGF16 shard limit")
    );
}

#[test]
fn writer_argon2id_kdf_serialization_rejects_memory_requirement_overflow() {
    argon2id_kdf_serialization_rejects_memory_requirement_overflow();
}

#[test]
fn tests_argon2id_kdf_serialization_rejects_memory_requirement_overflow() {
    argon2id_kdf_serialization_rejects_memory_requirement_overflow();
}

fn argon2id_kdf_serialization_rejects_memory_requirement_overflow() {
    assert_eq!(
        serialize_kdf_params(
            &KdfParams::Argon2id {
                t_cost: 1,
                m_cost_kib: u32::MAX,
                parallelism: u32::MAX,
                salt: b"12345678".to_vec(),
            },
            &LAYOUT,
        )
        .unwrap_err(),
        FormatError::InvalidKdfParams("m_cost_kib requirement overflow")
    );
}

#[test]
fn recipient_wrap_kdf_serialization() {
    let params = KdfParams::RecipientWrap {
        key_wrap_table_length: 16,
        key_wrap_table_record_count: 4,
        key_wrap_table_version: 1,
        key_wrap_table_digest: [0xaau8; 32],
    };
    let serialized = serialize_kdf_params(&params, &LAYOUT).unwrap();
    let mut expected = Vec::new();
    expected.extend_from_slice(&LAYOUT.kdf_code(KdfAlgo::RecipientWrap).to_le_bytes());
    expected.extend_from_slice(&16u32.to_le_bytes());
    expected.extend_from_slice(&4u32.to_le_bytes());
    expected.extend_from_slice(&1u16.to_le_bytes());
    expected.extend_from_slice(&0u16.to_le_bytes());
    expected.extend_from_slice(&[0xaau8; 32]);
    assert_eq!(serialized, expected);
}

#[test]
fn writer_writer_options_reject_reader_resource_cap_excesses() {
    writer_options_reject_reader_resource_cap_excesses();
}

#[test]
fn tests_writer_options_reject_reader_resource_cap_excesses() {
    writer_options_reject_reader_resource_cap_excesses();
}

fn writer_options_reject_reader_resource_cap_excesses() {
    assert_eq!(
        plan_writer_options(
            WriterOptions { stripe_width: CAPS.max_stripe_width + 1, volume_loss_tolerance: 0, ..default_options() },
            &CAPS,
        )
        .unwrap_err(),
        FormatError::ReaderResourceLimitExceeded {
            field: "stripe_width",
            cap: CAPS.max_stripe_width as u64,
            actual: CAPS.max_stripe_width as u64 + 1,
        }
    );
    assert_eq!(
        plan_writer_options(WriterOptions { block_size: CAPS.max_block_size + 2, ..default_options() }, &CAPS)
            .unwrap_err(),
        FormatError::ReaderResourceLimitExceeded {
            field: "block_size",
            cap: CAPS.max_block_size as u64,
            actual: CAPS.max_block_size as u64 + 2,
        }
    );
    assert_eq!(
        plan_writer_options(
            WriterOptions {
                chunk_size: CAPS.max_chunk_size + 1,
                envelope_target_size: CAPS.max_chunk_size + 1,
                ..default_options()
            },
            &CAPS,
        )
        .unwrap_err(),
        FormatError::ReaderResourceLimitExceeded {
            field: "chunk_size",
            cap: CAPS.max_chunk_size as u64,
            actual: CAPS.max_chunk_size as u64 + 1,
        }
    );
    assert_eq!(
        plan_writer_options(WriterOptions { max_path_length: CAPS.max_path_length + 1, ..default_options() }, &CAPS)
            .unwrap_err(),
        FormatError::ReaderResourceLimitExceeded {
            field: "max_path_length",
            cap: CAPS.max_path_length as u64,
            actual: CAPS.max_path_length as u64 + 1,
        }
    );
    assert_eq!(
        plan_writer_options(
            WriterOptions {
                bit_rot_buffer_pct: 0,
                stripe_width: 1,
                volume_loss_tolerance: 0,
                fec_data_shards: CAPS.max_fec_class_shards as u16 + 1,
                ..default_options()
            },
            &CAPS,
        )
        .unwrap_err(),
        FormatError::ReaderResourceLimitExceeded {
            field: "fec_data_shards + fec_parity_shards",
            cap: CAPS.max_fec_class_shards as u64,
            actual: CAPS.max_fec_class_shards as u64 + 1,
        }
    );
}

#[test]
fn writer_rejects_loss_tolerance_at_or_above_stripe_width() {
    for stripe_width in [2u32, 8] {
        for volume_loss_tolerance in [stripe_width as u8, stripe_width as u8 + 1] {
            let err = plan_writer_options(
                WriterOptions { block_size: MIN_BLOCK_SIZE, stripe_width, volume_loss_tolerance, ..default_options() },
                &CAPS,
            )
            .unwrap_err();
            assert!(
                matches!(err, FormatError::WriterUnsupported(message) if message == "volume_loss_tolerance must be less than stripe_width"),
                "expected rejection for stripe_width={stripe_width} volume_loss_tolerance={volume_loss_tolerance}"
            );
        }
    }
}

#[test]
fn writer_options_validation_edges() {
    let master = MasterKey::from_raw_key(&[1u8; 32]).unwrap();
    let files = [RegularFile::new("file.txt", b"data")];
    let refused = |options: WriterOptions| write_archive(&TestCodec, &files, &master, options, &CAPS).is_err();

    // Odd or < 4096 block size
    let mut bad_opt = one_volume();
    bad_opt.block_size = 4095;
    assert!(refused(bad_opt));
    bad_opt.block_size = 2048;
    assert!(refused(bad_opt));

    // stripe_width = 0
    let mut bad_stripe = one_volume();
    bad_stripe.stripe_width = 0;
    assert!(refused(bad_stripe));

    // bit_rot_buffer_pct > 100
    let mut bad_rot = one_volume();
    bad_rot.bit_rot_buffer_pct = 101;
    assert!(refused(bad_rot));

    // chunk_size = 0 or chunk_size > envelope_target_size
    let mut bad_chunk = one_volume();
    bad_chunk.chunk_size = 0;
    assert!(refused(bad_chunk));
    bad_chunk.chunk_size = bad_chunk.envelope_target_size + 1;
    assert!(refused(bad_chunk));

    // target_volume_size = Some(0)
    let mut bad_target = one_volume();
    bad_target.target_volume_size = Some(0);
    assert!(refused(bad_target));

    assert!(!refused(one_volume()));
}

// ---------------------------------------------------------------------------------------------
// Rows and hints
// ---------------------------------------------------------------------------------------------

#[test]
fn writer_writer_partitions_multiple_default_sized_index_shards() {
    writer_partitions_multiple_default_sized_index_shards();
}

#[test]
fn tests_writer_partitions_multiple_default_sized_index_shards() {
    writer_partitions_multiple_default_sized_index_shards();
}

fn writer_partitions_multiple_default_sized_index_shards() {
    let members = (0..=DEFAULT_FILES_PER_INDEX_SHARD)
        .map(|idx| {
            let path = format!("file-{idx:05}.txt").into_bytes();
            plain_member(&path, SourceEntryKind::Regular, idx as u64 * 512, 0o644)
        })
        .collect::<Vec<_>>();

    let shards = partition_file_rows(&sorted_file_rows(&TestCodec, &members)).unwrap();

    assert_eq!(shards.len(), 2);
    assert_eq!(shards[0].len(), DEFAULT_FILES_PER_INDEX_SHARD);
    assert_eq!(shards[1].len(), 1);
}

#[test]
fn writer_writer_extends_shard_for_bounded_hash_prefix_run() {
    writer_extends_shard_for_bounded_hash_prefix_run();
}

#[test]
fn tests_writer_extends_shard_for_bounded_hash_prefix_run() {
    writer_extends_shard_for_bounded_hash_prefix_run();
}

fn writer_extends_shard_for_bounded_hash_prefix_run() {
    let mut rows = Vec::new();
    rows.extend((0..9_000).map(|idx| test_file_row(idx, [0u8; 8])));
    rows.extend((9_000..54_000).map(|idx| test_file_row(idx, [1u8; 8])));
    rows.push(test_file_row(54_000, [2u8; 8]));

    let shards = partition_file_rows(&rows).unwrap();

    assert_eq!(shards.len(), 2);
    assert_eq!(shards[0].len(), 54_000);
    assert!(shards[0].iter().skip(9_000).all(|row| row.path_hash == [1u8; 8]));
    assert_eq!(shards[1][0].path_hash, [2u8; 8]);
}

#[test]
fn writer_writer_splits_oversized_hash_prefix_run_at_writer_ceiling() {
    writer_splits_oversized_hash_prefix_run_at_writer_ceiling();
}

#[test]
fn tests_writer_splits_oversized_hash_prefix_run_at_writer_ceiling() {
    writer_splits_oversized_hash_prefix_run_at_writer_ceiling();
}

fn writer_splits_oversized_hash_prefix_run_at_writer_ceiling() {
    let rows = (0..MAX_HASH_PREFIX_RUN_FILES + 1).map(|idx| test_file_row(idx, [7u8; 8])).collect::<Vec<_>>();

    let shards = partition_file_rows(&rows).unwrap();

    assert_eq!(shards.len(), 2);
    assert_eq!(shards[0].len(), MAX_HASH_PREFIX_RUN_FILES);
    assert_eq!(shards[1].len(), 1);
}

#[test]
fn writer_writer_builds_directory_hint_rows_for_ancestor_directories() {
    writer_builds_directory_hint_rows_for_ancestor_directories();
}

#[test]
fn tests_writer_builds_directory_hint_rows_for_ancestor_directories() {
    writer_builds_directory_hint_rows_for_ancestor_directories();
}

fn writer_builds_directory_hint_rows_for_ancestor_directories() {
    let shard_rows = vec![
        vec![hint_row(b"a/b/one.txt", SourceEntryKind::Regular, 0)],
        vec![hint_row(b"a/c/two.txt", SourceEntryKind::Regular, 1)],
    ];

    let options = plan_writer_options(default_options(), &CAPS).unwrap();
    let planned = build_directory_hint_plaintexts(&TestCodec, &shard_rows, options).unwrap();
    assert_eq!(planned.len(), 1);
    let table = parse_hint_table(&planned[0]);

    assert_eq!(table.get(b"".as_slice()).unwrap(), &[0, 1]);
    assert_eq!(table.get(b"a".as_slice()).unwrap(), &[0, 1]);
    assert_eq!(table.get(b"a/b".as_slice()).unwrap(), &[0]);
}

/// The directories that lead to a member, and the member itself where it is one.
fn add_expected_directory_hint_rows(
    expected: &mut BTreeMap<Vec<u8>, BTreeSet<u32>>,
    shard_row_index: u32,
    path: &[u8],
    kind: TarEntryKind,
) {
    expected.entry(Vec::new()).or_default().insert(shard_row_index);
    for (at, byte) in path.iter().enumerate() {
        if *byte == b'/' {
            expected.entry(path[..at].to_vec()).or_default().insert(shard_row_index);
        }
    }
    if kind == TarEntryKind::Directory {
        expected.entry(path.to_vec()).or_default().insert(shard_row_index);
    }
}

#[test]
fn directory_hint_rows_include_directory_members_own_paths() {
    // Leaf directories are no prefix of any member's path, so their own paths are listed too.
    let shard_rows = vec![
        vec![
            hint_row(b"top.txt", SourceEntryKind::Regular, 0),
            hint_row(b"a/empty", SourceEntryKind::Directory, 1),
        ],
        vec![
            hint_row(b"a/b", SourceEntryKind::Directory, 2),
            hint_row(b"a/b/one.txt", SourceEntryKind::Regular, 3),
            hint_row(b"x/y/z", SourceEntryKind::Directory, 4),
        ],
    ];

    let options = plan_writer_options(default_options(), &CAPS).unwrap();
    let planned = build_directory_hint_plaintexts(&TestCodec, &shard_rows, options).unwrap();
    let table = parse_hint_table(&planned[0]);

    assert_eq!(table.get(b"a/empty".as_slice()).unwrap(), &[0]);
    assert_eq!(table.get(b"x/y/z".as_slice()).unwrap(), &[1]);
    assert_eq!(table.get(b"".as_slice()).unwrap(), &[0, 1]);

    let mut expected = BTreeMap::<Vec<u8>, BTreeSet<u32>>::new();
    for (shard_row_index, rows) in shard_rows.iter().enumerate() {
        for row in rows {
            add_expected_directory_hint_rows(
                &mut expected,
                shard_row_index as u32,
                &row.path,
                row.entry_kind.tar_kind(),
            );
        }
    }
    let listed = table.into_iter().map(|(path, shards)| (path, shards.into_iter().collect())).collect();
    assert_eq!(expected, listed);
}

#[test]
fn directory_hints_are_required_only_above_v41_threshold() {
    assert!(!should_emit_directory_hints(0));
    assert!(!should_emit_directory_hints(DIRECTORY_HINT_REQUIRED_FILE_COUNT));
    assert!(should_emit_directory_hints(DIRECTORY_HINT_REQUIRED_FILE_COUNT + 1));
}

#[test]
fn directory_hints_are_required_only_above_v45_threshold() {
    assert!(!should_emit_directory_hints(0));
    assert!(!should_emit_directory_hints(DIRECTORY_HINT_REQUIRED_FILE_COUNT));
    assert!(should_emit_directory_hints(DIRECTORY_HINT_REQUIRED_FILE_COUNT + 1));
}

// ---------------------------------------------------------------------------------------------
// Members
// ---------------------------------------------------------------------------------------------

fn member_group(
    path: &[u8],
    contents: &[u8],
    mode: u32,
    mtime: ArchiveTimestamp,
    metadata: &PortableFileMetadata,
) -> Result<Vec<u8>, FormatError> {
    build_regular_file_member_group(&TestCodec, path, contents, mode, mtime, metadata)
}

fn primary_prefix(
    path: &[u8],
    entry_kind: SourceEntryKind,
    link_target: Option<&[u8]>,
    mode: u32,
    mtime: ArchiveTimestamp,
    portable_metadata: &PortableFileMetadata,
) -> Result<Vec<u8>, FormatError> {
    build_primary_member_prefix(
        &TestCodec,
        &PrimaryInput {
            path,
            entry_kind,
            link_target,
            file_size: 0,
            sparse_extents: None,
            mode,
            mtime,
            portable_metadata,
        },
    )
}

fn names(list: &[&str]) -> Vec<String> {
    list.iter().map(|name| name.to_string()).collect()
}

fn auxiliary_record(kind: &str, profile: &str, class: RestoreClass, payload: &[u8]) -> NativeAuxiliaryMetadata {
    NativeAuxiliaryMetadata::new(kind.to_string(), profile.to_string(), class, payload.to_vec())
}

fn with_primary_record(key: &str, value: &str) -> NativeFileMetadata {
    let mut native = NativeFileMetadata::default();
    put(&mut native.primary_pax_records, key, value.as_bytes());
    native
}

#[test]
fn writer_regular_file_writer_uses_local_pax_path_for_long_and_non_ascii_paths() {
    regular_file_writer_uses_local_pax_path_for_long_and_non_ascii_paths();
}

#[test]
fn tests_regular_file_writer_uses_local_pax_path_for_long_and_non_ascii_paths() {
    regular_file_writer_uses_local_pax_path_for_long_and_non_ascii_paths();
}

fn regular_file_writer_uses_local_pax_path_for_long_and_non_ascii_paths() {
    let long_path = format!("dir/{}.txt", "a".repeat(120));
    let unicode_path = "unicode/e\u{301}.txt";
    let files = [RegularFile::new(&long_path, b"long path"), RegularFile::new(unicode_path, b"unicode path")];

    let (tar_stream, members) = build_tar_stream(&files, 4096).unwrap();

    for (member, expected_path, expected_data) in [
        (&members[0], long_path.as_bytes(), b"long path".as_slice()),
        (&members[1], "unicode/\u{e9}.txt".as_bytes(), b"unicode path".as_slice()),
    ] {
        let start = member.tar_member_group_start as usize;
        let end = start + member.tar_member_group_size as usize;
        let group = &tar_stream[start..end];
        assert_eq!(group[156], b'x');
        let parsed = parse_tar_member_group(group).unwrap();
        assert_eq!(parsed.path, expected_path);
        assert_eq!(parsed.data, expected_data);
    }
}

#[test]
fn writer_regular_file_writer_emits_no_global_metadata_or_tar_eof() {
    regular_file_writer_emits_no_global_metadata_or_tar_eof();
}

#[test]
fn tests_regular_file_writer_emits_no_global_metadata_or_tar_eof() {
    regular_file_writer_emits_no_global_metadata_or_tar_eof();
}

fn regular_file_writer_emits_no_global_metadata_or_tar_eof() {
    let long_path = format!("dir/{}.txt", "a".repeat(120));
    let files =
        [RegularFile::new("plain.txt", b"plain contents"), RegularFile::new(&long_path, b"long path contents")];

    let (tar_stream, members) = build_tar_stream(&files, 4096).unwrap();

    let member_bytes = members.iter().map(|member| member.tar_member_group_size).sum::<u64>();
    assert_eq!(tar_stream.len() as u64, member_bytes);
    assert!(!tar_stream[tar_stream.len() - TAR_BLOCK_LEN * 2..]
        .chunks(TAR_BLOCK_LEN)
        .all(|block| block.iter().all(|byte| *byte == 0)));

    for member in members {
        let start = member.tar_member_group_start as usize;
        let end = start + member.tar_member_group_size as usize;
        assert_path_specific_member_group(&tar_stream[start..end]);
    }
}

#[test]
fn sparse_writer_emits_canonical_gnu_sparse_primary_and_all_hole_file() {
    for source in [
        SparseTestSource {
            logical_size: 32,
            extents: vec![
                SparseExtent { offset: 4, length: 3 },
                SparseExtent { offset: 16, length: 2 },
                SparseExtent { offset: 30, length: 2 },
            ],
            extent_bytes: b"abcdeyz".to_vec(),
        },
        SparseTestSource { logical_size: 1 << 20, extents: Vec::new(), extent_bytes: Vec::new() },
    ] {
        let expected_map_prefix = format!("{}\n", source.extents.len());
        let (tar_stream, members) = build_tar_stream(&[source], 4096).unwrap();
        let parsed = parse_tar_member_group(&tar_stream).unwrap();
        assert_eq!(parsed.path, b"sparse.bin");
        assert_eq!(parsed.logical_size, members[0].file_data_size);
        assert_eq!(parsed.sparse_extents, members[0].sparse_extents);
        assert!(parsed.data.starts_with(expected_map_prefix.as_bytes()));
    }
}

#[test]
fn sparse_writer_rejects_noncanonical_extent_maps() {
    for extents in [
        vec![SparseExtent { offset: 0, length: 0 }],
        vec![SparseExtent { offset: 0, length: 2 }, SparseExtent { offset: 2, length: 2 }],
        vec![SparseExtent { offset: 9, length: 2 }],
    ] {
        let source = SparseTestSource { logical_size: 10, extents, extent_bytes: Vec::new() };
        assert!(build_tar_stream(&[source], 4096).is_err());
    }
}

#[test]
fn sparse_writer_indexes_logical_size_and_streams_expanded_content() {
    let source = SparseTestSource {
        logical_size: 12,
        extents: vec![SparseExtent { offset: 2, length: 3 }, SparseExtent { offset: 9, length: 2 }],
        extent_bytes: b"abcxy".to_vec(),
    };
    let master_key = MasterKey::from_raw_key(&[7u8; 32]).unwrap();
    let mut sink = MemoryArchiveSink::default();
    write_archive_sources_to_sink(
        &TestCodec,
        &[source],
        &master_key,
        single_volume_metadata_test_options(),
        None,
        &KdfParams::Raw,
        None,
        NO_SIGNER,
        &CAPS,
        &mut sink,
    )
    .unwrap();

    let opened = open_archive(&sink.volumes[0], &master_key).unwrap();
    opened.verify().unwrap();
    let entry = opened.lookup_index_entry("sparse.bin").unwrap().unwrap();
    assert_eq!(entry.file_data_size, 12);
    assert_ne!(entry.flags & FLAGS.has_sparse_extents, 0);
    assert_eq!(opened.extract_file("sparse.bin").unwrap().unwrap(), b"\0\0abc\0\0\0\0xy\0");
}

#[test]
fn writer_regular_file_writer_round_trips_mode_and_mtime() {
    regular_file_writer_round_trips_mode_and_mtime();
}

#[test]
fn tests_regular_file_writer_round_trips_mode_and_mtime() {
    regular_file_writer_round_trips_mode_and_mtime();
}

fn regular_file_writer_round_trips_mode_and_mtime() {
    let group = member_group(
        b"script.sh",
        b"#!/bin/sh\n",
        0o755,
        ArchiveTimestamp::from_seconds(1_700_000_000),
        &PortableFileMetadata::default(),
    )
    .unwrap();

    let parsed = parse_tar_member_group(&group).unwrap();

    assert_eq!(parsed.mode, 0o755);
    assert_eq!(parsed.mtime, ArchiveTimestamp::from_seconds(1_700_000_000));
}

#[test]
fn regular_file_writer_round_trips_nanosecond_and_pre_epoch_mtimes() {
    for expected in [time(1_700_000_000, 123_456_789), time(-1, 500_000_000)] {
        let group =
            member_group(b"dated.txt", b"dated", 0o644, expected, &PortableFileMetadata::default()).unwrap();
        let parsed = parse_tar_member_group(&group).unwrap();
        assert_eq!(parsed.mtime, expected);
        assert_eq!(parsed.mirrored_mtime(), (expected.seconds, expected.nanoseconds));
    }
}

#[test]
fn regular_file_writer_rejects_invalid_timestamp_nanoseconds() {
    assert!(matches!(
        member_group(b"dated.txt", b"dated", 0o644, time(0, 1_000_000_000), &PortableFileMetadata::default()),
        Err(FormatError::WriterUnsupported("timestamp nanoseconds must be less than one billion"))
    ));
}

#[test]
fn macos_entitlement_and_superuser_flags_require_system_restore() {
    for flags in [0x0000_0080u64, 0x0008_0000, 0x0010_0000, 0x0080_0000] {
        let native = with_primary_record("TZAP.macos.st-flags", &format!("{flags:016x}"));
        assert!(native_metadata_requires_system_restore(&native, &"macos".to_string()));
    }
}

#[test]
fn linux_bsd_macos_immutable_flags_require_system_restore() {
    // append and immutable
    let native = with_primary_record("TZAP.linux.fsflags", "0000000000000030");
    assert!(native_metadata_requires_system_restore(&native, &"linux".to_string()));

    // append and immutable
    let native = with_primary_record("TZAP.bsd.st-flags", "0000000000060006");
    assert!(native_metadata_requires_system_restore(&native, &"freebsd".to_string()));

    // SF_IMMUTABLE
    let native = with_primary_record("TZAP.macos.st-flags", "0000000000040000");
    assert!(native_metadata_requires_system_restore(&native, &"macos".to_string()));

    let native = with_primary_record("SCHILY.fflags", "uchg,uappnd");
    assert!(native_metadata_requires_system_restore(&native, &"linux".to_string()));

    assert!(!native_metadata_requires_system_restore(&NativeFileMetadata::default(), &"linux".to_string()));
}

#[test]
fn windows_reparse_and_attributes_require_system_restore() {
    let native = with_primary_record("TZAP.windows.reparse-placeholder", "1");
    assert!(native_metadata_requires_system_restore(&native, &"windows".to_string()));

    // stream contains security
    let native = with_primary_record("TZAP.windows.data-stream-attributes", "00000002");
    assert!(native_metadata_requires_system_restore(&native, &"windows".to_string()));
}

#[test]
fn regular_file_writer_round_trips_portable_owner_origin_and_attributes() {
    let portable_metadata = PortableFileMetadata {
        source_os: "other-unix".to_string(),
        source_filesystem: "ext4".to_string(),
        mode_origin: PortableModeOrigin::Native,
        posix_owner: Some(PortablePosixOwner {
            uid: 9_000_000,
            gid: 42,
            uname: Some("tést-user".to_string()),
            gname: Some("archive".to_string()),
        }),
        attributes: Some(1),
        created: None,
        accessed: None,
        native: NativeFileMetadata::default(),
    };
    let group =
        member_group(b"owned.txt", b"owned", 0o640, ArchiveTimestamp::unix_epoch(), &portable_metadata).unwrap();
    let parsed = parse_tar_member_group(&group).unwrap();

    assert_eq!(parsed.text("TZAP.portable.owner-kind"), "posix");
    assert_eq!(parsed.text("TZAP.portable.mode-origin"), "native");
    assert_eq!(parsed.text("TZAP.metadata.source-os"), "other-unix");
    assert_eq!(parsed.text("TZAP.metadata.source-filesystem"), "ext4");
    assert_eq!(parsed.uid, Some(9_000_000));
    assert_eq!(parsed.gid, Some(42));
    assert_eq!(parsed.uname.as_deref(), Some("tést-user".as_bytes()));
    assert_eq!(parsed.attributes(), Some(1));
    assert_ne!(parsed.file_entry_flags() & FLAGS.requires_system_restore, 0);
    assert_ne!(
        v45_portable_file_entry_flags(&TestCodec, 0o640, false, &portable_metadata) & FLAGS.requires_system_restore,
        0
    );
}

#[test]
fn regular_file_writer_serializes_portable_creation_and_access_times() {
    let portable_metadata = PortableFileMetadata {
        created: Some(time(1_600_000_000, 123_456_789)),
        accessed: Some(time(1_700_000_000, 987_654_321)),
        ..PortableFileMetadata::default()
    };

    let group =
        member_group(b"timestamps.txt", b"timestamps", 0o644, ArchiveTimestamp::unix_epoch(), &portable_metadata)
            .unwrap();
    let parsed = parse_tar_member_group(&group).unwrap();

    assert_eq!(
        parsed.records.get("LIBARCHIVE.creationtime").map(Vec::as_slice),
        Some(b"1600000000.123456789".as_slice())
    );
    assert_eq!(parsed.records.get("atime").map(Vec::as_slice), Some(b"1700000000.987654321".as_slice()));
}

#[test]
fn other_unix_source_with_creation_time_round_trips_with_consistent_native_metadata_flag() {
    let portable_metadata = PortableFileMetadata {
        source_os: "other-unix".to_string(),
        created: Some(time(1_700_000_000, 0)),
        ..PortableFileMetadata::default()
    };

    let group =
        member_group(b"photo.jpg", b"contents", 0o644, ArchiveTimestamp::unix_epoch(), &portable_metadata).unwrap();
    let parsed = parse_tar_member_group(&group).unwrap();

    assert_eq!(parsed.text("TZAP.metadata.source-os"), "other-unix");
    assert!(parsed.required_profiles().iter().any(|profile| *profile == "posix-backup-v1"));
    assert_ne!(parsed.file_entry_flags() & FLAGS.has_native_metadata, 0);
    assert_eq!(
        v45_portable_file_entry_flags(&TestCodec, 0o644, false, &portable_metadata) & FLAGS.has_native_metadata,
        parsed.file_entry_flags() & FLAGS.has_native_metadata,
        "the predicted flags must agree with what the written header implies"
    );
}

#[test]
fn directory_writer_emits_type_and_portable_ownership_metadata() {
    let portable_metadata = PortableFileMetadata {
        source_os: "other-unix".to_string(),
        source_filesystem: "unknown".to_string(),
        mode_origin: PortableModeOrigin::Native,
        posix_owner: Some(PortablePosixOwner {
            uid: 9_000_000,
            gid: 42,
            uname: Some("directory-owner".to_string()),
            gname: Some("archive".to_string()),
        }),
        attributes: None,
        created: None,
        accessed: None,
        native: NativeFileMetadata::default(),
    };
    let bytes = primary_prefix(
        b"empty-dir",
        SourceEntryKind::Directory,
        None,
        0o2750,
        time(1_700_000_000, 123_456_789),
        &portable_metadata,
    )
    .unwrap();
    let parsed = parse_tar_member_group(&bytes).unwrap();

    assert_eq!(parsed.kind, TarEntryKind::Directory);
    assert_eq!(parsed.logical_size, 0);
    assert_eq!(parsed.mode, 0o2750);
    assert_eq!(parsed.uid, Some(9_000_000));
    assert_eq!(parsed.gid, Some(42));
    assert_eq!(parsed.mtime, time(1_700_000_000, 123_456_789));
    assert_eq!(parsed.mirrored_mtime(), (1_700_000_000, 123_456_789));
}

#[test]
fn posix_special_writer_emits_fifo_and_device_primaries() {
    let mut portable = PortableFileMetadata {
        source_os: "linux".to_string(),
        mode_origin: PortableModeOrigin::Native,
        native: NativeFileMetadata {
            required_profiles: names(&["posix-backup-v1", "linux-backup-v1"]),
            ..NativeFileMetadata::default()
        },
        ..PortableFileMetadata::default()
    };
    let epoch = ArchiveTimestamp::unix_epoch();
    let fifo = primary_prefix(b"pipe", SourceEntryKind::Fifo, None, 0o640, epoch, &portable).unwrap();
    assert_eq!(parse_tar_member_group(&fifo).unwrap().kind, TarEntryKind::Fifo);

    assert_eq!(
        primary_prefix(b"null", SourceEntryKind::CharacterDevice, None, 0o666, epoch, &portable).unwrap_err(),
        FormatError::WriterInvariant("device member lacks device-number metadata")
    );
    put(&mut portable.native.primary_pax_records, "TZAP.posix.device-major", b"1");
    put(&mut portable.native.primary_pax_records, "TZAP.posix.device-minor", b"3");
    let device = primary_prefix(b"null", SourceEntryKind::CharacterDevice, None, 0o666, epoch, &portable).unwrap();
    assert_eq!(parse_tar_member_group(&device).unwrap().kind, TarEntryKind::CharacterDevice);
}

#[test]
fn symlink_writer_emits_target_and_fractional_mtime() {
    let mtime = time(1_700_000_321, 654_321_000);
    let bytes = primary_prefix(
        b"links/current",
        SourceEntryKind::Symlink,
        Some(b"../target.txt"),
        0o777,
        mtime,
        &PortableFileMetadata::default(),
    )
    .unwrap();
    let parsed = parse_tar_member_group(&bytes).unwrap();

    assert_eq!(parsed.kind, TarEntryKind::Symlink);
    assert_eq!(parsed.link_target.as_deref(), Some(b"../target.txt".as_slice()));
    assert_eq!(parsed.mtime, mtime);
    assert_eq!(parsed.mirrored_mtime(), (mtime.seconds, mtime.nanoseconds));
}

#[test]
fn hardlink_writer_emits_zero_data_alias_with_portable_mirror_only() {
    let portable = PortableFileMetadata {
        source_os: "other-unix".to_string(),
        source_filesystem: "ext4".to_string(),
        mode_origin: PortableModeOrigin::Native,
        posix_owner: Some(PortablePosixOwner {
            uid: 1000,
            gid: 100,
            uname: Some("owner".to_string()),
            gname: Some("group".to_string()),
        }),
        attributes: Some(1),
        created: None,
        accessed: None,
        native: NativeFileMetadata::default(),
    };
    let bytes = primary_prefix(
        b"aliases/beta",
        SourceEntryKind::Hardlink,
        Some(b"aliases/alpha"),
        0o640,
        time(1_700_000_000, 123_456_700),
        &portable,
    )
    .unwrap();
    let parsed = parse_tar_member_group(&bytes).unwrap();
    assert_eq!(parsed.kind, TarEntryKind::Hardlink);
    assert_eq!(parsed.logical_size, 0);
    assert_eq!(parsed.link_target.as_deref(), Some(b"aliases/alpha".as_slice()));
    assert_eq!(parsed.required_profiles(), ["portable-v1"]);
    assert!(parsed.auxiliary.is_empty());
    assert_eq!(parsed.mode, 0o640);
    assert_eq!(parsed.uid, Some(1000));
    assert_eq!(parsed.attributes(), Some(1));
}

#[test]
fn hardlink_writer_rejects_native_file_object_metadata() {
    let portable = PortableFileMetadata {
        native: with_primary_record("TZAP.unix.ctime-observed", "1"),
        ..PortableFileMetadata::default()
    };
    assert!(matches!(
        primary_prefix(
            b"beta",
            SourceEntryKind::Hardlink,
            Some(b"alpha"),
            0o644,
            ArchiveTimestamp::unix_epoch(),
            &portable,
        ),
        Err(FormatError::WriterInvariant("hardlink alias carries native file-object metadata"))
    ));
}

#[test]
fn regular_file_writer_rejects_reserved_portable_attribute_bits() {
    let portable_metadata = PortableFileMetadata { attributes: Some(1 << 4), ..PortableFileMetadata::default() };
    assert_eq!(
        member_group(b"attributes.txt", b"data", 0o644, ArchiveTimestamp::unix_epoch(), &portable_metadata)
            .unwrap_err(),
        FormatError::WriterUnsupported("portable attributes contain reserved bits")
    );
}

#[test]
fn regular_file_writer_emits_and_flags_valid_native_primary_metadata() {
    let mut native = NativeFileMetadata {
        required_profiles: names(&["posix-backup-v1"]),
        ..NativeFileMetadata::default()
    };
    put(
        &mut native.primary_pax_records,
        "LIBARCHIVE.xattr.user.comment",
        &TestCodec.canonical_base64_encode(b"preserved"),
    );
    let metadata = PortableFileMetadata {
        source_os: "linux".to_string(),
        source_filesystem: "ext4".to_string(),
        native,
        ..PortableFileMetadata::default()
    };
    let group = member_group(b"native.txt", b"data", 0o640, ArchiveTimestamp::unix_epoch(), &metadata).unwrap();
    let parsed = parse_tar_member_group(&group).unwrap();

    assert_eq!(parsed.required_profiles(), vec!["portable-v1", "posix-backup-v1"]);
    assert_eq!(
        parsed.records.get("LIBARCHIVE.xattr.user.comment").map(Vec::as_slice),
        Some(b"cHJlc2VydmVk".as_slice())
    );
    assert_ne!(parsed.file_entry_flags() & FLAGS.has_native_metadata, 0);
    assert_ne!(
        v45_portable_file_entry_flags(&TestCodec, 0o640, false, &metadata) & FLAGS.has_native_metadata,
        0
    );
}

#[test]
fn regular_file_writer_emits_valid_native_auxiliary_metadata() {
    let mut auxiliary =
        auxiliary_record("generic.xattr", "posix-backup-v1", RestoreClass::SameOs, b"large xattr value");
    auxiliary.name_encoding = NativeAuxiliaryNameEncoding::Bytes;
    auxiliary.name = b"user.large".to_vec();
    let native = NativeFileMetadata {
        required_profiles: names(&["posix-backup-v1"]),
        auxiliary_records: vec![auxiliary],
        ..NativeFileMetadata::default()
    };
    let metadata =
        PortableFileMetadata { source_os: "linux".to_string(), native, ..PortableFileMetadata::default() };

    let group =
        member_group(b"native-aux.txt", b"contents", 0o640, ArchiveTimestamp::from_seconds(12), &metadata).unwrap();
    let parsed = parse_tar_member_group(&group).unwrap();

    assert_eq!(parsed.auxiliary.len(), 1);
    assert_eq!(parsed.auxiliary[0].kind, "generic.xattr");
    assert_eq!(parsed.auxiliary[0].decoded_name, b"user.large");
    assert_eq!(parsed.auxiliary[0].payload, b"large xattr value");
    assert_ne!(parsed.file_entry_flags() & FLAGS.has_auxiliary_streams, 0);
    assert_ne!(
        v45_portable_file_entry_flags(&TestCodec, 0o640, false, &metadata) & FLAGS.has_auxiliary_streams,
        0
    );
}

#[test]
fn regular_file_writer_emits_capture_partial_flag_when_capture_report_present() {
    let mut auxiliary = auxiliary_record(
        "tzap.capture-report",
        "tzap-core-v1",
        RestoreClass::Never,
        b"tzap-capture-report-v1\nportable-v1\ttzap-core-v1\texcluded-policy\tdetail\n",
    );
    auxiliary.native = false;
    auxiliary.name_encoding = NativeAuxiliaryNameEncoding::Unnamed;
    auxiliary.name = vec![];
    let native = NativeFileMetadata { auxiliary_records: vec![auxiliary], ..NativeFileMetadata::default() };
    let metadata =
        PortableFileMetadata { source_os: "linux".to_string(), native, ..PortableFileMetadata::default() };

    let group =
        member_group(b"capture-report.txt", b"contents", 0o640, ArchiveTimestamp::from_seconds(12), &metadata)
            .unwrap();
    let parsed = parse_tar_member_group(&group).unwrap();

    assert_eq!(parsed.auxiliary.len(), 1);
    assert_eq!(parsed.auxiliary[0].kind, "tzap.capture-report");
    assert_eq!(parsed.auxiliary[0].records.get("TZAP.aux.native").map(Vec::as_slice), Some(b"0".as_slice()));
    assert_ne!(parsed.file_entry_flags() & FLAGS.capture_partial, 0);
    assert_ne!(v45_portable_file_entry_flags(&TestCodec, 0o640, false, &metadata) & FLAGS.capture_partial, 0);
}

#[test]
fn native_auxiliary_metadata_streamed_sparse_and_open_auxiliary() {
    let extents = vec![SparseExtent { offset: 0, length: 100 }, SparseExtent { offset: 200, length: 300 }];
    let aux = NativeAuxiliaryMetadata::new_streamed_sparse(
        "x.custom-streamed".to_string(),
        "portable-v1".to_string(),
        RestoreClass::Portable,
        500,
        extents,
        [0x55; 32],
        1 << 20,
    )
    .unwrap();

    assert!(aux.is_streamed());
    assert_eq!(aux.flags, 1);
    assert_eq!(aux.logical_size, 500);

    let source = DummySourceWithAux::new(aux);
    assert_eq!(source.portable_metadata().native.auxiliary_records[0], source.aux);
    // A streamed record needs a source that opens it.
    assert!(matches!(
        source.open_auxiliary(0).err(),
        Some(ArchiveWriteError::Format(FormatError::WriterUnsupported(
            "streamed auxiliary source did not implement open_auxiliary"
        )))
    ));
    assert!(matches!(
        source.open_auxiliary(99).err(),
        Some(ArchiveWriteError::Format(FormatError::WriterInvariant("auxiliary source ordinal is missing")))
    ));

    // An inline record opens by itself.
    let inline_source = DummySourceWithAux::new(auxiliary_record(
        "generic.xattr",
        "posix-backup-v1",
        RestoreClass::SameOs,
        b"test value",
    ));
    let mut reader = inline_source.open_auxiliary(0).unwrap();
    let mut buf = Vec::new();
    loop {
        let bytes = reader.read(4).unwrap();
        if bytes.is_empty() {
            break;
        }
        assert!(bytes.len() <= 4);
        buf.extend_from_slice(&bytes);
    }
    assert_eq!(buf, b"test value");
}

// ---------------------------------------------------------------------------------------------
// Archives
// ---------------------------------------------------------------------------------------------

#[test]
fn writer_production_writer_defaults_generate_distinct_v4_identities() {
    production_writer_defaults_generate_distinct_v4_identities();
}

#[test]
fn tests_production_writer_defaults_generate_distinct_v4_identities() {
    production_writer_defaults_generate_distinct_v4_identities();
}

fn production_writer_defaults_generate_distinct_v4_identities() {
    let master_key = MasterKey::from_raw_key(&[9u8; 32]).unwrap();
    let first = write_archive(&TestCodec, &[], &master_key, default_options(), &CAPS).unwrap();
    let second = write_archive(&TestCodec, &[], &master_key, default_options(), &CAPS).unwrap();

    assert_ne!(first.archive_uuid, [0u8; 16]);
    assert_ne!(first.session_id, [0u8; 16]);
    assert_ne!(second.archive_uuid, [0u8; 16]);
    assert_ne!(second.session_id, [0u8; 16]);
    assert_ne!(first.archive_uuid, first.session_id);
    assert_ne!(first.archive_uuid, second.archive_uuid);
    assert_ne!(first.session_id, second.session_id);

    for raw in [first.archive_uuid, first.session_id, second.archive_uuid, second.session_id] {
        let id = uuid::Uuid::from_bytes(raw);
        assert_eq!(id.get_version_num(), 4);
    }

    let deterministic = WriterOptions {
        archive_uuid: Some([0x44; 16]),
        session_id: Some([0x55; 16]),
        ..default_options()
    };
    let fixture = write_archive(&TestCodec, &[], &master_key, deterministic, &CAPS).unwrap();
    assert_eq!(fixture.archive_uuid, [0x44; 16]);
    assert_eq!(fixture.session_id, [0x55; 16]);
}

#[test]
fn emission_state_collects_data_leaf_hashes_only_for_root_auth() {
    let options = single_volume_metadata_test_options();
    let archive_uuid = [1u8; 16];
    let session_id = [2u8; 16];
    let crypto_header = b"test crypto header";

    let mut unsigned_sink = MemoryArchiveSink::default();
    let unsigned = begin_writer_emission_state(
        &TestCodec,
        &mut unsigned_sink,
        options,
        crypto_header,
        None,
        archive_uuid,
        session_id,
        VOLUME_FORMAT_REV_45,
        false,
    )
    .unwrap();
    assert!(unsigned.data_leaf_hashes.is_none());

    let mut signed_sink = MemoryArchiveSink::default();
    let signed = begin_writer_emission_state(
        &TestCodec,
        &mut signed_sink,
        options,
        crypto_header,
        None,
        archive_uuid,
        session_id,
        VOLUME_FORMAT_REV_45,
        true,
    )
    .unwrap();
    assert_eq!(signed.data_leaf_hashes.map(|leaves| leaves.len()), Some(0));
    assert_eq!(unsigned_sink.volumes, signed_sink.volumes);
}

/// A serialized block, taken apart.
fn parse_block(bytes: &[u8], block_size: usize) -> BlockRecord {
    assert_eq!(bytes.len(), block_size + LAYOUT.block_record_framing as usize);
    let mut f = Fields::new(bytes);
    let block_index = f.num(8).unwrap();
    let kind = kind_of(f.num(1).unwrap()).unwrap();
    let flags = f.num(1).unwrap() as u8;
    let payload = f.raw(block_size).unwrap().to_vec();
    BlockRecord { block_index, kind, flags, payload }
}

#[test]
fn ordered_envelope_serializes_zero_parity_without_root_auth_leaf_collection() {
    let options = plan_writer_options(
        WriterOptions {
            stripe_width: 1,
            volume_loss_tolerance: 0,
            bit_rot_buffer_pct: 0,
            aead_algo: AeadAlgo::Unsealed,
            ..default_options()
        },
        &CAPS,
    )
    .unwrap();
    let payload = deterministic_bytes(options.block_size as usize * 2 + 17);
    let extent = ObjectExtent::new(
        11,
        plan_encrypted_object(payload.len(), options.fec_data_shards, options.fec_parity_shards, options).unwrap(),
    )
    .unwrap();
    assert_eq!(extent.parity_block_count, 0);
    assert_eq!(extent.data_block_count, 3);
    let seal = ArchiveSeal {
        subkeys: Subkeys::unencrypted_placeholder(),
        archive_uuid: [1u8; 16],
        session_id: [2u8; 16],
    };

    let result = build_ordered_envelope_result(
        &TestCodec,
        &OrderedEnvelopeJob {
            envelope_index: 3,
            plaintext: payload.clone(),
            extent,
            collect_data_leaf_hashes: false,
        },
        &seal,
        options,
    )
    .unwrap();

    match result.records {
        OrderedEnvelopeRecords::Serialized(records) => {
            assert_eq!(records.len(), extent.data_block_count as usize);
            let parsed = parse_block(&records[0].bytes, options.block_size as usize);
            assert_eq!(parsed.block_index, extent.first_block_index);
            assert_eq!(parsed.kind, BlockKind::PayloadData);
            assert_eq!(parsed.flags, 0);
            let last = parse_block(&records[2].bytes, options.block_size as usize);
            assert_eq!(last.block_index, extent.first_block_index + 2);
            assert_eq!(last.kind, BlockKind::PayloadData);
            assert_eq!(last.flags, 1);
        }
        OrderedEnvelopeRecords::Materialized(_) => {
            panic!("zero-parity unsigned envelope should use serialized records")
        }
    }

    let result = build_ordered_envelope_result(
        &TestCodec,
        &OrderedEnvelopeJob { envelope_index: 3, plaintext: payload, extent, collect_data_leaf_hashes: true },
        &seal,
        options,
    )
    .unwrap();

    match result.records {
        OrderedEnvelopeRecords::Materialized(records) => {
            assert_eq!(records.len(), extent.data_block_count as usize);
        }
        OrderedEnvelopeRecords::Serialized(_) => {
            panic!("root-auth leaf collection requires materialized records")
        }
    }
}

#[test]
fn ordered_envelope_serializes_encrypted_zero_parity_like_materialized_path() {
    let options = plan_writer_options(
        WriterOptions {
            stripe_width: 1,
            volume_loss_tolerance: 0,
            bit_rot_buffer_pct: 0,
            aead_algo: AeadAlgo::AesGcmSiv256,
            ..default_options()
        },
        &CAPS,
    )
    .unwrap();
    let payload = deterministic_bytes(options.block_size as usize * 2 + 17);
    let extent = ObjectExtent::new(
        29,
        plan_encrypted_object(payload.len(), options.fec_data_shards, options.fec_parity_shards, options).unwrap(),
    )
    .unwrap();
    assert_eq!(extent.parity_block_count, 0);
    assert_eq!(extent.data_block_count, 3);
    let archive_uuid = [3u8; 16];
    let session_id = [4u8; 16];
    let master_key = MasterKey::from_raw_key(&[0x5a; 32]).unwrap();
    let subkeys = TestCodec.derive_subkeys(&master_key, &archive_uuid, &session_id).unwrap();
    let seal = ArchiveSeal { subkeys, archive_uuid, session_id };
    let mut job = OrderedEnvelopeJob {
        envelope_index: 7,
        plaintext: payload,
        extent,
        collect_data_leaf_hashes: false,
    };

    let serialized = build_ordered_envelope_result(&TestCodec, &job, &seal, options).unwrap();
    let serialized_bytes = match serialized.records {
        OrderedEnvelopeRecords::Serialized(records) => {
            records.into_iter().map(|record| record.bytes).collect::<Vec<_>>()
        }
        OrderedEnvelopeRecords::Materialized(_) => {
            panic!("zero-parity encrypted envelope should use serialized records")
        }
    };

    job.collect_data_leaf_hashes = true;
    let materialized = build_ordered_envelope_result(&TestCodec, &job, &seal, options).unwrap();
    let materialized_bytes = match materialized.records {
        OrderedEnvelopeRecords::Materialized(records) => records
            .iter()
            .map(|b| TestCodec.encode_block(b.block_index, b.kind, b.flags, &b.payload))
            .collect::<Vec<_>>(),
        OrderedEnvelopeRecords::Serialized(_) => {
            panic!("root-auth leaf collection requires materialized records")
        }
    };

    assert_eq!(serialized_bytes, materialized_bytes);
}

fn write_to_memory<S: RegularFileSource>(
    files: &[S],
    key: &MasterKey,
    options: WriterOptions,
) -> Result<MemoryArchiveSink, ArchiveWriteError> {
    let mut sink = MemoryArchiveSink::default();
    write_archive_sources_to_sink(
        &TestCodec,
        files,
        key,
        options,
        None,
        &KdfParams::Raw,
        None,
        NO_SIGNER,
        &CAPS,
        &mut sink,
    )?;
    Ok(sink)
}

#[test]
fn streamed_auxiliary_sources_work_across_writer_modes_and_verify_digest() {
    let payload = deterministic_bytes(1024 * 1024 + 17);
    let digest: [u8; 32] = Sha256::digest(&payload).into();
    let mut auxiliary = NativeAuxiliaryMetadata::new_streamed(
        "generic.xattr".to_string(),
        "posix-backup-v1".to_string(),
        RestoreClass::SameOs,
        payload.len() as u64,
        digest,
    );
    auxiliary.name_encoding = NativeAuxiliaryNameEncoding::Bytes;
    auxiliary.name = b"user.large".to_vec();
    let mut source = StreamedSource {
        metadata: PortableFileMetadata {
            source_os: "linux".to_string(),
            native: NativeFileMetadata {
                required_profiles: names(&["posix-backup-v1"]),
                auxiliary_records: vec![auxiliary],
                ..NativeFileMetadata::default()
            },
            ..PortableFileMetadata::default()
        },
        payload,
    };
    let key = MasterKey::from_raw_key(&[17u8; 32]).unwrap();
    let options = WriterOptions { bit_rot_buffer_pct: 0, ..one_volume() };
    let files = std::slice::from_ref(&source);

    let two_pass = write_to_memory(files, &key, options).unwrap();
    let opened = open_archive(&two_pass.volumes[0], &key).unwrap();
    opened.verify_content().unwrap();
    let member = opened.member("streamed-aux.txt").unwrap().unwrap();
    assert_eq!(member.auxiliary[0].payload, source.payload);

    let mut single_pass = MemoryArchiveSink::default();
    write_archive_sources_to_sink_single_pass(
        &TestCodec,
        files,
        &key,
        options,
        &KdfParams::Raw,
        None,
        NO_SIGNER,
        &CAPS,
        &mut single_pass,
    )
    .unwrap();
    open_archive(&single_pass.volumes[0], &key).unwrap().verify_content().unwrap();

    let mut ordered = MemoryArchiveSink::default();
    write_archive_sources_to_sink_ordered_parallel(
        &TestCodec,
        files,
        &key,
        options,
        &KdfParams::Raw,
        None,
        NO_SIGNER,
        &CAPS,
        &mut ordered,
    )
    .unwrap();
    open_archive(&ordered.volumes[0], &key).unwrap().verify_content().unwrap();

    let mut progress_sink = MemoryArchiveSink::default();
    let mut progress = RecordingWriteProgress::default();
    write_archive_sources_to_sink_single_pass_with_progress(
        &TestCodec,
        files,
        &key,
        options,
        &KdfParams::Raw,
        None,
        NO_SIGNER,
        &CAPS,
        &mut progress_sink,
        &mut progress,
    )
    .unwrap();
    assert_eq!(progress.bytes_for(ArchiveWritePhase::EmittingPayload), 8 + source.payload.len() as u64);

    source.metadata.native.auxiliary_records[0].streamed_payload.as_mut().unwrap().sha256[0] ^= 1;
    assert!(write_to_memory(std::slice::from_ref(&source), &key, options).is_err());
}

#[test]
fn writer_writer_splits_large_payload_across_seekable_envelopes() {
    writer_splits_large_payload_across_seekable_envelopes();
}

#[test]
fn tests_writer_splits_large_payload_across_seekable_envelopes() {
    writer_splits_large_payload_across_seekable_envelopes();
}

fn writer_splits_large_payload_across_seekable_envelopes() {
    let master_key = MasterKey::from_raw_key(&[8u8; 32]).unwrap();
    let data = deterministic_bytes(2 * 1024 * 1024);
    let archive = write_archive(
        &TestCodec,
        &[RegularFile::new("large.bin", &data)],
        &master_key,
        WriterOptions { bit_rot_buffer_pct: 0, ..one_volume() },
        &CAPS,
    )
    .unwrap();
    let opened = open_archive(&archive.bytes, &master_key).unwrap();

    assert_eq!(opened.list_files().unwrap()[0].path, "large.bin");
    assert_eq!(opened.extract_file("large.bin").unwrap(), Some(data));
    opened.verify().unwrap();
    assert!(opened.index_root.header.envelope_count > 1);
}

#[test]
fn writer_split_member_frames_carry_exact_boundary_flags() {
    split_member_frames_carry_exact_boundary_flags();
}

#[test]
fn tests_split_member_frames_carry_exact_boundary_flags() {
    split_member_frames_carry_exact_boundary_flags();
}

fn split_member_frames_carry_exact_boundary_flags() {
    let data = deterministic_bytes(12 * 1024);
    let files = [RegularFile::new("large.bin", &data)];
    let options = WriterOptions {
        chunk_size: 1024,
        envelope_target_size: 64 * 1024,
        stripe_width: 1,
        volume_loss_tolerance: 0,
        bit_rot_buffer_pct: 0,
        ..default_options()
    };
    let (payload, _) = plan_payload_stream(
        &TestCodec,
        &files,
        options,
        None,
        &mut Unobserved::new(),
        &mut SourceProgressState::new(),
    )
    .unwrap();
    let frames = payload.frames;

    assert!(frames.len() > 2);
    assert_eq!(frames.first().unwrap().flags, 0x0000_0001);
    assert_eq!(frames.last().unwrap().flags, 0x0000_0002);
    assert!(frames[1..frames.len() - 1].iter().all(|frame| frame.flags == 0));
}

#[test]
fn spanning_payload_derives_exact_multi_frame_multi_envelope_stats() {
    let data = deterministic_bytes(13 * 1024);
    let files = [RegularFile::new("spanning.bin", &data)];
    let options = plan_writer_options(
        WriterOptions {
            block_size: MIN_BLOCK_SIZE,
            chunk_size: 1024,
            envelope_target_size: 2500,
            stripe_width: 1,
            volume_loss_tolerance: 0,
            bit_rot_buffer_pct: 0,
            fec_parity_shards: 0,
            index_fec_parity_shards: 0,
            index_root_fec_parity_shards: 0,
            ..default_options()
        },
        &CAPS,
    )
    .unwrap();

    let (payload, next_block_index) = plan_payload_stream(
        &TestCodec,
        &files,
        options,
        None,
        &mut Unobserved::new(),
        &mut SourceProgressState::new(),
    )
    .unwrap();
    let expected_tar_total_size =
        3 * TAR_BLOCK_LEN as u64 + data.len() as u64 + padding_to_512(data.len()) as u64;
    let (tar_stream, _) = build_tar_stream(&files, options.max_path_length).unwrap();
    let content_sha256: [u8; 32] = Sha256::digest(&tar_stream).into();

    assert_eq!(payload.tar_members.len(), 1);
    assert_eq!(payload.tar_members[0].tar_member_group_start, 0);
    assert_eq!(payload.tar_members[0].tar_member_group_size, expected_tar_total_size);
    assert_eq!(payload.tar_total_size, expected_tar_total_size);
    assert_eq!(payload.content_sha256, content_sha256);
    assert_eq!(payload.frames.len(), 15);
    assert_eq!(payload.payload_objects.len(), 7);
    assert_eq!(payload.payload_block_count, 7);
    assert_eq!(next_block_index, 7);

    for (idx, frame) in payload.frames.iter().enumerate() {
        let expected_decompressed_size = if idx == 14 { 512 } else { 1024 };
        let expected_flags = match idx {
            0 => 0x0000_0001,
            14 => 0x0000_0002,
            _ => 0,
        };
        let expected_offset = payload.frames[..idx]
            .iter()
            .filter(|prior| prior.envelope_index == frame.envelope_index)
            .map(|prior| prior.compressed_size)
            .sum::<u32>();

        assert_eq!(frame.frame_index, idx as u64);
        assert_eq!(frame.member_index, 0);
        assert!((frame.envelope_index as usize) < payload.payload_objects.len());
        assert_eq!(frame.offset_in_envelope, expected_offset);
        assert_eq!(frame.decompressed_size, expected_decompressed_size);
        assert_eq!(frame.flags, expected_flags);
        assert_eq!(frame.tar_stream_offset, idx as u64 * 1024);
    }

    for (idx, object) in payload.payload_objects.iter().enumerate() {
        let expected_plaintext_size = payload
            .frames
            .iter()
            .filter(|frame| frame.envelope_index == idx as u64)
            .map(|frame| frame.compressed_size)
            .sum::<u32>();

        assert_eq!(object.envelope_index, idx as u64);
        assert_eq!(object.plaintext_size, expected_plaintext_size);
        assert_eq!(object.object.first_block_index, idx as u64);
        assert_eq!(object.object.data_block_count, 1);
        assert_eq!(object.object.parity_block_count, 0);
        assert_eq!(object.object.encrypted_size, options.block_size);
    }

    let shard_rows = partition_file_rows(&sorted_file_rows(&TestCodec, &payload.tar_members)).unwrap();
    let planned_shards = build_index_shard_plaintexts(
        &TestCodec,
        &payload.tar_members,
        &shard_rows,
        &payload.frames,
        &payload.payload_objects,
        options,
    )
    .unwrap();
    assert_eq!(planned_shards.len(), 1);
    let shard = parse_index_shard(&planned_shards[0].plaintext).unwrap();
    assert_eq!(planned_shards[0].file_count, 1);
    assert_eq!(shard.files.len(), 1);
    assert_eq!(shard.frames.len(), 15);
    assert_eq!(shard.envelopes.len(), 7);
    assert_eq!(shard.files[0].first_frame_index, 0);
    assert_eq!(shard.files[0].frame_count, 15);
    assert_eq!(shard.files[0].tar_member_group_size, expected_tar_total_size);
    assert_eq!(shard.files[0].file_data_size, data.len() as u64);

    for (idx, frame) in shard.frames.iter().enumerate() {
        assert_eq!(frame.frame_index, idx as u64);
        assert_eq!(frame.envelope_index, payload.frames[idx].envelope_index);
        assert_eq!(frame.offset_in_envelope, payload.frames[idx].offset_in_envelope);
        assert_eq!(frame.compressed_size, payload.frames[idx].compressed_size);
        assert_eq!(frame.decompressed_size, payload.frames[idx].decompressed_size);
        assert_eq!(frame.flags, payload.frames[idx].flags);
        assert_eq!(frame.tar_stream_offset, payload.frames[idx].tar_stream_offset);
    }

    for (idx, envelope) in shard.envelopes.iter().enumerate() {
        assert_eq!(envelope.envelope_index, idx as u64);
        assert_eq!(envelope.first_block_index, idx as u64);
        assert_eq!(envelope.data_block_count, 1);
        assert_eq!(envelope.parity_block_count, 0);
        assert_eq!(envelope.encrypted_size, options.block_size);
        assert_eq!(envelope.plaintext_size, payload.payload_objects[idx].plaintext_size);
        let envelope_frames: Vec<_> =
            payload.frames.iter().filter(|frame| frame.envelope_index == idx as u64).collect();
        assert_eq!(envelope.first_frame_index, envelope_frames.first().unwrap().frame_index);
        assert_eq!(envelope.frame_count, envelope_frames.len() as u32);
    }

    let master_key = MasterKey::from_raw_key(&[6u8; 32]).unwrap();
    let plan = build_writer_plan_from_payload(
        &TestCodec,
        payload,
        next_block_index,
        options,
        None,
        &KdfParams::Raw,
        None,
        &PlanRequest {
            archive_uuid: [0x44; 16],
            session_id: [0x55; 16],
            volume_format_rev: VOLUME_FORMAT_REV_45,
            master_key,
            root_auth: None,
            caps: CAPS,
        },
    )
    .unwrap();
    let index_root = parse_index_root(&plan.index_root_plaintext).unwrap();

    assert_eq!(index_root.header.frame_count, 15);
    assert_eq!(index_root.header.envelope_count, 7);
    assert_eq!(index_root.header.file_count, 1);
    assert_eq!(index_root.header.payload_block_count, 7);
    assert_eq!(index_root.header.tar_total_size, expected_tar_total_size);
    assert_eq!(index_root.header.content_sha256, content_sha256);
}

#[test]
fn writer_writes_empty_archive_with_authentic_bootstrap_structures() {
    writes_empty_archive_with_authentic_bootstrap_structures();
}

#[test]
fn tests_writes_empty_archive_with_authentic_bootstrap_structures() {
    writes_empty_archive_with_authentic_bootstrap_structures();
}

fn writes_empty_archive_with_authentic_bootstrap_structures() {
    let master_key = MasterKey::from_raw_key(&[7u8; 32]).unwrap();
    let archive = write_empty_archive(&TestCodec, &master_key, 2, &CAPS).unwrap();

    // Opening checks the tags of the crypto header, the trailer and the manifest of every volume,
    // and that each trailer lies where it says that it was written.
    let opened = open_volumes(&archive.volumes, Some(&master_key)).unwrap();
    assert_eq!(opened.archive_uuid, archive.archive_uuid);
    assert_eq!(opened.session_id, archive.session_id);
    assert_eq!(opened.total_volumes, DEFAULT_STRIPE_WIDTH);
    assert_eq!(opened.index_root.header.file_count, 0);
    assert_eq!(archive.bytes, archive.volumes[0]);
    opened.verify().unwrap();
}

#[test]
fn writer_written_archive_authenticates_final_index_root_fec_class() {
    written_archive_authenticates_final_index_root_fec_class();
}

#[test]
fn tests_written_archive_authenticates_final_index_root_fec_class() {
    written_archive_authenticates_final_index_root_fec_class();
}

fn written_archive_authenticates_final_index_root_fec_class() {
    let master_key = MasterKey::from_raw_key(&[9u8; 32]).unwrap();
    let dictionary = deterministic_bytes(80 * 1024);
    let file = RegularFile::new("uses-dictionary.txt", b"payload");
    let archive = write_archive_with_dictionary(
        &TestCodec,
        &[file],
        &master_key,
        WriterOptions {
            block_size: MIN_BLOCK_SIZE,
            stripe_width: 1,
            volume_loss_tolerance: 0,
            bit_rot_buffer_pct: 0,
            index_root_fec_parity_shards: 0,
            ..default_options()
        },
        &dictionary,
        &CAPS,
    )
    .unwrap();

    let opened = open_archive(&archive.bytes, &master_key).unwrap();
    assert!(opened.index_root_fec_data_shards > MIN_INDEX_ROOT_FEC_DATA_SHARDS);
    assert_eq!(opened.index_root_fec_parity_shards, 0);
    assert_eq!(opened.dictionary().unwrap(), Some(dictionary));
    assert_eq!(opened.extract_file("uses-dictionary.txt").unwrap(), Some(b"payload".to_vec()));
    opened.verify().unwrap();
}

#[test]
fn writer_root_auth_writer_config_rejects_reader_cap_excess_before_authenticator() {
    root_auth_writer_config_rejects_reader_cap_excess_before_authenticator();
}

#[test]
fn tests_root_auth_writer_config_rejects_reader_cap_excess_before_authenticator() {
    root_auth_writer_config_rejects_reader_cap_excess_before_authenticator();
}

fn root_auth_writer_config_rejects_reader_cap_excess_before_authenticator() {
    let master_key = MasterKey::from_raw_key(&[7u8; 32]).unwrap();
    let mut authenticator_called = false;
    let err = write_archive_with_root_auth(
        &TestCodec,
        &[RegularFile::new("signed.txt", b"payload")],
        &master_key,
        single_volume_metadata_test_options(),
        RootAuthWriterConfig {
            authenticator_id: 1,
            signer_identity_type: 1,
            signer_identity: b"signer",
            authenticator_value_length: READER_MAX_ROOT_AUTH_AUTHENTICATOR_VALUE_LEN + 1,
        },
        |_: &RootAuthSigningRequest| {
            authenticator_called = true;
            Ok(Vec::new())
        },
        &CAPS,
    )
    .unwrap_err();

    assert!(!authenticator_called);
    assert_eq!(
        err,
        FormatError::ReaderResourceLimitExceeded {
            field: "RootAuthFooterV1 authenticator value length",
            cap: READER_MAX_ROOT_AUTH_AUTHENTICATOR_VALUE_LEN as u64,
            actual: READER_MAX_ROOT_AUTH_AUTHENTICATOR_VALUE_LEN as u64 + 1,
        }
    );
}

#[test]
fn writer_root_auth_writer_accepts_128_kib_authenticator_value() {
    root_auth_writer_accepts_128_kib_authenticator_value();
}

#[test]
fn tests_root_auth_writer_accepts_128_kib_authenticator_value() {
    root_auth_writer_accepts_128_kib_authenticator_value();
}

fn root_auth_writer_accepts_128_kib_authenticator_value() {
    let master_key = MasterKey::from_raw_key(&[8u8; 32]).unwrap();
    let authenticator_value = vec![0x5a; READER_MAX_ROOT_AUTH_AUTHENTICATOR_VALUE_LEN as usize];
    let expected_value = authenticator_value.clone();
    let archive = write_archive_with_root_auth(
        &TestCodec,
        &[RegularFile::new("signed.txt", b"payload")],
        &master_key,
        single_volume_metadata_test_options(),
        RootAuthWriterConfig {
            authenticator_id: 0xcafe,
            signer_identity_type: 1,
            signer_identity: b"certificate-profile-signer",
            authenticator_value_length: READER_MAX_ROOT_AUTH_AUTHENTICATOR_VALUE_LEN,
        },
        |_: &RootAuthSigningRequest| Ok(authenticator_value.clone()),
        &CAPS,
    )
    .unwrap();

    let opened = open_archive(&archive.bytes, &master_key).unwrap();
    let footer = opened.root_auth_footer.as_ref().unwrap();
    assert_eq!(footer.authenticator_id, 0xcafe);
    assert_eq!(footer.authenticator_value.as_slice(), expected_value.as_slice());

    let verification = opened
        .verify_root_auth_with(|footer, _| {
            Ok(footer.authenticator_id == 0xcafe && footer.authenticator_value.as_slice() == expected_value.as_slice())
        })
        .unwrap();
    assert_eq!(verification.authenticator_id, 0xcafe);
}

#[test]
fn writer_streaming_writer_sink_round_trips_archive() {
    streaming_writer_sink_round_trips_archive();
}

#[test]
fn tests_streaming_writer_sink_round_trips_archive() {
    streaming_writer_sink_round_trips_archive();
}

fn streaming_writer_sink_round_trips_archive() {
    let files = [RegularFile::new("alpha.txt", b"alpha"), RegularFile::new("nested/beta.txt", b"beta payload")];
    let master_key = MasterKey::from_raw_key(&[7u8; 32]).unwrap();
    let mut sink = MemoryArchiveSink::default();

    let summary = write_archive_sources_to_sink(
        &TestCodec,
        &files,
        &master_key,
        single_volume_metadata_test_options(),
        None,
        &KdfParams::Raw,
        None,
        NO_SIGNER,
        &CAPS,
        &mut sink,
    )
    .unwrap();

    assert_eq!(summary.volume_count, 1);
    let opened = open_archive(&sink.volumes[0], &master_key).unwrap();
    assert_eq!(opened.extract_file("nested/beta.txt").unwrap(), Some(b"beta payload".to_vec()));
}

#[test]
fn ordered_sink_writer_round_trips_recipientwrap_records() {
    let files = [RegularFile::new("wrapped.txt", b"recipient sink payload")];
    let master_key = MasterKey::from_raw_key(&[9u8; 32]).unwrap();
    let mut sink = MemoryArchiveSink::default();

    let summary = write_archive_sources_to_sink_ordered_parallel_with_recipient_wrap_records(
        &TestCodec,
        &files,
        &master_key,
        single_volume_metadata_test_options(),
        vec![recipient_wrap_test_record()],
        None,
        NO_SIGNER,
        &CAPS,
        &mut sink,
    )
    .unwrap();

    assert_eq!(summary.volume_count, 1);
    let opened = open_archive(&sink.volumes[0], &master_key).unwrap();
    assert_eq!(opened.extract_file("wrapped.txt").unwrap(), Some(b"recipient sink payload".to_vec()));
    assert!(opened.key_wrap_table.ends_with(b"recipient-aprofile-payload"));
}

#[test]
fn ordered_sink_writer_indexes_v45_metadata_flags_from_member_semantics() {
    let mut sparse_payload = vec![0u8; TAR_BLOCK_LEN];
    sparse_payload[..2].copy_from_slice(b"0\n");
    let mut sparse_fork =
        auxiliary_record("macos.resource-fork", "macos-backup-v1", RestoreClass::SameOs, &sparse_payload);
    sparse_fork.flags = 1;
    sparse_fork.logical_size = 4096;

    let sparse_metadata = PortableFileMetadata {
        source_os: "macos".to_string(),
        native: NativeFileMetadata {
            required_profiles: names(&["macos-backup-v1", "posix-backup-v1"]),
            auxiliary_records: vec![sparse_fork],
            ..NativeFileMetadata::default()
        },
        ..PortableFileMetadata::default()
    };
    let portable_only_metadata = PortableFileMetadata {
        native: NativeFileMetadata { required_profiles: names(&["portable-v1"]), ..NativeFileMetadata::default() },
        ..PortableFileMetadata::default()
    };
    let files = [
        RegularFile {
            path: "sparse-fork.bin",
            contents: b"primary",
            mode: 0o644,
            mtime: ArchiveTimestamp::unix_epoch(),
            portable_metadata: sparse_metadata,
        },
        RegularFile {
            path: "portable-only.bin",
            contents: b"portable",
            mode: 0o644,
            mtime: ArchiveTimestamp::unix_epoch(),
            portable_metadata: portable_only_metadata,
        },
    ];
    let master_key = MasterKey::from_raw_key(&[0x45; 32]).unwrap();
    let mut sink = MemoryArchiveSink::default();

    write_archive_sources_to_sink_ordered_parallel(
        &TestCodec,
        &files,
        &master_key,
        single_volume_metadata_test_options(),
        &KdfParams::Raw,
        None,
        NO_SIGNER,
        &CAPS,
        &mut sink,
    )
    .unwrap();

    let opened = open_archive(&sink.volumes[0], &master_key).unwrap();
    opened.verify().unwrap();
    let entries = opened.list_index_entries().unwrap();
    let sparse = entries.iter().find(|entry| entry.path == "sparse-fork.bin").unwrap();
    assert_ne!(sparse.flags & FLAGS.has_sparse_extents, 0);
    let portable_only = entries.iter().find(|entry| entry.path == "portable-only.bin").unwrap();
    assert_eq!(portable_only.flags & FLAGS.has_native_metadata, 0);
}

#[test]
fn single_pass_sink_writer_round_trips_recipientwrap_records() {
    let files = [RegularFile::new("wrapped.txt", b"recipient single-pass sink payload")];
    let master_key = MasterKey::from_raw_key(&[9u8; 32]).unwrap();
    let mut sink = MemoryArchiveSink::default();

    let summary = write_archive_sources_to_sink_single_pass_with_recipient_wrap_records(
        &TestCodec,
        &files,
        &master_key,
        single_volume_metadata_test_options(),
        vec![recipient_wrap_test_record()],
        None,
        NO_SIGNER,
        &CAPS,
        &mut sink,
    )
    .unwrap();

    assert_eq!(summary.volume_count, 1);
    let opened = open_archive(&sink.volumes[0], &master_key).unwrap();
    assert_eq!(opened.extract_file("wrapped.txt").unwrap(), Some(b"recipient single-pass sink payload".to_vec()));
    opened.verify().unwrap();
}

#[test]
fn single_pass_sink_writer_round_trips_recipientwrap_root_auth() {
    let files = [RegularFile::new("wrapped.txt", b"recipient single-pass signed payload")];
    let master_key = MasterKey::from_raw_key(&[9u8; 32]).unwrap();
    let mut sink = MemoryArchiveSink::default();

    let summary = write_archive_sources_to_sink_single_pass_with_recipient_wrap_records(
        &TestCodec,
        &files,
        &master_key,
        single_volume_metadata_test_options(),
        vec![recipient_wrap_test_record()],
        Some(RootAuthWriterConfig {
            authenticator_id: 0x44,
            signer_identity_type: 1,
            signer_identity: b"recipient-wrap-single-pass",
            authenticator_value_length: 32,
        }),
        Some(|request: &RootAuthSigningRequest| Ok(request.archive_root.to_vec())),
        &CAPS,
        &mut sink,
    )
    .unwrap();

    assert_eq!(summary.volume_count, 1);
    let opened = open_archive(&sink.volumes[0], &master_key).unwrap();
    let verification = opened
        .verify_root_auth_with(|footer, archive_root| {
            Ok(footer.authenticator_id == 0x44 && footer.authenticator_value.as_slice() == archive_root)
        })
        .unwrap();
    assert_eq!(verification.volume_format_rev, VOLUME_FORMAT_REV_45);
}

fn recipient_wrap_without_records() -> KdfParams {
    KdfParams::RecipientWrap {
        key_wrap_table_length: 0,
        key_wrap_table_record_count: 1,
        key_wrap_table_version: 1,
        key_wrap_table_digest: [0u8; 32],
    }
}

#[test]
fn single_pass_writer_rejects_recipientwrap_kdf_without_records_before_writing() {
    let files = [RegularFile::new("wrapped.txt", b"recipient sink payload")];
    let master_key = MasterKey::from_raw_key(&[9u8; 32]).unwrap();
    let mut sink = MemoryArchiveSink::default();

    let err = write_archive_sources_to_sink_single_pass(
        &TestCodec,
        &files,
        &master_key,
        single_volume_metadata_test_options(),
        &recipient_wrap_without_records(),
        None,
        NO_SIGNER,
        &CAPS,
        &mut sink,
    )
    .unwrap_err();

    match err {
        ArchiveWriteError::Format(FormatError::WriterUnsupported(message)) => {
            assert_eq!(message, "RecipientWrap requires key-wrap records");
        }
        other => panic!("unexpected error: {other:?}"),
    }
    assert!(sink.volumes.is_empty());
}

#[test]
fn ordered_sink_writer_rejects_recipientwrap_kdf_without_records_before_writing() {
    let files = [RegularFile::new("wrapped.txt", b"recipient sink payload")];
    let master_key = MasterKey::from_raw_key(&[9u8; 32]).unwrap();
    let mut sink = MemoryArchiveSink::default();

    let err = write_archive_sources_to_sink_ordered_parallel(
        &TestCodec,
        &files,
        &master_key,
        single_volume_metadata_test_options(),
        &recipient_wrap_without_records(),
        None,
        NO_SIGNER,
        &CAPS,
        &mut sink,
    )
    .unwrap_err();

    match err {
        ArchiveWriteError::Format(FormatError::WriterUnsupported(message)) => {
            assert_eq!(message, "RecipientWrap requires key-wrap records");
        }
        other => panic!("unexpected error: {other:?}"),
    }
    assert!(sink.volumes.is_empty());
}

#[test]
fn writer_streaming_writer_bounds_source_reads_and_sink_writes_for_large_file() {
    streaming_writer_bounds_source_reads_and_sink_writes_for_large_file();
}

#[test]
fn tests_streaming_writer_bounds_source_reads_and_sink_writes_for_large_file() {
    streaming_writer_bounds_source_reads_and_sink_writes_for_large_file();
}

fn streaming_writer_bounds_source_reads_and_sink_writes_for_large_file() {
    let file_size = 3 * 1024 * 1024;
    let stats = Rc::new(RefCell::new(GeneratedSourceStats::default()));
    let file = GeneratedFileSource { path: "large/generated.bin", len: file_size, stats: Rc::clone(&stats) };
    let master_key = MasterKey::from_raw_key(&[3u8; 32]).unwrap();
    let options = plan_writer_options(progress_test_writer_options(), &CAPS).unwrap();
    let mut sink = TrackingArchiveSink::default();

    let summary = write_archive_sources_to_sink_single_pass(
        &TestCodec,
        &[file],
        &master_key,
        options,
        &KdfParams::Raw,
        None,
        NO_SIGNER,
        &CAPS,
        &mut sink,
    )
    .unwrap();

    let stats = stats.borrow();
    assert_eq!(stats.open_count, 1);
    assert_eq!(stats.total_read, file_size as u64);
    assert!(stats.max_read_request <= options.chunk_size as usize);
    assert_eq!(summary.volume_count, 1);
    assert_eq!(summary.archive_bytes, sink.volume_bytes.iter().sum::<u64>());
    assert_eq!(summary.bootstrap_sidecar_bytes, sink.bootstrap_sidecar_bytes);
    assert!(sink.max_write_len <= 128 * 1024);
}

#[test]
fn every_writer_asks_its_sources_for_a_chunk_at_most() {
    let file_size = 700 * 1024 + 13;
    let master_key = MasterKey::from_raw_key(&[3u8; 32]).unwrap();
    let options = plan_writer_options(progress_test_writer_options(), &CAPS).unwrap();
    for passes in [1usize, 2] {
        let stats = Rc::new(RefCell::new(GeneratedSourceStats::default()));
        let file = GeneratedFileSource { path: "generated.bin", len: file_size, stats: Rc::clone(&stats) };
        let empty_stats = Rc::new(RefCell::new(GeneratedSourceStats::default()));
        let empty = GeneratedFileSource { path: "empty.bin", len: 0, stats: Rc::clone(&empty_stats) };
        let files = [file, empty];
        let mut sink = TrackingArchiveSink::default();
        if passes == 1 {
            write_archive_sources_to_sink_ordered_parallel(
                &TestCodec,
                &files,
                &master_key,
                options,
                &KdfParams::Raw,
                None,
                NO_SIGNER,
                &CAPS,
                &mut sink,
            )
            .unwrap();
        } else {
            write_archive_sources_to_sink(
                &TestCodec,
                &files,
                &master_key,
                options,
                None,
                &KdfParams::Raw,
                None,
                NO_SIGNER,
                &CAPS,
                &mut sink,
            )
            .unwrap();
        }
        let stats = stats.borrow();
        assert_eq!(stats.open_count, passes);
        assert_eq!(stats.total_read, (passes * file_size) as u64);
        assert!(stats.max_read_request <= options.chunk_size as usize);
        assert!(empty_stats.borrow().open_count <= passes);
        assert_eq!(empty_stats.borrow().total_read, 0);
    }
}

#[test]
fn sink_writer_progress_reports_source_bytes_for_each_multi_pass_phase() {
    let file_size = 512 * 1024;
    let stats = Rc::new(RefCell::new(GeneratedSourceStats::default()));
    let file = GeneratedFileSource { path: "large/generated.bin", len: file_size, stats: Rc::clone(&stats) };
    let master_key = MasterKey::from_raw_key(&[4u8; 32]).unwrap();
    let mut sink = MemoryArchiveSink::default();
    let mut progress = RecordingWriteProgress::default();

    let summary = write_archive_sources_to_sink_with_progress(
        &TestCodec,
        &[file],
        &master_key,
        progress_test_writer_options(),
        None,
        &KdfParams::Raw,
        None,
        NO_SIGNER,
        &CAPS,
        &mut sink,
        &mut progress,
    )
    .unwrap();

    let stats = stats.borrow();
    assert!(stats.open_count > 1);
    assert_eq!(progress.bytes_for(ArchiveWritePhase::PlanningPayload), file_size as u64);
    assert_eq!(progress.bytes_for(ArchiveWritePhase::EmittingPayload), file_size as u64);
    assert_eq!(summary.volume_count, 1);
    assert!(!sink.volumes.is_empty());
}

#[test]
fn sink_writer_progress_reports_multi_pass_phases_and_phase_bytes() {
    let file_size = 512 * 1024;
    let stats = Rc::new(RefCell::new(GeneratedSourceStats::default()));
    let file = GeneratedFileSource { path: "large/generated.bin", len: file_size, stats: Rc::clone(&stats) };
    let master_key = MasterKey::from_raw_key(&[4u8; 32]).unwrap();
    let mut sink = MemoryArchiveSink::default();
    let mut progress = RecordingWriteProgress::default();

    write_archive_sources_to_sink_with_progress(
        &TestCodec,
        &[file],
        &master_key,
        progress_test_writer_options(),
        None,
        &KdfParams::Raw,
        None,
        NO_SIGNER,
        &CAPS,
        &mut sink,
        &mut progress,
    )
    .unwrap();

    assert_eq!(
        progress.phases,
        vec![
            ArchiveWritePhase::PlanningPayload,
            ArchiveWritePhase::PlanningMetadata,
            ArchiveWritePhase::EmittingPayload,
            ArchiveWritePhase::EmittingMetadata,
        ]
    );
    assert_eq!(progress.bytes_for(ArchiveWritePhase::PlanningPayload), file_size as u64);
    assert_eq!(progress.bytes_for(ArchiveWritePhase::EmittingPayload), file_size as u64);
}

#[test]
fn sink_writer_progress_reports_each_volume_size_replanning_attempt() {
    let file_size = 64 * 1024;
    let mut contents = Vec::with_capacity(file_size);
    let mut random = 0x1234_5678u32;
    for _ in 0..file_size {
        random = random.wrapping_mul(1_664_525).wrapping_add(1_013_904_223);
        contents.push((random >> 24) as u8);
    }
    let file = RegularFile::new("sized.bin", &contents);
    let master_key = MasterKey::from_raw_key(&[9u8; 32]).unwrap();
    let options = WriterOptions {
        block_size: 4 * 1024,
        chunk_size: 4 * 1024,
        envelope_target_size: 128 * 1024,
        stripe_width: 1,
        volume_loss_tolerance: 1,
        target_volume_size: Some(8 * 1024),
        ..default_options()
    };
    let mut sink = MemoryArchiveSink::default();
    let mut progress = RecordingWriteProgress::default();

    write_archive_sources_to_sink_with_progress(
        &TestCodec,
        &[file],
        &master_key,
        options,
        None,
        &KdfParams::Raw,
        None,
        NO_SIGNER,
        &CAPS,
        &mut sink,
        &mut progress,
    )
    .unwrap();

    let planning_attempts =
        progress.phases.iter().filter(|phase| **phase == ArchiveWritePhase::PlanningPayload).count();
    assert!(planning_attempts > 1);
    assert_eq!(
        progress.phases.len(),
        planning_attempts * 2 + 2,
        "each planning attempt has payload and metadata phases before emission",
    );
    for phases in progress.phases[..planning_attempts * 2].chunks_exact(2) {
        assert_eq!(phases, [ArchiveWritePhase::PlanningPayload, ArchiveWritePhase::PlanningMetadata]);
    }
    assert_eq!(
        &progress.phases[planning_attempts * 2..],
        [ArchiveWritePhase::EmittingPayload, ArchiveWritePhase::EmittingMetadata]
    );
    assert_eq!(
        progress.bytes_for(ArchiveWritePhase::PlanningPayload),
        file_size as u64 * planning_attempts as u64,
    );
    assert_eq!(progress.bytes_for(ArchiveWritePhase::EmittingPayload), file_size as u64);
}

#[test]
fn single_pass_progress_reports_emission_phases() {
    let file_size = 128 * 1024;
    let stats = Rc::new(RefCell::new(GeneratedSourceStats::default()));
    let file = GeneratedFileSource { path: "single/generated.bin", len: file_size, stats };
    let master_key = MasterKey::from_raw_key(&[5u8; 32]).unwrap();
    let mut sink = MemoryArchiveSink::default();
    let mut progress = RecordingWriteProgress::default();

    write_archive_sources_to_sink_single_pass_with_progress(
        &TestCodec,
        &[file],
        &master_key,
        progress_test_writer_options(),
        &KdfParams::Raw,
        None,
        NO_SIGNER,
        &CAPS,
        &mut sink,
        &mut progress,
    )
    .unwrap();

    assert_eq!(
        progress.phases,
        vec![ArchiveWritePhase::EmittingPayload, ArchiveWritePhase::EmittingMetadata]
    );
    assert_eq!(progress.bytes_for(ArchiveWritePhase::EmittingPayload), file_size as u64);
}

#[test]
fn ordered_parallel_progress_reports_emission_phases() {
    let file_size = 128 * 1024;
    let stats = Rc::new(RefCell::new(GeneratedSourceStats::default()));
    let file = GeneratedFileSource { path: "parallel/generated.bin", len: file_size, stats };
    let master_key = MasterKey::from_raw_key(&[6u8; 32]).unwrap();
    let mut sink = MemoryArchiveSink::default();
    let mut progress = RecordingWriteProgress::default();

    write_archive_sources_to_sink_ordered_parallel_with_progress(
        &TestCodec,
        &[file],
        &master_key,
        progress_test_writer_options(),
        &KdfParams::Raw,
        None,
        NO_SIGNER,
        &CAPS,
        &mut sink,
        &mut progress,
    )
    .unwrap();

    assert_eq!(
        progress.phases,
        vec![ArchiveWritePhase::EmittingPayload, ArchiveWritePhase::EmittingMetadata]
    );
    assert_eq!(progress.bytes_for(ArchiveWritePhase::EmittingPayload), file_size as u64);
}

#[test]
fn a_write_failure_mid_archive_surfaces_and_leaves_no_usable_archive() {
    let bodies: Vec<(String, Vec<u8>)> = (0..40).map(|i| (format!("f{i:03}.bin"), vec![b'x'; 5000])).collect();
    let files: Vec<RegularFile<'_>> = bodies.iter().map(|(path, body)| RegularFile::new(path, body)).collect();
    let key = MasterKey::from_raw_key(&[71u8; 32]).unwrap();
    let options = one_volume();
    let write = |sink: &mut FailingArchiveSink| {
        write_archive_sources_to_sink(
            &TestCodec,
            &files,
            &key,
            options,
            None,
            &KdfParams::Raw,
            None,
            NO_SIGNER,
            &CAPS,
            sink,
        )
    };

    // Learn how many sink writes this archive makes, so that the failure points are real.
    let mut counting = FailingArchiveSink::new(usize::MAX);
    write(&mut counting).unwrap();
    let total_writes = counting.writes_seen;
    assert!(total_writes > 0, "the writer made no sink writes to fail");
    open_archive(&counting.volumes[0], &key).unwrap().verify().unwrap();

    // Fail on the first write, the last, and the middle.
    let failure_points =
        if total_writes == 1 { vec![0usize] } else { vec![0, total_writes / 2, total_writes - 1] };
    for writes_before_failure in failure_points {
        let mut sink = FailingArchiveSink::new(writes_before_failure);
        let error = write(&mut sink).expect_err("a failing sink must not produce a successful summary");
        assert!(
            matches!(error, ArchiveWriteError::Io(_)),
            "unexpected error at {writes_before_failure}: {error:?}"
        );
        assert_eq!(sink.begin_calls, 1);

        // What reached the sink is a prefix of an archive. It must not both open and verify.
        if let Some(volume) = sink.volumes.first() {
            assert!(volume.len() < counting.volumes[0].len());
            if volume.len() > LAYOUT.recovery_locator as usize {
                if let Ok(opened) = open_archive(volume, &key) {
                    assert!(
                        opened.verify().is_err(),
                        "a truncated archive both opened and verified after failing at write {writes_before_failure}"
                    );
                }
            }
        }
    }
}

#[test]
fn crypto_header_extension_area_emits_only_terminator() {
    let options = plan_writer_options(
        WriterOptions {
            aead_algo: AeadAlgo::Unsealed,
            block_size: MIN_BLOCK_SIZE,
            stripe_width: 1,
            volume_loss_tolerance: 0,
            bit_rot_buffer_pct: 0,
            index_root_fec_parity_shards: 0,
            ..default_options()
        },
        &CAPS,
    )
    .unwrap();
    let subkeys = Subkeys::unencrypted_placeholder();
    let header = build_crypto_header(
        &TestCodec,
        options,
        VOLUME_FORMAT_REV_45,
        false,
        &subkeys,
        &[1u8; 16],
        &[2u8; 16],
        &KdfParams::NoKey,
    )
    .unwrap()
    .bytes;

    let kdf_payload = serialize_kdf_params(&KdfParams::NoKey, &LAYOUT).unwrap();
    let extension_start = LAYOUT.crypto_header_fixed as usize + kdf_payload.len();
    let extension = &header[extension_start..extension_start + CRYPTO_EXTENSION_HEADER_LEN];
    assert_eq!(extension, &[0u8; CRYPTO_EXTENSION_HEADER_LEN]);
    assert_eq!(header.len(), extension_start + CRYPTO_EXTENSION_HEADER_LEN + CRYPTO_HEADER_HMAC_LEN);
}

// ---------------------------------------------------------------------------------------------
// What holds of every archive, on given files
// ---------------------------------------------------------------------------------------------

fn fixed_ids(options: WriterOptions) -> WriterOptions {
    WriterOptions { archive_uuid: Some([0x44; 16]), session_id: Some([0x55; 16]), ..options }
}

#[test]
fn a_striped_archive_is_read_back_from_its_volumes() {
    let key = MasterKey::from_raw_key(&[21u8; 32]).unwrap();
    let data = deterministic_bytes(700_000);
    let files = [RegularFile::new("a/one.bin", &data), RegularFile::new("b/two.txt", b"two")];
    let options = WriterOptions { block_size: 8192, ..default_options() };
    let archive: WrittenArchive = write_archive(&TestCodec, &files, &key, options, &CAPS).unwrap();

    assert_eq!(archive.volumes.len(), 8);
    let opened = open_volumes(&archive.volumes, Some(&key)).unwrap();
    assert_eq!(opened.total_volumes, 8);
    assert_eq!(opened.extract_file("a/one.bin").unwrap(), Some(data));
    assert_eq!(opened.extract_file("b/two.txt").unwrap(), Some(b"two".to_vec()));
    assert_eq!(opened.extract_file("c").unwrap(), None);
    opened.verify().unwrap();

    // Block numbers have no gaps, and every object has parity blocks behind its data blocks.
    let indices: Vec<u64> = opened.blocks.keys().copied().collect();
    assert_eq!(indices, (0..indices.len() as u64).collect::<Vec<_>>());
    for entry in &opened.index_root.shards {
        assert!(entry.parity_block_count > 0);
        for at in 0..entry.parity_block_count as u64 {
            let index = entry.first_block_index + entry.data_block_count as u64 + at;
            assert_eq!(opened.blocks[&index].kind, BlockKind::IndexShardParity);
        }
    }
    assert!(open_volumes(&archive.volumes, Some(&MasterKey([0u8; 32]))).is_err());
}

#[test]
fn an_unencrypted_archive_needs_no_key() {
    let files = [RegularFile::new("open.txt", b"for everyone")];
    let archive = write_archive_unencrypted(&TestCodec, &files, one_volume(), &CAPS).unwrap();
    let opened = open_volumes(&archive.volumes, None).unwrap();
    assert!(opened.unsealed);
    assert_eq!(opened.extract_file("open.txt").unwrap(), Some(b"for everyone".to_vec()));
    opened.verify().unwrap();
}

#[test]
fn the_cipher_and_the_key_derivation_belong_together() {
    let key = MasterKey::from_raw_key(&[22u8; 32]).unwrap();
    let files = [RegularFile::new("f", b"f")];
    let sealed = one_volume();
    let unsealed = WriterOptions { aead_algo: AeadAlgo::Unsealed, ..sealed };
    assert_eq!(
        write_archive_with_kdf(&TestCodec, &files, &key, unsealed, &KdfParams::Raw, &CAPS).unwrap_err(),
        FormatError::InvalidProtectionMode { aead_algo: AeadAlgo::Unsealed, kdf_algo: KdfAlgo::Raw }
    );
    assert_eq!(
        write_archive_with_kdf(&TestCodec, &files, &key, sealed, &KdfParams::NoKey, &CAPS).unwrap_err(),
        FormatError::InvalidProtectionMode { aead_algo: AeadAlgo::AesGcmSiv256, kdf_algo: KdfAlgo::NoKey }
    );
    let argon = KdfParams::Argon2id { t_cost: 2, m_cost_kib: 1 << 16, parallelism: 4, salt: vec![7; 16] };
    let archive = write_archive_with_kdf(&TestCodec, &files, &key, sealed, &argon, &CAPS).unwrap();
    open_archive(&archive.bytes, &key).unwrap().verify().unwrap();
}

#[test]
fn every_writer_mode_holds_the_same_tar_stream() {
    let key = MasterKey::from_raw_key(&[23u8; 32]).unwrap();
    let data = deterministic_bytes(300_000);
    let files = [RegularFile::new("big.bin", &data), RegularFile::new("small.txt", b"small")];
    let options = fixed_ids(progress_test_writer_options());

    let two_pass = write_to_memory(&files, &key, options).unwrap();
    let mut single = MemoryArchiveSink::default();
    write_archive_sources_to_sink_single_pass(
        &TestCodec,
        &files,
        &key,
        options,
        &KdfParams::Raw,
        None,
        NO_SIGNER,
        &CAPS,
        &mut single,
    )
    .unwrap();
    let mut ordered = MemoryArchiveSink::default();
    write_archive_sources_to_sink_ordered_parallel(
        &TestCodec,
        &files,
        &key,
        options,
        &KdfParams::Raw,
        None,
        NO_SIGNER,
        &CAPS,
        &mut ordered,
    )
    .unwrap();
    assert_eq!(single.volumes, ordered.volumes);

    let first = open_archive(&two_pass.volumes[0], &key).unwrap();
    let second = open_archive(&single.volumes[0], &key).unwrap();
    first.verify().unwrap();
    second.verify().unwrap();
    assert_eq!(first.index_root.header.content_sha256, second.index_root.header.content_sha256);
    assert_eq!(first.list_index_entries().unwrap(), second.list_index_entries().unwrap());
    assert_eq!(second.extract_file("big.bin").unwrap(), Some(data));
}

#[test]
fn the_same_request_gives_the_same_archive() {
    let key = MasterKey::from_raw_key(&[24u8; 32]).unwrap();
    let files = [RegularFile::new("x", b"x"), RegularFile::new("y", b"yy")];
    let options = fixed_ids(one_volume());
    let first = write_archive(&TestCodec, &files, &key, options, &CAPS).unwrap();
    let second = write_archive(&TestCodec, &files, &key, options, &CAPS).unwrap();
    assert_eq!(first.volumes, second.volumes);
    assert_eq!(first.bootstrap_sidecar, second.bootstrap_sidecar);
}

fn ordered_state(options: WriterOptions) -> (OrderedParallelState, MemoryArchiveSink) {
    let mut sink = MemoryArchiveSink::default();
    let state = begin_writer_emission_state(
        &TestCodec,
        &mut sink,
        options,
        b"header",
        None,
        [1; 16],
        [2; 16],
        VOLUME_FORMAT_REV_45,
        false,
    )
    .unwrap();
    let seal = ArchiveSeal {
        subkeys: TestCodec.derive_subkeys(&MasterKey([3; 32]), &[1; 16], &[2; 16]).unwrap(),
        archive_uuid: [1; 16],
        session_id: [2; 16],
    };
    (OrderedParallelState::new(options, seal, state), sink)
}

#[test]
fn results_may_arrive_in_any_order() {
    let options = plan_writer_options(
        WriterOptions { envelope_target_size: 20 * 1024, chunk_size: 8 * 1024, ..progress_test_writer_options() },
        &CAPS,
    )
    .unwrap();
    let data = deterministic_bytes(10 * 8 * 1024);
    let chunks: Vec<&[u8]> = data.chunks(8 * 1024).collect();
    let run = |frame_order: &[usize], reverse_envelopes: bool| {
        let (mut state, mut sink) = ordered_state(options);
        let mut frames = Vec::new();
        for (at, chunk) in chunks.iter().enumerate() {
            let frame_index = state.number_chunk(chunk).unwrap();
            let place = FramePlace {
                member_index: 0,
                member_start: 0,
                member_offset: (at * 8 * 1024) as u64,
                member_group_size: data.len() as u64,
            };
            let job = OrderedFrameJob { frame_index, place, plaintext: chunk.to_vec() };
            frames.push(Some(build_ordered_frame_result(&TestCodec, job, options).unwrap()));
        }
        let mut jobs = Vec::new();
        for at in frame_order {
            jobs.extend(state.receive_ordered_frame_result(frames[*at].take().unwrap()).unwrap());
        }
        jobs.push(state.close_full_envelope().unwrap());
        if reverse_envelopes {
            jobs.reverse();
        }
        for job in &jobs {
            let result = build_ordered_envelope_result(&TestCodec, job, &state.seal, options).unwrap();
            state.receive_ordered_envelope_result(&TestCodec, result, &mut sink).unwrap();
        }
        (sink.volumes, state.packing.frames, jobs.len())
    };
    let in_order = run(&[0, 1, 2, 3, 4, 5, 6, 7, 8, 9], false);
    assert_eq!(in_order.2, 5);
    assert_eq!(run(&[9, 8, 7, 6, 5, 4, 3, 2, 1, 0], false), in_order);
    assert_eq!(run(&[3, 0, 9, 1, 2, 8, 5, 4, 7, 6], true), in_order);
}

#[test]
fn probes_account_for_every_byte() {
    let key = MasterKey::from_raw_key(&[25u8; 32]).unwrap();
    let data = deterministic_bytes(200_000);
    let files = [RegularFile::new("probe.bin", &data)];
    let mut unordered = TrackingArchiveSink::default();
    let summary = write_archive_sources_to_sink_unordered_probe(
        &TestCodec,
        &files,
        &key,
        progress_test_writer_options(),
        &KdfParams::Raw,
        &CAPS,
        &mut unordered,
    )
    .unwrap();
    assert_eq!(summary.volume_count, 1);
    assert_eq!(summary.archive_bytes, unordered.volume_bytes.iter().sum::<u64>());
    assert!(summary.archive_bytes > data.len() as u64);

    let mut ordered = TrackingArchiveSink::default();
    let summary = write_archive_sources_to_sink_ordered_parallel_probe(
        &TestCodec,
        &files,
        &key,
        progress_test_writer_options(),
        &KdfParams::Raw,
        None,
        NO_SIGNER,
        &CAPS,
        &mut ordered,
    )
    .unwrap();
    assert_eq!(summary.archive_bytes, ordered.volume_bytes.iter().sum::<u64>());
}

#[test]
fn the_sidecar_repeats_the_manifest_and_the_index_root() {
    let key = MasterKey::from_raw_key(&[26u8; 32]).unwrap();
    let files = [RegularFile::new("s.txt", b"sidecar")];
    let archive = write_archive(&TestCodec, &files, &key, single_volume_metadata_test_options(), &CAPS).unwrap();
    let opened = open_archive(&archive.bytes, &key).unwrap();
    let sidecar = &archive.bootstrap_sidecar;
    let mut f = Fields::new(sidecar);
    assert_eq!(f.raw(4).unwrap(), b"TZBS");
    let ids = (&opened.subkeys, &archive.archive_uuid, &archive.session_id);
    checked_tag(HmacDomain::BootstrapSidecar, ids, &sidecar[..92], &sidecar[92..124]).unwrap();
    f.raw(36).unwrap();
    let manifest_at = f.num(8).unwrap() as usize;
    let manifest_len = f.num(4).unwrap() as usize;
    let root_at = f.num(8).unwrap() as usize;
    let root_len = f.num(8).unwrap() as usize;
    let manifest = &sidecar[manifest_at..manifest_at + manifest_len];
    assert!(archive.bytes.windows(manifest.len()).any(|window| window == manifest));
    let root = &sidecar[root_at..root_at + root_len];
    assert!(archive.bytes.windows(root.len()).any(|window| window == root));
    assert_eq!(sidecar.len(), root_at + root_len);
}

/// Announces another size than its reader delivers.
struct MisannouncedSource {
    announced: u64,
    delivered: Vec<u8>,
}

impl RegularFileSource for MisannouncedSource {
    fn archive_path(&self) -> &str {
        "misannounced.bin"
    }

    fn entry_kind(&self) -> SourceEntryKind {
        SourceEntryKind::Regular
    }

    fn link_target(&self) -> Option<&[u8]> {
        None
    }

    fn file_data_size(&self) -> u64 {
        self.announced
    }

    fn sparse_extents(&self) -> Option<&[SparseExtent]> {
        None
    }

    fn mode(&self) -> u32 {
        0o644
    }

    fn mtime(&self) -> ArchiveTimestamp {
        ArchiveTimestamp::unix_epoch()
    }

    fn portable_metadata(&self) -> PortableFileMetadata {
        PortableFileMetadata::default()
    }

    fn open<'a>(&'a self) -> Result<Box<dyn SourceReader + 'a>, ArchiveWriteError> {
        Ok(Box::new(BytesReader::new(&self.delivered)))
    }

    fn open_auxiliary<'a>(&'a self, _ordinal: usize) -> Result<Box<dyn SourceReader + 'a>, ArchiveWriteError> {
        unreachable!()
    }
}

#[test]
fn a_source_of_another_size_stops_the_writer() {
    let key = MasterKey::from_raw_key(&[27u8; 32]).unwrap();
    let short = MisannouncedSource { announced: 10, delivered: vec![1; 9] };
    assert!(matches!(
        write_to_memory(&[short], &key, one_volume()),
        Err(ArchiveWriteError::Io(IoError::UnexpectedEof(_)))
    ));
    let long = MisannouncedSource { announced: 10, delivered: vec![1; 11] };
    assert!(matches!(write_to_memory(&[long], &key, one_volume()), Err(ArchiveWriteError::Io(_))));
    let exact = MisannouncedSource { announced: 10, delivered: vec![1; 10] };
    assert!(write_to_memory(&[exact], &key, one_volume()).is_ok());
}

#[test]
fn a_signature_of_another_length_is_refused() {
    let key = MasterKey::from_raw_key(&[28u8; 32]).unwrap();
    let files = [RegularFile::new("signed.txt", b"payload")];
    let config = RootAuthWriterConfig {
        authenticator_id: 1,
        signer_identity_type: 1,
        signer_identity: b"signer",
        authenticator_value_length: 32,
    };
    let sign = |answer: Result<Vec<u8>, FormatError>| {
        write_archive_with_root_auth(
            &TestCodec,
            &files,
            &key,
            single_volume_metadata_test_options(),
            config,
            |_: &RootAuthSigningRequest| answer,
            &CAPS,
        )
    };
    assert!(sign(Ok(vec![0; 31])).is_err());
    assert_eq!(
        sign(Err(FormatError::WriterUnsupported("no key at hand"))).unwrap_err(),
        FormatError::WriterUnsupported("no key at hand")
    );
    let archive = sign(Ok(vec![9; 32])).unwrap();
    let opened = open_archive(&archive.bytes, &key).unwrap();
    assert_eq!(opened.root_auth_footer.unwrap().authenticator_value, vec![9; 32]);
}

#[test]
fn owner_names_are_in_normal_form() {
    let owned = |uname: &str| PortableFileMetadata {
        source_os: "other-unix".to_string(),
        posix_owner: Some(PortablePosixOwner { uid: 1, gid: 2, uname: Some(uname.to_string()), gname: None }),
        ..PortableFileMetadata::default()
    };
    let group = |metadata: &PortableFileMetadata| {
        member_group(b"owned.txt", b"", 0o644, ArchiveTimestamp::unix_epoch(), metadata)
    };
    assert!(group(&owned("\u{e9}")).is_ok());
    assert!(group(&owned("e\u{301}")).is_err());
    let parsed = parse_tar_member_group(&group(&owned("plain")).unwrap()).unwrap();
    assert_eq!(parsed.uname.as_deref(), Some(b"plain".as_slice()));
}

#[test]
fn index_entries_are_ordered_by_the_hash_of_their_path() {
    let key = MasterKey::from_raw_key(&[29u8; 32]).unwrap();
    let paths: Vec<String> = (0..50).map(|i| format!("dir{}/file{i}", i % 3)).collect();
    let files: Vec<RegularFile<'_>> = paths.iter().map(|path| RegularFile::new(path, b"")).collect();
    let archive = write_archive(&TestCodec, &files, &key, one_volume(), &CAPS).unwrap();
    let opened = open_archive(&archive.bytes, &key).unwrap();
    let entries = opened.list_index_entries().unwrap();
    assert_eq!(entries.len(), 50);
    let hashes: Vec<[u8; 8]> =
        entries.iter().map(|entry| TestCodec.hash_prefix(entry.path.as_bytes())).collect();
    assert!(hashes.windows(2).all(|pair| pair[0] <= pair[1]));
    assert_eq!(opened.index_root.shards[0].first_path_hash, hashes[0]);
    assert_eq!(opened.index_root.shards[0].last_path_hash, hashes[49]);
}

struct OneRecipient;

impl RecipientRecords for OneRecipient {
    fn records(&self) -> Result<Vec<RecipientRecordV1>, FormatError> {
        Ok(vec![recipient_wrap_test_record()])
    }
}

#[test]
fn recipient_records_come_from_a_list_or_a_callback() {
    let fixed = KeyWrapRecordSource::fixed(vec![recipient_wrap_test_record()]);
    assert_eq!(fixed.resolve().unwrap(), Some(vec![recipient_wrap_test_record()]));
    let callback = KeyWrapRecordSource::callback(Box::new(OneRecipient));
    assert_eq!(callback.resolve().unwrap(), Some(vec![recipient_wrap_test_record()]));
    assert_eq!(KeyWrapRecordSource::default().resolve().unwrap(), None);
}

#[test]
fn a_wrapped_archive_carries_its_key_wrap_table() {
    let key = MasterKey::from_raw_key(&[30u8; 32]).unwrap();
    let files = [RegularFile::new("w.txt", b"wrapped")];
    let records = vec![recipient_wrap_test_record(), recipient_wrap_test_record()];
    let archive =
        write_archive_with_recipient_wrap_records(&TestCodec, &files, &key, one_volume(), records, &CAPS).unwrap();
    let opened = open_archive(&archive.bytes, &key).unwrap();
    opened.verify().unwrap();
    assert_eq!(opened.key_wrap_table.len(), 96 + 2 * (16 + 11 + 15));
    assert_eq!(
        write_archive_with_recipient_wrap_records(&TestCodec, &files, &key, one_volume(), Vec::new(), &CAPS)
            .unwrap_err(),
        FormatError::WriterUnsupported("RecipientWrap requires at least one recipient record")
    );
}

#[test]
fn a_smaller_target_size_needs_more_volumes() {
    let key = MasterKey::from_raw_key(&[31u8; 32]).unwrap();
    let data = deterministic_bytes(400_000);
    let files = [RegularFile::new("sized.bin", &data)];
    let base = WriterOptions { block_size: 4096, volume_loss_tolerance: 0, bit_rot_buffer_pct: 0, ..one_volume() };
    for target in [200_000u64, 100_000] {
        let options = WriterOptions { target_volume_size: Some(target), ..base };
        let archive = write_archive(&TestCodec, &files, &key, options, &CAPS).unwrap();
        assert!(archive.volumes.len() > 1);
        assert!(archive.volumes.iter().all(|volume| volume.len() as u64 <= target));
        let opened = open_volumes(&archive.volumes, Some(&key)).unwrap();
        assert_eq!(opened.extract_file("sized.bin").unwrap().as_deref(), Some(data.as_slice()));
    }
}

#[test]
fn the_plain_codec_stores_an_archive_as_it_is() {
    let key = MasterKey::from_raw_key(&[32u8; 32]).unwrap();
    let codec = PlainCodec::new(LAYOUT).unwrap();
    let files = [RegularFile::new("plain.txt", b"kept as it is")];
    let archive = write_archive(&codec, &files, &key, one_volume(), &CAPS).unwrap();
    assert!(archive.bytes.windows(13).any(|window| window == b"kept as it is"));
    assert!(PlainCodec::new(WireLayout { manifest_footer: 10, ..LAYOUT }).is_none());
}

/// Where the records of a volume begin: behind its header, its crypto header and no table.
fn records_start(volume: &[u8]) -> usize {
    let mut f = Fields::new(volume);
    f.raw(48).unwrap();
    (f.num(4).unwrap() + f.num(4).unwrap()) as usize
}

#[test]
fn every_block_lies_where_its_number_says() {
    let key = MasterKey::from_raw_key(&[33u8; 32]).unwrap();
    let data = deterministic_bytes(300_000);
    let files = [RegularFile::new("numbered.bin", &data), RegularFile::new("more.txt", b"more")];
    let options = WriterOptions { block_size: 8192, stripe_width: 3, ..default_options() };
    let archive = write_archive(&TestCodec, &files, &key, options, &CAPS).unwrap();
    let opened = open_volumes(&archive.volumes, Some(&key)).unwrap();
    let record_len = LAYOUT.block_record_framing as usize + 8192;
    assert!(opened.blocks.len() > 40);
    for (number, block) in &opened.blocks {
        let volume = &archive.volumes[(*number % 3) as usize];
        let at = records_start(volume) + record_len * (*number / 3) as usize;
        let record = TestCodec.encode_block(*number, block.kind, block.flags, &block.payload);
        assert_eq!(&volume[at..at + record_len], record.as_slice());
    }
    let numbers: Vec<u64> = opened.blocks.keys().copied().collect();
    assert_eq!(numbers, (0..opened.blocks.len() as u64).collect::<Vec<u64>>());
}

#[test]
fn frames_and_envelopes_follow_one_another() {
    let key = MasterKey::from_raw_key(&[34u8; 32]).unwrap();
    let data = deterministic_bytes(200_000);
    let files = [
        RegularFile::new("first.bin", &data),
        RegularFile::new("second.txt", b"second"),
        RegularFile::new("third.bin", &data[..70_000]),
    ];
    let planned = plan_payload_stream(
        &TestCodec,
        &files,
        progress_test_writer_options(),
        None,
        &mut Unobserved::new(),
        &mut SourceProgressState::new(),
    )
    .unwrap();
    let payload = planned.0;
    assert_eq!(payload.tar_members.len(), 3);
    assert!(payload.payload_objects.len() > 2);
    let mut stream_offset = 0u64;
    let mut envelope_fill = vec![0u32; payload.payload_objects.len()];
    for (number, frame) in payload.frames.iter().enumerate() {
        assert_eq!(frame.frame_index, number as u64);
        assert_eq!(frame.tar_stream_offset, stream_offset);
        assert_eq!(frame.offset_in_envelope, envelope_fill[frame.envelope_index as usize]);
        stream_offset += frame.decompressed_size as u64;
        envelope_fill[frame.envelope_index as usize] += frame.compressed_size;
    }
    assert_eq!(stream_offset, payload.tar_total_size);
    let mut next_block = 0u64;
    for (number, object) in payload.payload_objects.iter().enumerate() {
        assert_eq!(object.envelope_index, number as u64);
        assert_eq!(object.plaintext_size, envelope_fill[number]);
        assert_eq!(object.object.first_block_index, next_block);
        next_block += object.object.data_block_count as u64 + object.object.parity_block_count as u64;
    }
    assert_eq!(planned.1, next_block);
    for (index, member) in payload.tar_members.iter().enumerate() {
        let own: Vec<_> = payload.frames.iter().filter(|frame| frame.member_index == index).collect();
        assert_eq!(own[0].tar_stream_offset, member.tar_member_group_start);
        assert_eq!(
            own.iter().map(|frame| frame.decompressed_size as u64).sum::<u64>(),
            member.tar_member_group_size
        );
        assert!(own.windows(2).all(|pair| pair[1].frame_index == pair[0].frame_index + 1));
    }
}

fn signing_config(id: u16) -> RootAuthWriterConfig<'static> {
    RootAuthWriterConfig {
        authenticator_id: id,
        signer_identity_type: 1,
        signer_identity: b"entry-point-signer",
        authenticator_value_length: 32,
    }
}

fn signs_the_root(archive: &WrittenArchive, key: &MasterKey, id: u16) {
    let opened = open_archive(&archive.bytes, key).unwrap();
    opened.verify().unwrap();
    assert_eq!(opened.extract_file("entry.txt").unwrap(), Some(b"entry point".to_vec()));
    let checked = opened
        .verify_root_auth_with(|footer, root| Ok(footer.authenticator_value.as_slice() == root))
        .unwrap();
    assert_eq!(checked.authenticator_id, id);
}

#[test]
fn every_signing_entry_point_signs_the_archive_root() {
    let key = MasterKey::from_raw_key(&[35u8; 32]).unwrap();
    let files = [RegularFile::new("entry.txt", b"entry point")];
    let options = single_volume_metadata_test_options();
    let argon = KdfParams::Argon2id { t_cost: 2, m_cost_kib: 1 << 16, parallelism: 4, salt: vec![9; 16] };
    let dictionary = deterministic_bytes(2000);
    let sign = |request: &RootAuthSigningRequest| Ok(request.archive_root.to_vec());

    let keyed = write_archive_with_root_auth_and_kdf(
        &TestCodec,
        &files,
        &key,
        options,
        &argon,
        signing_config(1),
        sign,
        &CAPS,
    )
    .unwrap();
    signs_the_root(&keyed, &key, 1);

    let wrapped = write_archive_with_root_auth_and_recipient_wrap_records(
        &TestCodec,
        &files,
        &key,
        options,
        vec![recipient_wrap_test_record()],
        signing_config(2),
        sign,
        &CAPS,
    )
    .unwrap();
    signs_the_root(&wrapped, &key, 2);

    let primed = write_archive_with_dictionary_and_root_auth(
        &TestCodec,
        &files,
        &key,
        options,
        &dictionary,
        signing_config(3),
        sign,
        &CAPS,
    )
    .unwrap();
    signs_the_root(&primed, &key, 3);
    assert_eq!(open_archive(&primed.bytes, &key).unwrap().dictionary().unwrap(), Some(dictionary.clone()));

    let both = write_archive_with_dictionary_kdf_and_root_auth(
        &TestCodec,
        &files,
        &key,
        options,
        &dictionary,
        &argon,
        signing_config(4),
        sign,
        &CAPS,
    )
    .unwrap();
    signs_the_root(&both, &key, 4);
}

#[test]
fn a_dictionary_archive_may_have_a_key_derivation() {
    let key = MasterKey::from_raw_key(&[36u8; 32]).unwrap();
    let files = [RegularFile::new("entry.txt", b"entry point")];
    let argon = KdfParams::Argon2id { t_cost: 2, m_cost_kib: 1 << 16, parallelism: 4, salt: vec![5; 16] };
    let dictionary = deterministic_bytes(3000);
    let options = single_volume_metadata_test_options();
    let archive = write_archive_with_dictionary_and_kdf(
        &TestCodec,
        &files,
        &key,
        options,
        &dictionary,
        &argon,
        &CAPS,
    )
    .unwrap();
    let opened = open_archive(&archive.bytes, &key).unwrap();
    assert_eq!(opened.dictionary().unwrap(), Some(dictionary));
    assert_eq!(opened.extract_file("entry.txt").unwrap(), Some(b"entry point".to_vec()));
    let none: [RegularFile<'_>; 0] = [];
    assert_eq!(
        write_archive_with_dictionary_and_kdf(&TestCodec, &none, &key, options, b"words", &argon, &CAPS)
            .unwrap_err(),
        FormatError::WriterUnsupported("dictionary archives require at least one file")
    );
    assert_eq!(
        write_archive_with_dictionary_and_kdf(&TestCodec, &files, &key, options, b"", &argon, &CAPS)
            .unwrap_err(),
        FormatError::WriterUnsupported("dictionary archives require a non-empty dictionary")
    );
}

#[test]
fn wrapped_parallel_archives_report_their_progress() {
    let key = MasterKey::from_raw_key(&[37u8; 32]).unwrap();
    let files = [RegularFile::new("entry.txt", b"entry point")];
    let mut sink = MemoryArchiveSink::default();
    let mut progress = RecordingWriteProgress::default();
    write_archive_sources_to_sink_ordered_parallel_with_recipient_wrap_records_and_progress(
        &TestCodec,
        &files,
        &key,
        single_volume_metadata_test_options(),
        vec![recipient_wrap_test_record()],
        None,
        NO_SIGNER,
        &CAPS,
        &mut sink,
        &mut progress,
    )
    .unwrap();
    assert_eq!(
        progress.phases,
        vec![ArchiveWritePhase::EmittingPayload, ArchiveWritePhase::EmittingMetadata]
    );
    assert_eq!(progress.bytes_for(ArchiveWritePhase::EmittingPayload), 11);
    let opened = open_archive(&sink.volumes[0], &key).unwrap();
    assert_eq!(opened.extract_file("entry.txt").unwrap(), Some(b"entry point".to_vec()));
    assert!(!opened.key_wrap_table.is_empty());
}
