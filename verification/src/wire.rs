//! The records of an archive as values; their byte layouts belong to the codec.
use crate::format::{AeadAlgo, BlockKind, CompressionAlgo, FecAlgo, KdfAlgo};
use vstd::prelude::*;

verus! {

/// Starts every volume.
#[derive(Debug, Clone, Copy, PartialEq, Eq)]
pub struct VolumeHeader {
    pub format_version: u16,
    pub volume_format_rev: u16,
    pub volume_index: u32,
    pub stripe_width: u32,
    pub archive_uuid: [u8; 16],
    pub session_id: [u8; 16],
    pub crypto_header_offset: u32,
    pub crypto_header_length: u32,
    pub header_crc32c: u32,
}

/// Records the request behind an archive.
#[derive(Debug, Clone, Copy, PartialEq, Eq)]
pub struct CryptoHeaderFixed {
    pub length: u32,
    pub compression_algo: CompressionAlgo,
    pub aead_algo: AeadAlgo,
    pub fec_algo: FecAlgo,
    pub kdf_algo: KdfAlgo,
    pub chunk_size: u32,
    pub envelope_target_size: u32,
    pub block_size: u32,
    pub fec_data_shards: u16,
    pub fec_parity_shards: u16,
    pub index_fec_data_shards: u16,
    pub index_fec_parity_shards: u16,
    pub index_root_fec_data_shards: u16,
    pub index_root_fec_parity_shards: u16,
    pub stripe_width: u32,
    pub volume_loss_tolerance: u8,
    pub bit_rot_buffer_pct: u8,
    pub has_dictionary: u8,
    pub max_path_length: u32,
    pub expected_volume_size: u64,
}

/// Locates the index root.
#[derive(Debug, Clone, Copy, PartialEq, Eq)]
pub struct ManifestFooter {
    pub archive_uuid: [u8; 16],
    pub session_id: [u8; 16],
    pub volume_index: u32,
    pub is_authoritative: u8,
    pub total_volumes: u32,
    pub index_root_first_block: u64,
    pub index_root_data_block_count: u32,
    pub index_root_parity_block_count: u32,
    pub index_root_encrypted_size: u32,
    pub index_root_decompressed_size: u32,
    pub manifest_hmac: [u8; 32],
}

/// Closes the body of a volume.
#[derive(Debug, Clone, Copy, PartialEq, Eq)]
pub struct VolumeTrailer {
    pub archive_uuid: [u8; 16],
    pub session_id: [u8; 16],
    pub volume_index: u32,
    pub block_count: u64,
    pub bytes_written: u64,
    pub manifest_footer_offset: u64,
    pub manifest_footer_length: u32,
    pub closed_at_ns: i64,
    pub root_auth_footer_offset: u64,
    pub root_auth_footer_length: u32,
    pub root_auth_flags: u32,
    pub trailer_hmac: [u8; 32],
}

/// Finds the critical-metadata recovery area from the end of a volume.
#[derive(Debug, Clone, Copy, PartialEq, Eq)]
pub struct CriticalRecoveryLocator {
    pub cmra_offset: u64,
    pub cmra_length: u32,
    pub volume_trailer_offset: u64,
    pub body_bytes_before_cmra: u64,
    pub archive_uuid_hint: [u8; 16],
    pub session_id_hint: [u8; 16],
    pub volume_index_hint: u32,
    pub locator_sequence: u32,
    pub cmra_shard_size: u32,
    pub cmra_data_shard_count: u16,
    pub cmra_parity_shard_count: u16,
    pub cmra_image_length: u32,
    pub cmra_image_sha256: [u8; 32],
    pub locator_crc32c: u32,
}

/// Starts a critical-metadata recovery area.
#[derive(Debug, Clone, Copy, PartialEq, Eq)]
pub struct CriticalMetadataRecoveryHeader {
    pub shard_size: u32,
    pub data_shard_count: u16,
    pub parity_shard_count: u16,
    pub image_length: u32,
    pub archive_uuid_hint: [u8; 16],
    pub session_id_hint: [u8; 16],
    pub volume_index_hint: u32,
    pub image_sha256: [u8; 32],
    pub header_crc32c: u32,
}

/// Starts the sidecar that lets a reader begin without the volume's end.
#[derive(Debug, Clone, Copy, PartialEq, Eq)]
pub struct BootstrapSidecarHeader {
    pub archive_uuid: [u8; 16],
    pub session_id: [u8; 16],
    pub flags: u32,
    pub manifest_footer_offset: u64,
    pub manifest_footer_length: u32,
    pub index_root_records_offset: u64,
    pub index_root_records_length: u64,
    pub dictionary_records_offset: u64,
    pub dictionary_records_length: u64,
    pub sidecar_hmac: [u8; 32],
    pub header_crc32c: u32,
}

/// Starts an index shard.
#[derive(Debug, Clone, Copy, PartialEq, Eq)]
pub struct IndexShardHeader {
    pub version: u32,
    pub shard_index: u64,
    pub file_count: u32,
    pub frame_count: u32,
    pub envelope_count: u32,
    pub file_table_offset: u32,
    pub frame_table_offset: u32,
    pub envelope_table_offset: u32,
    pub string_pool_offset: u32,
    pub string_pool_size: u32,
}

/// One archive member in an index shard.
#[derive(Debug, Clone, Copy, PartialEq, Eq)]
pub struct FileEntry {
    pub path_hash: [u8; 8],
    pub path_offset: u32,
    pub path_length: u32,
    pub first_frame_index: u64,
    pub frame_count: u32,
    pub offset_in_first_frame_plaintext: u32,
    pub tar_member_group_size: u64,
    pub file_data_size: u64,
    pub flags: u32,
    pub mtime_nsec: u32,
    pub mtime_sec: i64,
    pub created_nsec: u32,
    pub created_sec: i64,
    pub accessed_nsec: u32,
    pub accessed_sec: i64,
    pub uid: u64,
    pub gid: u64,
    pub mode: u32,
    pub attributes: u32,
    pub uname_offset: u32,
    pub uname_length: u32,
    pub gname_offset: u32,
    pub gname_length: u32,
    pub link_target_offset: u32,
    pub link_target_length: u32,
    pub kind: u8,
    pub metadata_flags: u8,
}

/// One compressed frame of the payload.
#[derive(Debug, Clone, Copy, PartialEq, Eq)]
pub struct FrameEntry {
    pub frame_index: u64,
    pub envelope_index: u64,
    pub offset_in_envelope: u32,
    pub compressed_size: u32,
    pub decompressed_size: u32,
    pub flags: u32,
    pub tar_stream_offset: u64,
}

/// One sealed envelope of the payload.
#[derive(Debug, Clone, Copy, PartialEq, Eq)]
pub struct EnvelopeEntry {
    pub envelope_index: u64,
    pub first_block_index: u64,
    pub data_block_count: u32,
    pub parity_block_count: u32,
    pub encrypted_size: u32,
    pub plaintext_size: u32,
    pub first_frame_index: u64,
    pub frame_count: u32,
}

/// One index shard in the index root.
#[derive(Debug, Clone, Copy, PartialEq, Eq)]
pub struct ShardEntry {
    pub shard_index: u64,
    pub first_block_index: u64,
    pub data_block_count: u32,
    pub parity_block_count: u32,
    pub encrypted_size: u32,
    pub decompressed_size: u32,
    pub file_count: u32,
    pub first_path_hash: [u8; 8],
    pub last_path_hash: [u8; 8],
}

/// One directory-hint shard in the index root.
#[derive(Debug, Clone, Copy, PartialEq, Eq)]
pub struct DirectoryHintShardEntry {
    pub hint_shard_index: u64,
    pub first_dir_hash: [u8; 8],
    pub last_dir_hash: [u8; 8],
    pub first_block_index: u64,
    pub data_block_count: u32,
    pub parity_block_count: u32,
    pub encrypted_size: u32,
    pub decompressed_size: u32,
    pub entry_count: u64,
}

/// Starts a directory-hint table.
#[derive(Debug, Clone, Copy, PartialEq, Eq)]
pub struct DirectoryHintTableHeader {
    pub version: u32,
    pub hint_shard_index: u64,
    pub entry_count: u64,
    pub entry_table_offset: u64,
    pub shard_list_offset: u64,
    pub string_pool_offset: u64,
    pub string_pool_size: u64,
}

/// One directory in a directory-hint table.
#[derive(Debug, Clone, Copy, PartialEq, Eq)]
pub struct DirectoryHintEntry {
    pub dir_hash: [u8; 8],
    pub path_offset: u64,
    pub path_length: u32,
    pub shard_list_start_index: u32,
    pub shard_count: u32,
}

/// A record whose length does not depend on its content.
#[derive(Debug, Clone, Copy, PartialEq, Eq)]
pub enum Record {
    VolumeHeader(VolumeHeader),
    CryptoHeaderFixed(CryptoHeaderFixed),
    ManifestFooter(ManifestFooter),
    VolumeTrailer(VolumeTrailer),
    RecoveryLocator(CriticalRecoveryLocator),
    RecoveryHeader(CriticalMetadataRecoveryHeader),
    SidecarHeader(BootstrapSidecarHeader),
    IndexShardHeader(IndexShardHeader),
    FileEntry(FileEntry),
    FrameEntry(FrameEntry),
    EnvelopeEntry(EnvelopeEntry),
    HintTableHeader(DirectoryHintTableHeader),
    HintEntry(DirectoryHintEntry),
}

/// The counts of an index root.
#[derive(Debug, Clone, Copy, PartialEq, Eq)]
pub struct IndexRootHeader {
    pub frame_count: u64,
    pub envelope_count: u64,
    pub file_count: u64,
    pub payload_block_count: u64,
    pub tar_total_size: u64,
    pub content_sha256: [u8; 32],
    pub dictionary_first_block: u64,
    pub dictionary_data_block_count: u32,
    pub dictionary_parity_block_count: u32,
    pub dictionary_encrypted_size: u32,
    pub dictionary_decompressed_size: u32,
}

/// The root of the index: its counts and the shards that it spans.
#[derive(Debug, Clone, PartialEq, Eq)]
pub struct IndexRoot {
    pub header: IndexRootHeader,
    pub shards: Vec<ShardEntry>,
    pub directory_hint_shards: Vec<DirectoryHintShardEntry>,
}

/// An index root by content.
pub struct IndexRootValue {
    pub header: IndexRootHeader,
    pub shards: Seq<ShardEntry>,
    pub directory_hint_shards: Seq<DirectoryHintShardEntry>,
}

impl View for IndexRoot {
    type V = IndexRootValue;

    open spec fn view(&self) -> IndexRootValue {
        IndexRootValue {
            header: self.header,
            shards: self.shards@,
            directory_hint_shards: self.directory_hint_shards@,
        }
    }
}

/// One block of a volume.
#[derive(Debug, Clone, PartialEq, Eq)]
pub struct BlockRecord {
    pub block_index: u64,
    pub kind: BlockKind,
    pub flags: u8,
    pub payload: Vec<u8>,
}

/// A block by content.
pub struct BlockValue {
    pub block_index: u64,
    pub kind: BlockKind,
    pub flags: u8,
    pub payload: Seq<u8>,
}

impl View for BlockRecord {
    type V = BlockValue;

    open spec fn view(&self) -> BlockValue {
        BlockValue {
            block_index: self.block_index,
            kind: self.kind,
            flags: self.flags,
            payload: self.payload@,
        }
    }
}

/// One shard of a critical-metadata recovery area.
#[derive(Debug, Clone, PartialEq, Eq)]
pub struct CriticalMetadataRecoveryShard {
    pub shard_index: u16,
    pub shard_role: u8,
    pub shard_payload_length: u32,
    pub payload: Vec<u8>,
}

/// A part of the volume that its critical-metadata image repeats.
#[derive(Debug, Clone, PartialEq, Eq)]
pub struct SerializedRegion {
    pub region_type: u16,
    pub offset: u64,
    pub bytes: Vec<u8>,
}

/// A repeated part of a volume by content.
pub struct RegionValue {
    pub region_type: u16,
    pub offset: u64,
    pub bytes: Seq<u8>,
}

impl View for SerializedRegion {
    type V = RegionValue;

    open spec fn view(&self) -> RegionValue {
        RegionValue { region_type: self.region_type, offset: self.offset, bytes: self.bytes@ }
    }
}

/// Where the critical parts of a volume lie, and their digests.
#[derive(Debug, Clone, Copy, PartialEq, Eq)]
pub struct CriticalMetadataLayout {
    pub volume_format_rev: u16,
    pub archive_uuid: [u8; 16],
    pub session_id: [u8; 16],
    pub volume_index: u32,
    pub stripe_width: u32,
    pub layout_flags: u32,
    pub volume_header_offset: u64,
    pub volume_header_length: u32,
    pub crypto_header_offset: u64,
    pub crypto_header_length: u32,
    pub key_wrap_table_offset: u64,
    pub key_wrap_table_length: u32,
    pub block_records_offset: u64,
    pub block_records_length: u64,
    pub block_count: u64,
    pub manifest_footer_offset: u64,
    pub manifest_footer_length: u32,
    pub root_auth_footer_offset: u64,
    pub root_auth_footer_length: u32,
    pub volume_trailer_offset: u64,
    pub volume_trailer_length: u32,
    pub body_bytes_before_cmra: u64,
    pub volume_header_sha256: [u8; 32],
    pub crypto_header_sha256: [u8; 32],
    pub key_wrap_table_sha256: [u8; 32],
    pub manifest_footer_sha256: [u8; 32],
    pub root_auth_footer_sha256: [u8; 32],
    pub volume_trailer_sha256: [u8; 32],
}

/// Authenticates an archive as a whole.
#[derive(Debug, Clone, PartialEq, Eq)]
pub struct RootAuthFooterV1 {
    pub archive_uuid: [u8; 16],
    pub session_id: [u8; 16],
    pub format_version: u16,
    pub volume_format_rev: u16,
    pub authenticator_id: u16,
    pub signer_identity_type: u16,
    pub signer_identity_bytes: Vec<u8>,
    pub authenticator_value: Vec<u8>,
    pub total_data_block_count: u64,
    pub critical_metadata_digest: [u8; 32],
    pub index_digest: [u8; 32],
    pub fec_layout_digest: [u8; 32],
    pub data_block_merkle_root: [u8; 32],
    pub signer_identity_digest: [u8; 32],
    pub archive_root: [u8; 32],
}

/// A root-authentication footer by content.
pub struct RootAuthFooterValue {
    pub archive_uuid: [u8; 16],
    pub session_id: [u8; 16],
    pub format_version: u16,
    pub volume_format_rev: u16,
    pub authenticator_id: u16,
    pub signer_identity_type: u16,
    pub signer_identity_bytes: Seq<u8>,
    pub authenticator_value: Seq<u8>,
    pub total_data_block_count: u64,
    pub critical_metadata_digest: [u8; 32],
    pub index_digest: [u8; 32],
    pub fec_layout_digest: [u8; 32],
    pub data_block_merkle_root: [u8; 32],
    pub signer_identity_digest: [u8; 32],
    pub archive_root: [u8; 32],
}

impl View for RootAuthFooterV1 {
    type V = RootAuthFooterValue;

    open spec fn view(&self) -> RootAuthFooterValue {
        RootAuthFooterValue {
            archive_uuid: self.archive_uuid,
            session_id: self.session_id,
            format_version: self.format_version,
            volume_format_rev: self.volume_format_rev,
            authenticator_id: self.authenticator_id,
            signer_identity_type: self.signer_identity_type,
            signer_identity_bytes: self.signer_identity_bytes@,
            authenticator_value: self.authenticator_value@,
            total_data_block_count: self.total_data_block_count,
            critical_metadata_digest: self.critical_metadata_digest,
            index_digest: self.index_digest,
            fec_layout_digest: self.fec_layout_digest,
            data_block_merkle_root: self.data_block_merkle_root,
            signer_identity_digest: self.signer_identity_digest,
            archive_root: self.archive_root,
        }
    }
}

/// The master key wrapped for one recipient.
#[derive(Debug, Clone, PartialEq, Eq)]
pub struct RecipientRecordV1 {
    pub record_length: u32,
    pub profile_id: u16,
    pub recipient_identity_type: u16,
    pub flags: u32,
    pub recipient_identity_length: u32,
    pub profile_payload_length: u32,
    pub recipient_identity_digest: [u8; 32],
    pub recipient_identity_bytes: Vec<u8>,
    pub profile_payload_bytes: Vec<u8>,
}

/// A recipient record by content.
pub struct RecipientValue {
    pub record_length: u32,
    pub profile_id: u16,
    pub recipient_identity_type: u16,
    pub flags: u32,
    pub recipient_identity_length: u32,
    pub profile_payload_length: u32,
    pub recipient_identity_digest: [u8; 32],
    pub recipient_identity_bytes: Seq<u8>,
    pub profile_payload_bytes: Seq<u8>,
}

impl View for RecipientRecordV1 {
    type V = RecipientValue;

    open spec fn view(&self) -> RecipientValue {
        RecipientValue {
            record_length: self.record_length,
            profile_id: self.profile_id,
            recipient_identity_type: self.recipient_identity_type,
            flags: self.flags,
            recipient_identity_length: self.recipient_identity_length,
            profile_payload_length: self.profile_payload_length,
            recipient_identity_digest: self.recipient_identity_digest,
            recipient_identity_bytes: self.recipient_identity_bytes@,
            profile_payload_bytes: self.profile_payload_bytes@,
        }
    }
}

/// Starts the table of recipient records.
#[derive(Debug, Clone, Copy, PartialEq, Eq)]
pub struct KeyWrapTableHeader {
    pub version: u16,
    pub volume_format_rev: u16,
    pub table_length: u32,
    pub flags: u32,
    pub archive_uuid: [u8; 16],
    pub session_id: [u8; 16],
    pub recipient_record_count: u32,
    pub records_offset: u32,
    pub records_length: u32,
}

/// One object in the layout that root authentication covers.
#[derive(Debug, Clone, Copy, PartialEq, Eq)]
pub struct FecLayoutObjectRow {
    pub object_class: u8,
    pub present: bool,
    pub object_id: u64,
    pub first_block_index: u64,
    pub data_block_count: u32,
    pub parity_block_count: u32,
    pub encrypted_size: u32,
    pub plain_size: u32,
}

} // verus!
