//! The byte-level services that an archive is built from.
//!
//! Compression, sealing, recovery codes, digests and record layouts are functions of their
//! arguments. The writer is generic over them, and its contracts speak of their results by the
//! specification functions of `ArchiveCodec`.
use crate::emit::volume_header;
use crate::errors::{bytes_agree, FormatError};
use crate::format::{AeadAlgo, BlockKind, CompressionAlgo, FecAlgo, KdfAlgo};
use crate::keys::{MasterKey, Subkeys};
use crate::options::opt_bytes;
use crate::wire::{
    BlockRecord, BlockValue, CriticalMetadataLayout, FecLayoutObjectRow, IndexRoot, IndexRootValue,
    KeyWrapTableHeader, RecipientRecordV1, RecipientValue, Record, RegionValue, RootAuthFooterV1,
    RootAuthFooterValue, SerializedRegion,
};
use vstd::pervasive::arbitrary;
use vstd::prelude::*;

verus! {

/// The numbers that a revision of the container format fixes: its version, the codes of the
/// key-derivation schemes and the lengths of its records.
#[derive(Debug, Clone, Copy, PartialEq, Eq, Structural)]
pub struct WireLayout {
    pub format_version: u16,
    pub kdf_no_key: u16,
    pub kdf_raw: u16,
    pub kdf_argon2id: u16,
    pub kdf_recipient_wrap: u16,
    pub volume_header: u16,
    pub crypto_header_fixed: u16,
    pub block_record_framing: u16,
    pub manifest_footer: u16,
    pub volume_trailer: u16,
    pub recovery_locator: u16,
    pub recovery_header: u16,
    pub sidecar_header: u16,
    pub root_auth_footer_fixed: u16,
    pub index_shard_header: u16,
    pub file_entry: u16,
    pub frame_entry: u16,
    pub envelope_entry: u16,
    pub hint_table_header: u16,
    pub hint_entry: u16,
}

/// Bytes of a manifest footer in front of its tag.
pub const MANIFEST_FOOTER_COVERED: usize = 104;

/// Bytes of a volume trailer in front of its tag.
pub const VOLUME_TRAILER_COVERED: usize = 96;

/// Bytes of a sidecar header in front of its tag.
pub const SIDECAR_HEADER_COVERED: usize = 92;

impl WireLayout {
    /// Whether the records that carry a tag are long enough for what the tag covers.
    pub open spec fn wf(self) -> bool {
        &&& self.manifest_footer >= MANIFEST_FOOTER_COVERED
        &&& self.volume_trailer >= VOLUME_TRAILER_COVERED
        &&& self.sidecar_header >= SIDECAR_HEADER_COVERED
    }

    pub open spec fn spec_kdf_code(self, algo: KdfAlgo) -> u16 {
        match algo {
            KdfAlgo::NoKey => self.kdf_no_key,
            KdfAlgo::Raw => self.kdf_raw,
            KdfAlgo::Argon2id => self.kdf_argon2id,
            KdfAlgo::RecipientWrap => self.kdf_recipient_wrap,
        }
    }

    /// The number that stands for a key-derivation scheme.
    pub fn kdf_code(&self, algo: KdfAlgo) -> (r: u16)
        ensures
            r == self.spec_kdf_code(algo),
    {
        match algo {
            KdfAlgo::NoKey => self.kdf_no_key,
            KdfAlgo::Raw => self.kdf_raw,
            KdfAlgo::Argon2id => self.kdf_argon2id,
            KdfAlgo::RecipientWrap => self.kdf_recipient_wrap,
        }
    }

    pub open spec fn len_of(self, record: Record) -> nat {
        match record {
            Record::VolumeHeader(_) => self.volume_header as nat,
            Record::CryptoHeaderFixed(_) => self.crypto_header_fixed as nat,
            Record::ManifestFooter(_) => self.manifest_footer as nat,
            Record::VolumeTrailer(_) => self.volume_trailer as nat,
            Record::RecoveryLocator(_) => self.recovery_locator as nat,
            Record::RecoveryHeader(_) => self.recovery_header as nat,
            Record::SidecarHeader(_) => self.sidecar_header as nat,
            Record::IndexShardHeader(_) => self.index_shard_header as nat,
            Record::FileEntry(_) => self.file_entry as nat,
            Record::FrameEntry(_) => self.frame_entry as nat,
            Record::EnvelopeEntry(_) => self.envelope_entry as nat,
            Record::HintTableHeader(_) => self.hint_table_header as nat,
            Record::HintEntry(_) => self.hint_entry as nat,
        }
    }

    /// The length of a record.
    pub fn record_len(&self, record: &Record) -> (r: usize)
        ensures
            r == self.len_of(*record),
    {
        let len: u16 = match record {
            Record::VolumeHeader(_) => self.volume_header,
            Record::CryptoHeaderFixed(_) => self.crypto_header_fixed,
            Record::ManifestFooter(_) => self.manifest_footer,
            Record::VolumeTrailer(_) => self.volume_trailer,
            Record::RecoveryLocator(_) => self.recovery_locator,
            Record::RecoveryHeader(_) => self.recovery_header,
            Record::SidecarHeader(_) => self.sidecar_header,
            Record::IndexShardHeader(_) => self.index_shard_header,
            Record::FileEntry(_) => self.file_entry,
            Record::FrameEntry(_) => self.frame_entry,
            Record::EnvelopeEntry(_) => self.envelope_entry,
            Record::HintTableHeader(_) => self.hint_table_header,
            Record::HintEntry(_) => self.hint_entry,
        };
        len as usize
    }
}

/// What a tag authenticates.
#[derive(Debug, Clone, Copy, PartialEq, Eq, Structural)]
pub enum HmacDomain {
    CryptoHeader,
    ManifestFooter,
    VolumeTrailer,
    BootstrapSidecar,
}

/// A tag is computed over these values.
#[derive(Debug, Clone, Copy, PartialEq, Eq)]
pub struct TagContext {
    pub domain: HmacDomain,
    pub aead_algo: AeadAlgo,
    pub volume_format_rev: u16,
    pub mac_key: [u8; 32],
    pub archive_uuid: [u8; 16],
    pub session_id: [u8; 16],
}

/// An object is sealed under these values.
#[derive(Debug, Clone, Copy, PartialEq, Eq)]
pub struct SealContext {
    pub nonce_seed: [u8; 32],
    pub domain: ObjectDomain,
    pub archive_uuid: [u8; 16],
    pub session_id: [u8; 16],
    pub counter: u64,
}

/// The kinds of objects, which never share a nonce.
#[derive(Debug, Clone, Copy, PartialEq, Eq, Structural)]
pub enum ObjectDomain {
    Envelope,
    IndexShard,
    Dictionary,
    DirectoryHint,
    IndexRoot,
}

/// Values that the digest of the critical metadata covers beside the byte strings.
#[derive(Debug, Clone, Copy, PartialEq, Eq)]
pub struct CriticalMetadataFacts {
    pub archive_uuid: [u8; 16],
    pub session_id: [u8; 16],
    pub format_version: u16,
    pub volume_format_rev: u16,
    pub stripe_width: u32,
    pub total_volumes: u32,
    pub crypto_header: crate::wire::CryptoHeaderFixed,
    pub index_root: crate::object_plan::ObjectExtent,
    pub index_root_decompressed_size: u32,
    pub root_auth_descriptor_digest: [u8; 32],
}

/// Values that the archive root binds together.
#[derive(Debug, Clone, Copy, PartialEq, Eq)]
pub struct ArchiveRootFacts {
    pub archive_uuid: [u8; 16],
    pub session_id: [u8; 16],
    pub format_version: u16,
    pub volume_format_rev: u16,
    pub compression_algo: CompressionAlgo,
    pub aead_algo: AeadAlgo,
    pub fec_algo: FecAlgo,
    pub kdf_algo: KdfAlgo,
    pub critical_metadata_digest: [u8; 32],
    pub index_digest: [u8; 32],
    pub fec_layout_digest: [u8; 32],
    pub total_data_block_count: u64,
    pub data_block_merkle_root: [u8; 32],
    pub root_auth_descriptor_digest: [u8; 32],
    pub signer_identity_digest: [u8; 32],
}

/// Who signs an archive.
#[derive(Debug, Clone, Copy, PartialEq, Eq)]
pub struct RootAuthDescriptor {
    pub authenticator_id: u16,
    pub signer_identity_type: u16,
    pub authenticator_value_length: u32,
    pub footer_length: u32,
}

/// Bytes of the blocks that a payload of `len` bytes fills with its tag and some padding.
pub open spec fn filled_size(len: int, tag_len: int, block_size: int) -> int {
    ((len + tag_len) / block_size + 1) * block_size
}

/// The contents of a list of byte strings.
pub open spec fn contents_of(shards: Seq<Vec<u8>>) -> Seq<Seq<u8>> {
    Seq::new(shards.len(), |i: int| shards[i]@)
}

/// Whether `r` and `s` are the same outcome, lists of byte strings compared by content.
pub open spec fn shards_agree(
    r: Result<Vec<Vec<u8>>, FormatError>,
    s: Result<Seq<Seq<u8>>, FormatError>,
) -> bool {
    match (r, s) {
        (Ok(v), Ok(w)) => contents_of(v@) == w,
        (Err(e), Err(f)) => e == f,
        _ => false,
    }
}

/// The values behind a list.
pub open spec fn region_values(regions: Seq<SerializedRegion>) -> Seq<RegionValue> {
    Seq::new(regions.len(), |i: int| regions[i]@)
}

pub open spec fn recipient_values(records: Seq<RecipientRecordV1>) -> Seq<RecipientValue> {
    Seq::new(records.len(), |i: int| records[i]@)
}

/// The services of one revision of the container format.
///
/// Each executable method computes the specification function before it. A codec outside verified
/// code leaves those functions out: they then stand for what its methods compute, and nothing more
/// is known of them.
pub trait ArchiveCodec {
    closed spec fn spec_layout(&self) -> WireLayout {
        arbitrary()
    }

    /// The numbers of the format revision.
    fn layout(&self) -> (r: WireLayout)
        ensures
            r == self.spec_layout(),
            r.wf(),
    ;

    closed spec fn encoded(&self, record: Record) -> Seq<u8> {
        arbitrary()
    }

    /// The bytes of a record.
    fn encode(&self, record: &Record) -> (r: Vec<u8>)
        ensures
            r@ == self.encoded(*record),
            r@.len() == self.spec_layout().len_of(*record),
    ;

    closed spec fn block_bytes(&self, block: BlockValue) -> Seq<u8> {
        arbitrary()
    }

    /// The bytes of a block: its payload and the framing around it.
    fn encode_block(&self, block_index: u64, kind: BlockKind, flags: u8, payload: &[u8]) -> (r: Vec<
        u8,
    >)
        ensures
            r@ == self.block_bytes(BlockValue { block_index, kind, flags, payload: payload@ }),
            r@.len() == payload@.len() + self.spec_layout().block_record_framing,
    ;

    closed spec fn index_root_bytes(&self, root: IndexRootValue) -> Seq<u8> {
        arbitrary()
    }

    /// The bytes of an index root.
    fn encode_index_root(&self, root: &IndexRoot) -> (r: Vec<u8>)
        ensures
            r@ == self.index_root_bytes(root@),
    ;

    closed spec fn image_bytes(&self, layout: CriticalMetadataLayout, regions: Seq<RegionValue>) -> Result<
        Seq<u8>,
        FormatError,
    > {
        arbitrary()
    }

    /// The bytes of a critical-metadata image.
    fn encode_image(&self, layout: &CriticalMetadataLayout, regions: &Vec<SerializedRegion>) -> (r:
        Result<Vec<u8>, FormatError>)
        ensures
            bytes_agree(r, self.image_bytes(*layout, region_values(regions@))),
    ;

    closed spec fn recovery_shard_bytes(
        &self,
        shard_index: u16,
        shard_role: u8,
        payload_length: u32,
        payload: Seq<u8>,
    ) -> Result<Seq<u8>, FormatError> {
        arbitrary()
    }

    /// The bytes of a shard of a recovery area.
    fn encode_recovery_shard(
        &self,
        shard_index: u16,
        shard_role: u8,
        payload_length: u32,
        payload: &[u8],
    ) -> (r: Result<Vec<u8>, FormatError>)
        ensures
            bytes_agree(
                r,
                self.recovery_shard_bytes(shard_index, shard_role, payload_length, payload@),
            ),
    ;

    closed spec fn root_auth_footer_bytes(&self, footer: RootAuthFooterValue) -> Result<
        Seq<u8>,
        FormatError,
    > {
        arbitrary()
    }

    /// The bytes of a root-authentication footer.
    fn encode_root_auth_footer(&self, footer: &RootAuthFooterV1) -> (r: Result<Vec<u8>, FormatError>)
        ensures
            bytes_agree(r, self.root_auth_footer_bytes(footer@)),
    ;

    closed spec fn recipient_bytes(&self, record: RecipientValue) -> Result<Seq<u8>, FormatError> {
        arbitrary()
    }

    /// The bytes of a recipient record.
    fn encode_recipient(&self, record: &RecipientRecordV1) -> (r: Result<Vec<u8>, FormatError>)
        ensures
            bytes_agree(r, self.recipient_bytes(record@)),
    ;

    closed spec fn key_wrap_table_bytes(
        &self,
        header: KeyWrapTableHeader,
        records: Seq<RecipientValue>,
    ) -> Result<Seq<u8>, FormatError> {
        arbitrary()
    }

    /// The bytes of a key-wrap table.
    fn encode_key_wrap_table(
        &self,
        header: &KeyWrapTableHeader,
        records: &Vec<RecipientRecordV1>,
    ) -> (r: Result<Vec<u8>, FormatError>)
        ensures
            bytes_agree(r, self.key_wrap_table_bytes(*header, recipient_values(records@))),
    ;

    closed spec fn key_wrap_table_digest(&self, length: u32, table: Seq<u8>) -> [u8; 32] {
        arbitrary()
    }

    /// The digest that the key-derivation parameters record of a key-wrap table.
    fn digest_key_wrap_table(&self, length: u32, table: &[u8]) -> (r: [u8; 32])
        ensures
            r == self.key_wrap_table_digest(length, table@),
    ;

    closed spec fn compressed(
        &self,
        plain: Seq<u8>,
        level: i32,
        dictionary: Option<Seq<u8>>,
        jobs: usize,
    ) -> Result<Seq<u8>, FormatError> {
        arbitrary()
    }

    /// A compressed frame.
    fn compress(&self, plain: &[u8], level: i32, dictionary: Option<&[u8]>, jobs: usize) -> (r:
        Result<Vec<u8>, FormatError>)
        ensures
            bytes_agree(r, self.compressed(plain@, level, opt_bytes(dictionary), jobs)),
    ;

    closed spec fn derived_subkeys(
        &self,
        master_key: MasterKey,
        archive_uuid: [u8; 16],
        session_id: [u8; 16],
    ) -> Result<Subkeys, FormatError> {
        arbitrary()
    }

    /// The keys of an archive.
    fn derive_subkeys(
        &self,
        master_key: &MasterKey,
        archive_uuid: &[u8; 16],
        session_id: &[u8; 16],
    ) -> (r: Result<Subkeys, FormatError>)
        ensures
            r == self.derived_subkeys(*master_key, *archive_uuid, *session_id),
    ;

    closed spec fn padded(&self, payload: Seq<u8>, tag_len: nat, block_size: nat) -> Result<
        Seq<u8>,
        FormatError,
    > {
        arbitrary()
    }

    /// A payload padded for sealing: with its tag, it fills whole blocks.
    fn pad(&self, payload: &[u8], tag_len: usize, block_size: usize) -> (r: Result<
        Vec<u8>,
        FormatError,
    >)
        ensures
            bytes_agree(r, self.padded(payload@, tag_len as nat, block_size as nat)),
            block_size > 0 ==> (r matches Ok(padded) ==> padded@.len() + tag_len == filled_size(
                payload@.len() as int,
                tag_len as int,
                block_size as int,
            )),
    ;

    closed spec fn nonce(&self, context: SealContext, len: nat) -> Result<Seq<u8>, FormatError> {
        arbitrary()
    }

    /// The nonce of an object.
    fn derive_nonce(&self, context: &SealContext, len: usize) -> (r: Result<Vec<u8>, FormatError>)
        ensures
            bytes_agree(r, self.nonce(*context, len as nat)),
    ;

    closed spec fn aad(&self, context: SealContext) -> Result<Seq<u8>, FormatError> {
        arbitrary()
    }

    /// The associated data of an object.
    fn build_aad(&self, context: &SealContext) -> (r: Result<Vec<u8>, FormatError>)
        ensures
            bytes_agree(r, self.aad(*context)),
    ;

    closed spec fn sealed(
        &self,
        algo: AeadAlgo,
        key: [u8; 32],
        nonce: Seq<u8>,
        aad: Seq<u8>,
        plain: Seq<u8>,
    ) -> Result<Seq<u8>, FormatError> {
        arbitrary()
    }

    /// A sealed payload: as long as the payload and the tag.
    fn seal(&self, algo: AeadAlgo, key: &[u8; 32], nonce: &[u8], aad: &[u8], plain: &[u8]) -> (r:
        Result<Vec<u8>, FormatError>)
        requires
            algo != AeadAlgo::Unsealed,
        ensures
            bytes_agree(r, self.sealed(algo, *key, nonce@, aad@, plain@)),
            r matches Ok(sealed) ==> sealed@.len() == plain@.len() + algo.spec_tag_len(),
    ;

    closed spec fn tag(&self, context: TagContext, covered: Seq<u8>) -> Result<[u8; 32], FormatError> {
        arbitrary()
    }

    /// The tag over the covered bytes of a record.
    fn integrity_tag(&self, context: &TagContext, covered: &[u8]) -> (r: Result<
        [u8; 32],
        FormatError,
    >)
        ensures
            r == self.tag(*context, covered@),
    ;

    closed spec fn parity(&self, shards: Seq<Seq<u8>>, count: nat) -> Result<Seq<Seq<u8>>, FormatError> {
        arbitrary()
    }

    /// The parity shards of data shards of one length.
    fn encode_parity(&self, shards: &Vec<Vec<u8>>, count: usize) -> (r: Result<
        Vec<Vec<u8>>,
        FormatError,
    >)
        ensures
            shards_agree(r, self.parity(contents_of(shards@), count as nat)),
            r matches Ok(parity) ==> parity@.len() == count,
    ;

    closed spec fn path_hash(&self, path: Seq<u8>) -> [u8; 8] {
        arbitrary()
    }

    /// The hash that orders paths in the index.
    fn hash_prefix(&self, path: &[u8]) -> (r: [u8; 8])
        ensures
            r == self.path_hash(path@),
    ;

    closed spec fn normalized_path(&self, path: Seq<char>, max_len: u32) -> Result<Seq<u8>, FormatError> {
        arbitrary()
    }

    /// A path as the archive stores it.
    fn normalize_path(&self, path: &str, max_len: u32) -> (r: Result<Vec<u8>, FormatError>)
        ensures
            bytes_agree(r, self.normalized_path(path@, max_len)),
    ;

    closed spec fn path_check(&self, path: Seq<u8>, max_len: u32) -> Result<(), FormatError> {
        arbitrary()
    }

    /// Whether a stored path is acceptable.
    fn check_path(&self, path: &[u8], max_len: u32) -> (r: Result<(), FormatError>)
        ensures
            r == self.path_check(path@, max_len),
    ;

    closed spec fn symlink_check(&self, path: Seq<u8>, target: Seq<u8>) -> Result<(), FormatError> {
        arbitrary()
    }

    /// Whether a symbolic link may point to its target.
    fn check_symlink(&self, path: &[u8], target: &[u8]) -> (r: Result<(), FormatError>)
        ensures
            r == self.symlink_check(path@, target@),
    ;

    closed spec fn merkle_leaf(&self, volume_format_rev: u16, block: BlockValue) -> Result<
        [u8; 32],
        FormatError,
    > {
        arbitrary()
    }

    /// The digest of a data block.
    fn hash_leaf(&self, volume_format_rev: u16, block: &BlockRecord) -> (r: Result<
        [u8; 32],
        FormatError,
    >)
        ensures
            r == self.merkle_leaf(volume_format_rev, block@),
    ;

    closed spec fn merkle_root(&self, volume_format_rev: u16, leaves: Seq<[u8; 32]>) -> Result<
        [u8; 32],
        FormatError,
    > {
        arbitrary()
    }

    /// The digest over the digests of all data blocks.
    fn hash_leaves(&self, volume_format_rev: u16, leaves: &Vec<[u8; 32]>) -> (r: Result<
        [u8; 32],
        FormatError,
    >)
        ensures
            r == self.merkle_root(volume_format_rev, leaves@),
    ;

    closed spec fn descriptor_digest(
        &self,
        volume_format_rev: u16,
        descriptor: RootAuthDescriptor,
        signer_identity: Seq<u8>,
    ) -> Result<[u8; 32], FormatError> {
        arbitrary()
    }

    /// The digest of how an archive is signed.
    fn hash_descriptor(
        &self,
        volume_format_rev: u16,
        descriptor: &RootAuthDescriptor,
        signer_identity: &[u8],
    ) -> (r: Result<[u8; 32], FormatError>)
        ensures
            r == self.descriptor_digest(volume_format_rev, *descriptor, signer_identity@),
    ;

    closed spec fn signer_digest(&self, identity_type: u16, identity: Seq<u8>) -> Result<
        [u8; 32],
        FormatError,
    > {
        arbitrary()
    }

    /// The digest of who signs.
    fn hash_signer(&self, identity_type: u16, identity: &[u8]) -> (r: Result<[u8; 32], FormatError>)
        ensures
            r == self.signer_digest(identity_type, identity@),
    ;

    closed spec fn critical_digest(
        &self,
        facts: CriticalMetadataFacts,
        crypto_header: Seq<u8>,
        manifest: Seq<u8>,
    ) -> Result<[u8; 32], FormatError> {
        arbitrary()
    }

    /// The digest of the critical metadata.
    fn hash_critical(
        &self,
        facts: &CriticalMetadataFacts,
        crypto_header: &[u8],
        manifest: &[u8],
    ) -> (r: Result<[u8; 32], FormatError>)
        ensures
            r == self.critical_digest(*facts, crypto_header@, manifest@),
    ;

    closed spec fn index_digest(&self, volume_format_rev: u16, index_root: Seq<u8>) -> Result<
        [u8; 32],
        FormatError,
    > {
        arbitrary()
    }

    /// The digest of the index root.
    fn hash_index(&self, volume_format_rev: u16, index_root: &[u8]) -> (r: Result<
        [u8; 32],
        FormatError,
    >)
        ensures
            r == self.index_digest(volume_format_rev, index_root@),
    ;

    closed spec fn layout_digest(&self, volume_format_rev: u16, rows: Seq<FecLayoutObjectRow>) -> Result<
        [u8; 32],
        FormatError,
    > {
        arbitrary()
    }

    /// The digest of where all objects lie.
    fn hash_layout(&self, volume_format_rev: u16, rows: &Vec<FecLayoutObjectRow>) -> (r: Result<
        [u8; 32],
        FormatError,
    >)
        ensures
            r == self.layout_digest(volume_format_rev, rows@),
    ;

    closed spec fn archive_root(&self, facts: ArchiveRootFacts) -> Result<[u8; 32], FormatError> {
        arbitrary()
    }

    /// The digest that a signature over the archive signs.
    fn hash_archive(&self, facts: &ArchiveRootFacts) -> (r: Result<[u8; 32], FormatError>)
        ensures
            r == self.archive_root(*facts),
    ;

    closed spec fn root_auth_spec_id(&self, volume_format_rev: u16) -> Result<[u8; 24], FormatError> {
        arbitrary()
    }

    /// The identifier of the signing scheme.
    fn signing_scheme(&self, volume_format_rev: u16) -> (r: Result<[u8; 24], FormatError>)
        ensures
            r == self.root_auth_spec_id(volume_format_rev),
    ;
}

} // verus!
