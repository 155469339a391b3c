//! Services that store everything as it is: nothing is compressed, sealed or protected. An archive
//! written with them has the shape of a real one, shows how large its parts become, and can be read
//! back.
use crate::archive_reading::{
    archives_in_memory_read_back, file_reads_back, keys_of, undoes_throughout,
};
use crate::byte_map::ByteMap;
use crate::bytes::{append, to_bytes, zero_vec, zeros};
use crate::codec::{
    contents_of, recipient_values, region_values, ArchiveCodec, ArchiveRootFacts,
    CriticalMetadataFacts, MANIFEST_FOOTER_COVERED, RootAuthDescriptor, SIDECAR_HEADER_COVERED,
    SealContext, TagContext, VOLUME_TRAILER_COVERED, WireLayout,
};
use crate::digest::{sha256, sha256_bytes};
use crate::errors::FormatError;
use crate::format::{AeadAlgo, BlockKind};
use crate::key_wrap::KEY_WRAP_RECORDS_OFFSET;
use crate::keys::{MasterKey, NO_KEY, Subkeys};
use crate::metadata::{ArchiveTimestamp, TarEntryKind};
use crate::native_flag::{native_bit_is_its_own, starts_portable};
use crate::object_plan::sealed_size;
use crate::options::{opt_bytes, WriterOptions};
use crate::pax::pax_map;
use crate::plan::PlanValue;
use crate::profile::{AuxiliaryDeclaration, DeclarationValue, EntryFlagBits, MetadataProfile};
use crate::reading::{undoes, Decoder};
use crate::root_auth::{ROOT_AUTH_CHECKSUM_LEN, RootAuthSigningRequest};
use crate::seal::{sealed_payload, ObjectEncryptionContext};
use crate::seek::frame_bytes;
use crate::sizes::{keeps_footer_lengths, keeps_lengths, same_lengths};
use crate::source::RegularFile;
use crate::text::{text, text_bytes};
use crate::two_pass::{plans_pass, ArchiveOrder};
use crate::wire::{
    BlockRecord, BlockValue, CriticalMetadataLayout, FecLayoutObjectRow, IndexRoot, IndexRootValue,
    KeyWrapTableHeader, RecipientRecordV1, RecipientValue, Record, RegionValue, RootAuthFooterV1,
    RootAuthFooterValue, SerializedRegion,
};
use crate::writer::{archives, WrittenArchive};
use vstd::prelude::*;

verus! {

/// Bytes of an index root for each shard that it names, and in front of the first.
pub const PLAIN_ROOT_ENTRY: usize = 64;

/// Bytes in front of the payload of a block that tell its number, its kind and its flags.
pub const PLAIN_BLOCK_HEAD: usize = 10;

/// Stores everything as it is.
pub struct PlainCodec {
    layout: WireLayout,
}

impl PlainCodec {
    #[verifier::type_invariant]
    spec fn is_laid_out(self) -> bool {
        self.layout.wf()
    }

    /// Services with records of given lengths, if those hold what their tags cover.
    pub fn new(layout: WireLayout) -> (r: Option<PlainCodec>)
        ensures
            r is Some <==> layout.wf(),
            r matches Some(codec) ==> codec.spec_layout() == layout,
    {
        if (layout.manifest_footer as usize) < MANIFEST_FOOTER_COVERED
            || (layout.volume_trailer as usize) < VOLUME_TRAILER_COVERED
            || (layout.sidecar_header as usize) < SIDECAR_HEADER_COVERED {
            return None;
        }
        Some(PlainCodec { layout })
    }
}

/// The bytes of the first `count` regions, one behind the other.
pub open spec fn joined_regions(regions: Seq<RegionValue>, count: nat) -> Seq<u8>
    decreases count,
{
    if count == 0 {
        Seq::empty()
    } else {
        joined_regions(regions, (count - 1) as nat) + regions[count - 1].bytes
    }
}

/// A recipient record: who it is for, and what only that one can read.
pub open spec fn plain_recipient(record: RecipientValue) -> Seq<u8> {
    record.recipient_identity_bytes + record.profile_payload_bytes
}

/// The first `count` recipient records, one behind the other.
pub open spec fn joined_recipients(records: Seq<RecipientValue>, count: nat) -> Seq<u8>
    decreases count,
{
    if count == 0 {
        Seq::empty()
    } else {
        joined_recipients(records, (count - 1) as nat) + plain_recipient(records[count - 1])
    }
}

/// The code of a kind of blocks.
pub open spec fn kind_number(kind: BlockKind) -> u8 {
    match kind {
        BlockKind::PayloadData => 0,
        BlockKind::PayloadParity => 1,
        BlockKind::IndexShardData => 2,
        BlockKind::IndexShardParity => 3,
        BlockKind::DictionaryData => 4,
        BlockKind::DictionaryParity => 5,
        BlockKind::DirectoryHintData => 6,
        BlockKind::DirectoryHintParity => 7,
        BlockKind::IndexRootData => 8,
        BlockKind::IndexRootParity => 9,
    }
}

fn number_of_kind(kind: BlockKind) -> (r: u8)
    ensures
        r == kind_number(kind),
{
    match kind {
        BlockKind::PayloadData => 0,
        BlockKind::PayloadParity => 1,
        BlockKind::IndexShardData => 2,
        BlockKind::IndexShardParity => 3,
        BlockKind::DictionaryData => 4,
        BlockKind::DictionaryParity => 5,
        BlockKind::DirectoryHintData => 6,
        BlockKind::DirectoryHintParity => 7,
        BlockKind::IndexRootData => 8,
        BlockKind::IndexRootParity => 9,
    }
}

/// The number, the kind and the flags of a block.
pub open spec fn plain_head(block: BlockValue) -> Seq<u8> {
    vstd::bytes::spec_u64_to_le_bytes(block.block_index) + seq![
        kind_number(block.kind),
        block.flags,
    ]
}

/// Bytes cut or filled up with zeros to a length.
pub open spec fn fitted(bytes: Seq<u8>, len: int) -> Seq<u8> {
    if bytes.len() <= len {
        bytes + zeros(len - bytes.len())
    } else {
        bytes.take(len)
    }
}

/// Bytes behind a payload that make it and its tag fill whole blocks, and one at least.
pub open spec fn plain_padding(len: int, tag_len: int, block_size: int) -> int {
    block_size - (len + tag_len) % block_size
}

/// A payload with a mark and zeros behind it.
pub open spec fn marked(payload: Seq<u8>, len: int) -> Seq<u8> {
    payload + seq![1u8] + zeros(len - 1)
}

/// The first eight bytes of a digest.
pub open spec fn digest_prefix(digest: [u8; 32]) -> [u8; 8] {
    [
        digest@[0],
        digest@[1],
        digest@[2],
        digest@[3],
        digest@[4],
        digest@[5],
        digest@[6],
        digest@[7],
    ]
}

fn prefix_of(digest: &[u8; 32]) -> (r: [u8; 8])
    ensures
        r == digest_prefix(*digest),
{
    [
        digest[0],
        digest[1],
        digest[2],
        digest[3],
        digest[4],
        digest[5],
        digest[6],
        digest[7],
    ]
}

/// Copies of a byte string.
pub open spec fn copies(shard: Seq<u8>, count: nat) -> Seq<Seq<u8>> {
    Seq::new(count, |i: int| shard)
}

fn append_entries(out: &mut Vec<u8>, count: usize)
    ensures
        final(out)@ == old(out)@ + zeros(PLAIN_ROOT_ENTRY * count),
{
    let entry: Vec<u8> = zero_vec(PLAIN_ROOT_ENTRY);
    let mut i: usize = 0;
    assert(out@ =~= old(out)@ + zeros(0));
    while i < count
        invariant
            i <= count,
            entry@ == zeros(PLAIN_ROOT_ENTRY as int),
            out@ == old(out)@ + zeros(PLAIN_ROOT_ENTRY * i),
        decreases count - i,
    {
        append(out, entry.as_slice());
        i = i + 1;
        assert(out@ =~= old(out)@ + zeros(PLAIN_ROOT_ENTRY * i));
    }
}

impl ArchiveCodec for PlainCodec {
    closed spec fn spec_layout(&self) -> WireLayout {
        self.layout
    }

    fn layout(&self) -> (r: WireLayout) {
        proof {
            use_type_invariant(self);
        }
        self.layout
    }

    open spec fn encoded(&self, record: Record) -> Seq<u8> {
        zeros(self.spec_layout().len_of(record) as int)
    }

    fn encode(&self, record: &Record) -> (r: Vec<u8>) {
        zero_vec(self.layout.record_len(record))
    }

    open spec fn block_bytes(&self, block: BlockValue) -> Seq<u8> {
        fitted(plain_head(block), self.spec_layout().block_record_framing as int) + block.payload
    }

    fn encode_block(&self, block_index: u64, kind: BlockKind, flags: u8, payload: &[u8]) -> (r: Vec<
        u8,
    >) {
        let framing: usize = self.layout.block_record_framing as usize;
        let ghost block = BlockValue { block_index, kind, flags, payload: payload@ };
        let mut head: Vec<u8> = vstd::bytes::u64_to_le_bytes(block_index);
        head.push(number_of_kind(kind));
        head.push(flags);
        proof {
            vstd::bytes::lemma_auto_spec_u64_to_from_le_bytes();
            assert(head@ =~= plain_head(block));
        }
        let mut out: Vec<u8> = if head.len() <= framing {
            let filling: Vec<u8> = zero_vec(framing - head.len());
            append(&mut head, filling.as_slice());
            head
        } else {
            to_bytes(vstd::slice::slice_subrange(head.as_slice(), 0, framing))
        };
        assert(out@ =~= fitted(plain_head(block), framing as int));
        append(&mut out, payload);
        out
    }

    open spec fn index_root_bytes(&self, root: IndexRootValue) -> Seq<u8> {
        zeros(PLAIN_ROOT_ENTRY * (1 + root.shards.len() + root.directory_hint_shards.len()))
    }

    fn encode_index_root(&self, root: &IndexRoot) -> (r: Vec<u8>) {
        let mut out: Vec<u8> = zero_vec(PLAIN_ROOT_ENTRY);
        append_entries(&mut out, root.shards.len());
        append_entries(&mut out, root.directory_hint_shards.len());
        assert(out@ =~= self.index_root_bytes(root@));
        out
    }

    open spec fn image_bytes(&self, layout: CriticalMetadataLayout, regions: Seq<RegionValue>) -> Result<
        Seq<u8>,
        FormatError,
    > {
        Ok(joined_regions(regions, regions.len()))
    }

    fn encode_image(&self, layout: &CriticalMetadataLayout, regions: &Vec<SerializedRegion>) -> (r:
        Result<Vec<u8>, FormatError>) {
        let mut out: Vec<u8> = Vec::new();
        let ghost values = region_values(regions@);
        assert(out@ =~= Seq::empty());
        let mut i: usize = 0;
        while i < regions.len()
            invariant
                i <= regions@.len(),
                values == region_values(regions@),
                out@ == joined_regions(values, i as nat),
            decreases regions.len() - i,
        {
            append(&mut out, regions[i].bytes.as_slice());
            i = i + 1;
        }
        Ok(out)
    }

    open spec fn recovery_shard_bytes(
        &self,
        shard_index: u16,
        shard_role: u8,
        payload_length: u32,
        payload: Seq<u8>,
    ) -> Result<Seq<u8>, FormatError> {
        Ok(payload)
    }

    fn encode_recovery_shard(
        &self,
        shard_index: u16,
        shard_role: u8,
        payload_length: u32,
        payload: &[u8],
    ) -> (r: Result<Vec<u8>, FormatError>) {
        Ok(to_bytes(payload))
    }

    open spec fn root_auth_footer_bytes(&self, footer: RootAuthFooterValue) -> Result<
        Seq<u8>,
        FormatError,
    > {
        Ok(
            zeros(self.spec_layout().root_auth_footer_fixed as int) + footer.signer_identity_bytes
                + footer.authenticator_value + zeros(ROOT_AUTH_CHECKSUM_LEN as int),
        )
    }

    fn encode_root_auth_footer(&self, footer: &RootAuthFooterV1) -> (r: Result<
        Vec<u8>,
        FormatError,
    >) {
        let mut out: Vec<u8> = zero_vec(self.layout.root_auth_footer_fixed as usize);
        append(&mut out, footer.signer_identity_bytes.as_slice());
        append(&mut out, footer.authenticator_value.as_slice());
        let checksum: Vec<u8> = zero_vec(ROOT_AUTH_CHECKSUM_LEN);
        append(&mut out, checksum.as_slice());
        Ok(out)
    }

    open spec fn recipient_bytes(&self, record: RecipientValue) -> Result<Seq<u8>, FormatError> {
        Ok(plain_recipient(record))
    }

    fn encode_recipient(&self, record: &RecipientRecordV1) -> (r: Result<Vec<u8>, FormatError>) {
        let mut out: Vec<u8> = to_bytes(record.recipient_identity_bytes.as_slice());
        append(&mut out, record.profile_payload_bytes.as_slice());
        Ok(out)
    }

    open spec fn key_wrap_table_bytes(
        &self,
        header: KeyWrapTableHeader,
        records: Seq<RecipientValue>,
    ) -> Result<Seq<u8>, FormatError> {
        Ok(zeros(KEY_WRAP_RECORDS_OFFSET as int) + joined_recipients(records, records.len()))
    }

    fn encode_key_wrap_table(
        &self,
        header: &KeyWrapTableHeader,
        records: &Vec<RecipientRecordV1>,
    ) -> (r: Result<Vec<u8>, FormatError>) {
        let mut out: Vec<u8> = zero_vec(KEY_WRAP_RECORDS_OFFSET as usize);
        let ghost values = recipient_values(records@);
        let ghost head = out@;
        assert(out@ =~= head + joined_recipients(values, 0));
        let mut i: usize = 0;
        while i < records.len()
            invariant
                i <= records@.len(),
                values == recipient_values(records@),
                out@ == head + joined_recipients(values, i as nat),
            decreases records.len() - i,
        {
            append(&mut out, records[i].recipient_identity_bytes.as_slice());
            append(&mut out, records[i].profile_payload_bytes.as_slice());
            i = i + 1;
            assert(out@ =~= head + joined_recipients(values, i as nat));
        }
        Ok(out)
    }

    open spec fn key_wrap_table_digest(&self, length: u32, table: Seq<u8>) -> [u8; 32] {
        sha256(table)
    }

    fn digest_key_wrap_table(&self, length: u32, table: &[u8]) -> (r: [u8; 32]) {
        sha256_bytes(table)
    }

    /// The bytes behind a mark, so that no frame is empty.
    open spec fn compressed(
        &self,
        plain: Seq<u8>,
        level: i32,
        dictionary: Option<Seq<u8>>,
        jobs: usize,
    ) -> Result<Seq<u8>, FormatError> {
        Ok(seq![0u8] + plain)
    }

    fn compress(&self, plain: &[u8], level: i32, dictionary: Option<&[u8]>, jobs: usize) -> (r:
        Result<Vec<u8>, FormatError>) {
        let mut out: Vec<u8> = vec![0u8];
        append(&mut out, plain);
        assert(out@ =~= seq![0u8] + plain@);
        Ok(out)
    }

    open spec fn derived_subkeys(
        &self,
        master_key: MasterKey,
        archive_uuid: [u8; 16],
        session_id: [u8; 16],
    ) -> Result<Subkeys, FormatError> {
        Ok(Subkeys::spec_placeholder())
    }

    fn derive_subkeys(
        &self,
        master_key: &MasterKey,
        archive_uuid: &[u8; 16],
        session_id: &[u8; 16],
    ) -> (r: Result<Subkeys, FormatError>) {
        Ok(Subkeys::unencrypted_placeholder())
    }

    open spec fn padded(&self, payload: Seq<u8>, tag_len: nat, block_size: nat) -> Result<
        Seq<u8>,
        FormatError,
    > {
        if block_size == 0 {
            Err(FormatError::WriterInvariant("blocks without bytes"))
        } else {
            Ok(
                marked(
                    payload,
                    plain_padding(payload.len() as int, tag_len as int, block_size as int),
                ),
            )
        }
    }

    fn pad(&self, payload: &[u8], tag_len: usize, block_size: usize) -> (r: Result<
        Vec<u8>,
        FormatError,
    >) {
        if block_size == 0 {
            return Err(FormatError::WriterInvariant("blocks without bytes"));
        }
        let filled: u128 = (payload.len() as u128 + tag_len as u128) % (block_size as u128);
        let padding: Vec<u8> = zero_vec(block_size - filled as usize - 1);
        let mut out: Vec<u8> = to_bytes(payload);
        out.push(1);
        append(&mut out, padding.as_slice());
        assert(out@ =~= marked(payload@, block_size - filled));
        proof {
            let total = payload@.len() + tag_len as int;
            let size = block_size as int;
            vstd::arithmetic::div_mod::lemma_fundamental_div_mod(total, size);
            assert(size * (total / size) + size == (total / size + 1) * size) by (nonlinear_arith);
        }
        Ok(out)
    }

    open spec fn nonce(&self, context: SealContext, len: nat) -> Result<Seq<u8>, FormatError> {
        Ok(zeros(len as int))
    }

    fn derive_nonce(&self, context: &SealContext, len: usize) -> (r: Result<Vec<u8>, FormatError>) {
        Ok(zero_vec(len))
    }

    open spec fn aad(&self, context: SealContext) -> Result<Seq<u8>, FormatError> {
        Ok(Seq::empty())
    }

    fn build_aad(&self, context: &SealContext) -> (r: Result<Vec<u8>, FormatError>) {
        let out: Vec<u8> = Vec::new();
        assert(out@ =~= Seq::empty());
        Ok(out)
    }

    /// The payload, and zeros in place of a tag.
    open spec fn sealed(
        &self,
        algo: AeadAlgo,
        key: [u8; 32],
        nonce: Seq<u8>,
        aad: Seq<u8>,
        plain: Seq<u8>,
    ) -> Result<Seq<u8>, FormatError> {
        Ok(plain + zeros(algo.spec_tag_len() as int))
    }

    fn seal(&self, algo: AeadAlgo, key: &[u8; 32], nonce: &[u8], aad: &[u8], plain: &[u8]) -> (r:
        Result<Vec<u8>, FormatError>) {
        let mut out: Vec<u8> = to_bytes(plain);
        let tag: Vec<u8> = zero_vec(algo.tag_len());
        append(&mut out, tag.as_slice());
        Ok(out)
    }

    open spec fn tag(&self, context: TagContext, covered: Seq<u8>) -> Result<
        [u8; 32],
        FormatError,
    > {
        Ok(sha256(covered))
    }

    fn integrity_tag(&self, context: &TagContext, covered: &[u8]) -> (r: Result<
        [u8; 32],
        FormatError,
    >) {
        Ok(sha256_bytes(covered))
    }

    /// Copies of the first shard.
    open spec fn parity(&self, shards: Seq<Seq<u8>>, count: nat) -> Result<
        Seq<Seq<u8>>,
        FormatError,
    > {
        Ok(
            copies(
                if shards.len() == 0 {
                    Seq::empty()
                } else {
                    shards[0]
                },
                count,
            ),
        )
    }

    fn encode_parity(&self, shards: &Vec<Vec<u8>>, count: usize) -> (r: Result<
        Vec<Vec<u8>>,
        FormatError,
    >) {
        let ghost shard = if shards@.len() == 0 {
            Seq::empty()
        } else {
            contents_of(shards@)[0]
        };
        let mut out: Vec<Vec<u8>> = Vec::new();
        let mut i: usize = 0;
        while i < count
            invariant
                i <= count,
                out@.len() == i,
                shard == (if shards@.len() == 0 {
                    Seq::empty()
                } else {
                    shards@[0]@
                }),
                forall|k: int| 0 <= k < i ==> (#[trigger] out@[k])@ == shard,
            decreases count - i,
        {
            let copy: Vec<u8> = if shards.len() == 0 {
                Vec::new()
            } else {
                to_bytes(shards[0].as_slice())
            };
            assert(copy@ =~= shard);
            out.push(copy);
            i = i + 1;
        }
        assert(contents_of(out@) =~= copies(shard, count as nat));
        Ok(out)
    }

    open spec fn path_hash(&self, path: Seq<u8>) -> [u8; 8] {
        digest_prefix(sha256(path))
    }

    fn hash_prefix(&self, path: &[u8]) -> (r: [u8; 8]) {
        let digest: [u8; 32] = sha256_bytes(path);
        prefix_of(&digest)
    }

    open spec fn normalized_path(&self, path: Seq<char>, max_len: u32) -> Result<
        Seq<u8>,
        FormatError,
    > {
        let bytes = vstd::utf8::encode_utf8(path);
        if bytes.len() > max_len {
            Err(FormatError::WriterUnsupported("path is longer than the archive allows"))
        } else {
            Ok(bytes)
        }
    }

    fn normalize_path(&self, path: &str, max_len: u32) -> (r: Result<Vec<u8>, FormatError>) {
        let bytes: Vec<u8> = text_bytes(path);
        if bytes.len() as u64 > max_len as u64 {
            return Err(FormatError::WriterUnsupported("path is longer than the archive allows"));
        }
        Ok(bytes)
    }

    open spec fn path_check(&self, path: Seq<u8>, max_len: u32) -> Result<(), FormatError> {
        if path.len() > max_len {
            Err(FormatError::WriterUnsupported("path is longer than the archive allows"))
        } else {
            Ok(())
        }
    }

    fn check_path(&self, path: &[u8], max_len: u32) -> (r: Result<(), FormatError>) {
        if path.len() as u64 > max_len as u64 {
            return Err(FormatError::WriterUnsupported("path is longer than the archive allows"));
        }
        Ok(())
    }

    open spec fn symlink_check(&self, path: Seq<u8>, target: Seq<u8>) -> Result<(), FormatError> {
        Ok(())
    }

    fn check_symlink(&self, path: &[u8], target: &[u8]) -> (r: Result<(), FormatError>) {
        Ok(())
    }

    open spec fn merkle_leaf(&self, volume_format_rev: u16, block: BlockValue) -> Result<
        [u8; 32],
        FormatError,
    > {
        Ok(sha256(block.payload))
    }

    fn hash_leaf(&self, volume_format_rev: u16, block: &BlockRecord) -> (r: Result<
        [u8; 32],
        FormatError,
    >) {
        Ok(sha256_bytes(block.payload.as_slice()))
    }

    open spec fn merkle_root(&self, volume_format_rev: u16, leaves: Seq<[u8; 32]>) -> Result<
        [u8; 32],
        FormatError,
    > {
        if leaves.len() == 0 {
            Ok(NO_KEY)
        } else {
            Ok(leaves.last())
        }
    }

    fn hash_leaves(&self, volume_format_rev: u16, leaves: &Vec<[u8; 32]>) -> (r: Result<
        [u8; 32],
        FormatError,
    >) {
        if leaves.len() == 0 {
            Ok(NO_KEY)
        } else {
            Ok(leaves[leaves.len() - 1])
        }
    }

    open spec fn descriptor_digest(
        &self,
        volume_format_rev: u16,
        descriptor: RootAuthDescriptor,
        signer_identity: Seq<u8>,
    ) -> Result<[u8; 32], FormatError> {
        Ok(sha256(signer_identity))
    }

    fn hash_descriptor(
        &self,
        volume_format_rev: u16,
        descriptor: &RootAuthDescriptor,
        signer_identity: &[u8],
    ) -> (r: Result<[u8; 32], FormatError>) {
        Ok(sha256_bytes(signer_identity))
    }

    open spec fn signer_digest(&self, identity_type: u16, identity: Seq<u8>) -> Result<
        [u8; 32],
        FormatError,
    > {
        Ok(sha256(identity))
    }

    fn hash_signer(&self, identity_type: u16, identity: &[u8]) -> (r: Result<
        [u8; 32],
        FormatError,
    >) {
        Ok(sha256_bytes(identity))
    }

    open spec fn critical_digest(
        &self,
        facts: CriticalMetadataFacts,
        crypto_header: Seq<u8>,
        manifest: Seq<u8>,
    ) -> Result<[u8; 32], FormatError> {
        Ok(sha256(manifest))
    }

    fn hash_critical(
        &self,
        facts: &CriticalMetadataFacts,
        crypto_header: &[u8],
        manifest: &[u8],
    ) -> (r: Result<[u8; 32], FormatError>) {
        Ok(sha256_bytes(manifest))
    }

    open spec fn index_digest(&self, volume_format_rev: u16, index_root: Seq<u8>) -> Result<
        [u8; 32],
        FormatError,
    > {
        Ok(sha256(index_root))
    }

    fn hash_index(&self, volume_format_rev: u16, index_root: &[u8]) -> (r: Result<
        [u8; 32],
        FormatError,
    >) {
        Ok(sha256_bytes(index_root))
    }

    open spec fn layout_digest(&self, volume_format_rev: u16, rows: Seq<FecLayoutObjectRow>) -> Result<
        [u8; 32],
        FormatError,
    > {
        Ok(NO_KEY)
    }

    fn hash_layout(&self, volume_format_rev: u16, rows: &Vec<FecLayoutObjectRow>) -> (r: Result<
        [u8; 32],
        FormatError,
    >) {
        Ok(NO_KEY)
    }

    open spec fn archive_root(&self, facts: ArchiveRootFacts) -> Result<[u8; 32], FormatError> {
        Ok(facts.index_digest)
    }

    fn hash_archive(&self, facts: &ArchiveRootFacts) -> (r: Result<[u8; 32], FormatError>) {
        Ok(facts.index_digest)
    }

    open spec fn root_auth_spec_id(&self, volume_format_rev: u16) -> Result<
        [u8; 24],
        FormatError,
    > {
        Ok(PLAIN_SCHEME)
    }

    fn signing_scheme(&self, volume_format_rev: u16) -> (r: Result<[u8; 24], FormatError>) {
        Ok(PLAIN_SCHEME)
    }
}

/// The signing scheme of what nobody verifies.
pub const PLAIN_SCHEME: [u8; 24] = [0, 0, 0, 0, 0, 0, 0, 0, 0, 0, 0, 0, 0, 0, 0, 0, 0, 0, 0, 0, 0, 0, 0, 0];

/// Every payload fills the blocks that are planned for it.
pub proof fn plain_objects_have_the_planned_size(
    codec: &PlainCodec,
    payload: Seq<u8>,
    context: ObjectEncryptionContext,
    o: WriterOptions,
)
    requires
        o.block_size > 0,
    ensures
        sealed_payload(codec, payload, context, o) matches Ok(sealed) && sealed.len()
            == sealed_size(payload.len() as int, o),
{
    let total = payload.len() + o.aead_algo.spec_tag_len();
    let size = o.block_size as int;
    vstd::arithmetic::div_mod::lemma_fundamental_div_mod(total as int, size);
    assert(size * (total as int / size) + size == (total as int / size + 1) * size)
        by (nonlinear_arith);
}

proof fn joined_regions_are_of_one_length(a: Seq<RegionValue>, b: Seq<RegionValue>, count: nat)
    requires
        same_lengths(a, b),
        count <= a.len(),
    ensures
        joined_regions(a, count).len() == joined_regions(b, count).len(),
    decreases count,
{
    if count > 0 {
        joined_regions_are_of_one_length(a, b, (count - 1) as nat);
        assert(a[count - 1].bytes.len() == b[count - 1].bytes.len());
    }
}

/// The lengths of what the codec gives are settled.
pub proof fn plain_lengths_are_settled(codec: &PlainCodec)
    ensures
        keeps_lengths(codec),
        keeps_footer_lengths(codec),
{
    assert forall|
        a: CriticalMetadataLayout,
        b: CriticalMetadataLayout,
        r: Seq<RegionValue>,
        s: Seq<RegionValue>,
    |
        #![trigger codec.image_bytes(a, r), codec.image_bytes(b, s)]
        same_lengths(r, s) implies match (codec.image_bytes(a, r), codec.image_bytes(b, s)) {
        (Ok(x), Ok(y)) => x.len() == y.len(),
        _ => true,
    } by {
        joined_regions_are_of_one_length(r, s, r.len());
    }
}

// ---------------------------------------------------------------------------------------------
// Reading
// ---------------------------------------------------------------------------------------------

/// The kind of blocks with a code.
pub open spec fn kind_with_number(number: u8) -> BlockKind {
    if number == 0 {
        BlockKind::PayloadData
    } else if number == 1 {
        BlockKind::PayloadParity
    } else if number == 2 {
        BlockKind::IndexShardData
    } else if number == 3 {
        BlockKind::IndexShardParity
    } else if number == 4 {
        BlockKind::DictionaryData
    } else if number == 5 {
        BlockKind::DictionaryParity
    } else if number == 6 {
        BlockKind::DirectoryHintData
    } else if number == 7 {
        BlockKind::DirectoryHintParity
    } else if number == 8 {
        BlockKind::IndexRootData
    } else {
        BlockKind::IndexRootParity
    }
}

/// What stands in front of the last byte that is not zero.
pub open spec fn unmarked(bytes: Seq<u8>) -> Seq<u8>
    decreases bytes.len(),
{
    if bytes.len() == 0 {
        bytes
    } else if bytes.last() == 0 {
        unmarked(bytes.drop_last())
    } else {
        bytes.drop_last()
    }
}

proof fn marks_are_found(payload: Seq<u8>, len: int)
    requires
        len >= 1,
    ensures
        unmarked(marked(payload, len)) == payload,
    decreases len,
{
    if len == 1 {
        assert(marked(payload, len).drop_last() =~= payload);
    } else {
        marks_are_found(payload, len - 1);
        assert(marked(payload, len).drop_last() =~= marked(payload, len - 1));
    }
}

/// Reads what the codec stored in archives of a cipher.
pub open spec fn plain_decoder(codec: &PlainCodec, algo: AeadAlgo) -> Decoder {
    let framing = codec.spec_layout().block_record_framing as nat;
    let tag_len = algo.spec_tag_len();
    Decoder {
        block: |bytes: Seq<u8>|
            BlockValue {
                block_index: vstd::bytes::spec_u64_from_le_bytes(bytes.take(8)),
                kind: kind_with_number(bytes[8]),
                flags: bytes[9],
                payload: bytes.skip(framing as int),
            },
        framing,
        open: |context: ObjectEncryptionContext, sealed: Seq<u8>|
            unmarked(sealed.take(sealed.len() - tag_len)),
        inflate: |frame: Seq<u8>| frame.skip(1),
    }
}

proof fn the_decoder_undoes_the_codec(
    codec: &PlainCodec,
    o: WriterOptions,
    dictionary: Option<Seq<u8>>,
    sealing: WriterOptions,
)
    requires
        codec.spec_layout().block_record_framing >= PLAIN_BLOCK_HEAD,
    ensures
        undoes(plain_decoder(codec, sealing.aead_algo), codec, o, dictionary, sealing),
{
    let d = plain_decoder(codec, sealing.aead_algo);
    let framing = codec.spec_layout().block_record_framing as int;
    let tag_len = sealing.aead_algo.spec_tag_len();
    vstd::bytes::lemma_auto_spec_u64_to_from_le_bytes();
    assert forall|b: BlockValue|
        {
            &&& (d.block)(#[trigger] codec.block_bytes(b)) == b
            &&& codec.block_bytes(b).len() == d.framing + b.payload.len()
        } by {
        let bytes = codec.block_bytes(b);
        let index = vstd::bytes::spec_u64_to_le_bytes(b.block_index);
        assert(index.len() == 8);
        assert(bytes.take(8) =~= index);
        assert(bytes[8] == plain_head(b)[8]);
        assert(bytes[9] == plain_head(b)[9]);
        assert(bytes.skip(framing) =~= b.payload);
    }
    assert forall|payload: Seq<u8>, context: ObjectEncryptionContext|
        (#[trigger] sealed_payload(codec, payload, context, sealing)) is Ok implies (d.open)(
        context,
        sealed_payload(codec, payload, context, sealing)->Ok_0,
    ) == payload by {
        let sealed = sealed_payload(codec, payload, context, sealing)->Ok_0;
        let size = sealing.block_size as int;
        let len = plain_padding(payload.len() as int, tag_len as int, size);
        vstd::arithmetic::div_mod::lemma_mod_bound((payload.len() + tag_len) as int, size);
        assert(sealed.take(sealed.len() - tag_len) =~= marked(payload, len));
        marks_are_found(payload, len);
    }
    assert forall|part: Seq<u8>|
        (#[trigger] frame_bytes(codec, o, dictionary, part)) is Ok implies {
        let frame = frame_bytes(codec, o, dictionary, part)->Ok_0;
        frame.len() > 0 && (d.inflate)(frame) == part
    } by {
        assert((seq![0u8] + part).skip(1) =~= part);
    }
}

/// What is stored as it is can be read: where the framing of blocks has room for what tells them
/// apart, a decoder undoes the codec, whatever the options.
pub proof fn plain_archives_can_be_read(
    codec: &PlainCodec,
    dictionary: Option<Seq<u8>>,
    algo: AeadAlgo,
)
    requires
        codec.spec_layout().block_record_framing >= PLAIN_BLOCK_HEAD,
    ensures
        undoes_throughout(plain_decoder(codec, algo), codec, dictionary, algo),
{
    assert forall|o: WriterOptions, sealing: WriterOptions| sealing.aead_algo == algo implies
        #[trigger] undoes(plain_decoder(codec, algo), codec, o, dictionary, sealing) by {
        the_decoder_undoes_the_codec(codec, o, dictionary, sealing);
    }
}

/// An archive in memory that stores everything as it is gives back the files that it was made of:
/// the decoder reads each of them from the volumes, under its path and with its contents.
pub proof fn plain_archives_read_back<
    'a,
    F: FnOnce(&RootAuthSigningRequest) -> Result<Vec<u8>, FormatError>,
>(
    codec: &PlainCodec,
    files: Seq<RegularFile<'a>>,
    order: ArchiveOrder,
    options: WriterOptions,
    authenticator: Option<F>,
    archive: WrittenArchive,
)
    requires
        files.len() <= usize::MAX,
        codec.spec_layout().block_record_framing >= PLAIN_BLOCK_HEAD,
        archives(codec, files, order, options, authenticator, Ok(archive)),
    ensures
        exists|o: WriterOptions, plan: PlanValue|
            {
                &&& #[trigger] plans_pass(
                    codec,
                    files,
                    order.spec_request(archive.archive_uuid, archive.session_id),
                    o,
                    Ok(plan),
                )
                &&& plan.members.len() == files.len()
                &&& forall|i: int|
                    0 <= i < files.len() ==> file_reads_back(
                        plain_decoder(codec, options.aead_algo),
                        codec,
                        options,
                        plan,
                        keys_of(codec, order, plan),
                        order.root_auth is Some,
                        contents_of(archive.volumes@),
                        #[trigger] files[i],
                        i,
                    )
            },
{
    plain_lengths_are_settled(codec);
    plain_archives_can_be_read(codec, opt_bytes(order.dictionary), options.aead_algo);
    archives_in_memory_read_back(
        plain_decoder(codec, options.aead_algo),
        codec,
        files,
        order,
        options,
        authenticator,
        archive,
    );
}

/// Members start from no records at all, and the flag of native metadata is a bit of its own.
pub proof fn plain_members_start_portable(codec: &PlainCodec)
    ensures
        starts_portable(codec),
        native_bit_is_its_own(codec.flag_bits()),
{
    assert((1u32 | 2u32 | 4u32 | 16u32 | 32u32) & 8u32 == 0u32) by (bit_vector);
}

impl MetadataProfile for PlainCodec {
    open spec fn known_source_os(&self, os: Seq<char>) -> bool {
        true
    }

    fn is_source_os(&self, os: &String) -> (r: bool) {
        true
    }

    open spec fn known_filesystem(&self, token: Seq<char>) -> bool {
        true
    }

    fn valid_filesystem_token(&self, token: &String) -> (r: bool) {
        true
    }

    open spec fn posix_profile_needed(&self, os: Seq<char>) -> bool {
        false
    }

    fn source_os_requires_posix_profile(&self, os: &String) -> (r: bool) {
        false
    }

    open spec fn timestamp_text(&self, time: ArchiveTimestamp) -> Result<Seq<u8>, FormatError> {
        Ok(text("0"))
    }

    fn canonical_pax_value(&self, time: ArchiveTimestamp) -> (r: Result<Vec<u8>, FormatError>) {
        Ok(text_bytes("0"))
    }

    open spec fn base_records(
        &self,
        path: Seq<u8>,
        mode: u32,
        source_os: Seq<char>,
        path_override: bool,
    ) -> Result<Map<Seq<u8>, Seq<u8>>, FormatError> {
        Ok(Map::empty())
    }

    fn portable_primary_pax(
        &self,
        path: &[u8],
        mode: u32,
        source_os: &String,
        path_override: bool,
    ) -> (r: Result<ByteMap<Vec<u8>>, FormatError>) {
        let records: ByteMap<Vec<u8>> = ByteMap::new();
        assert(pax_map(records) =~= Map::empty());
        Ok(records)
    }

    open spec fn base64_text(&self, bytes: Seq<u8>) -> Seq<u8> {
        bytes
    }

    fn canonical_base64_encode(&self, bytes: &[u8]) -> (r: Vec<u8>) {
        to_bytes(bytes)
    }

    open spec fn primary_declaration_valid(&self, records: Map<Seq<u8>, Seq<u8>>) -> bool {
        true
    }

    fn check_primary_declaration(&self, records: &ByteMap<Vec<u8>>) -> (r: bool) {
        true
    }

    open spec fn auxiliary_check(&self, declaration: DeclarationValue) -> Result<(), FormatError> {
        Ok(())
    }

    fn check_auxiliary_declaration(&self, declaration: &AuxiliaryDeclaration<'_>) -> (r: Result<
        (),
        FormatError,
    >) {
        Ok(())
    }

    open spec fn group_valid(
        &self,
        primary: Map<Seq<u8>, Seq<u8>>,
        auxiliary: Seq<DeclarationValue>,
    ) -> bool {
        true
    }

    fn check_group(
        &self,
        primary: &ByteMap<Vec<u8>>,
        auxiliary: &Vec<AuxiliaryDeclaration<'_>>,
    ) -> (r: bool) {
        true
    }

    open spec fn canonical_pax(&self, records: Map<Seq<u8>, Seq<u8>>) -> Result<
        Seq<u8>,
        FormatError,
    > {
        Ok(Seq::empty())
    }

    fn encode_canonical_pax(&self, records: &ByteMap<Vec<u8>>) -> (r: Result<Vec<u8>, FormatError>) {
        let out: Vec<u8> = Vec::new();
        assert(out@ =~= Seq::empty());
        Ok(out)
    }

    open spec fn kind_code(&self, kind: TarEntryKind) -> u8 {
        match kind {
            TarEntryKind::Regular => 0,
            TarEntryKind::Directory => 1,
            TarEntryKind::Symlink => 2,
            TarEntryKind::Hardlink => 3,
            TarEntryKind::CharacterDevice => 4,
            TarEntryKind::BlockDevice => 5,
            TarEntryKind::Fifo => 6,
        }
    }

    fn encode_kind(&self, kind: TarEntryKind) -> (r: u8) {
        match kind {
            TarEntryKind::Regular => 0,
            TarEntryKind::Directory => 1,
            TarEntryKind::Symlink => 2,
            TarEntryKind::Hardlink => 3,
            TarEntryKind::CharacterDevice => 4,
            TarEntryKind::BlockDevice => 5,
            TarEntryKind::Fifo => 6,
        }
    }

    open spec fn flag_bits(&self) -> EntryFlagBits {
        EntryFlagBits {
            extended_metadata_v1: 1,
            capture_partial: 2,
            has_auxiliary_streams: 4,
            has_native_metadata: 8,
            has_sparse_extents: 16,
            requires_system_restore: 32,
        }
    }

    fn entry_flag_bits(&self) -> (r: EntryFlagBits) {
        EntryFlagBits {
            extended_metadata_v1: 1,
            capture_partial: 2,
            has_auxiliary_streams: 4,
            has_native_metadata: 8,
            has_sparse_extents: 16,
            requires_system_restore: 32,
        }
    }

    open spec fn extent_limit(&self) -> usize {
        usize::MAX
    }

    fn max_sparse_extents(&self) -> (r: usize) {
        usize::MAX
    }
}

} // verus!
