//! Planning the metadata of an archive: index shards, dictionary, directory hints, index root.
use crate::arith::{fit_u32, u32_len};
use crate::codec::ArchiveCodec;
use crate::errors::FormatError;
use crate::hints::{hint_shard_values, HintShardValue, PlannedDirectoryHintShard};
use crate::key_wrap::opt_vec;
use crate::object_plan::{
    classed_plan, metadata_object_plan, plan_encrypted_object, plan_metadata_object_without_class,
    MetadataObjectKind, ObjectExtent, PlannedEncryptedObject,
};
use crate::options::{opt_bytes, WriterOptions};
use crate::shard::{index_shard_values, IndexShardValue, PlannedIndexShard};
use crate::wire::{DirectoryHintShardEntry, IndexRoot, IndexRootHeader, IndexRootValue, ShardEntry};
use vstd::prelude::*;

verus! {

/// A metadata object that is compressed and placed.
#[derive(Debug, Clone, PartialEq, Eq)]
pub struct PlannedMetadataObject {
    pub object_index: u64,
    pub compressed: Vec<u8>,
    pub extent: ObjectExtent,
}

/// The same by content.
pub struct MetadataObjectValue {
    pub object_index: u64,
    pub compressed: Seq<u8>,
    pub extent: ObjectExtent,
}

impl View for PlannedMetadataObject {
    type V = MetadataObjectValue;

    open spec fn view(&self) -> MetadataObjectValue {
        MetadataObjectValue {
            object_index: self.object_index,
            compressed: self.compressed@,
            extent: self.extent,
        }
    }
}

pub open spec fn object_values(objects: Seq<PlannedMetadataObject>) -> Seq<MetadataObjectValue> {
    Seq::new(objects.len(), |i: int| objects[i]@)
}

/// An index object that is compressed and placed at `next`.
pub open spec fn placed_index_object<C: ArchiveCodec>(
    codec: &C,
    object_index: u64,
    plaintext: Seq<u8>,
    o: WriterOptions,
    next: u64,
) -> Result<MetadataObjectValue, FormatError> {
    match codec.compressed(plaintext, o.zstd_level, None, o.jobs) {
        Err(e) => Err(e),
        Ok(compressed) => match classed_plan(
            compressed.len() as int,
            o.index_fec_data_shards as int,
            o.index_fec_parity_shards as int,
            o,
        ) {
            Err(e) => Err(e),
            Ok(plan) => {
                let extent = ObjectExtent::placed(next, plan);
                match extent.next_block_index_outcome() {
                    Err(e) => Err(e),
                    Ok(_) => Ok(MetadataObjectValue { object_index, compressed, extent }),
                }
            },
        },
    }
}

fn place_index_object<C: ArchiveCodec>(
    codec: &C,
    object_index: u64,
    plaintext: &[u8],
    options: WriterOptions,
    next_block_index: u64,
) -> (r: Result<PlannedMetadataObject, FormatError>)
    requires
        options.block_size > 0,
    ensures
        match (
            r,
            placed_index_object(codec, object_index, plaintext@, options, next_block_index),
        ) {
            (Ok(object), Ok(value)) => object@ == value && value.extent.first_block_index
                + value.extent.total() <= u64::MAX,
            (Err(e), Err(f)) => e == f,
            _ => false,
        },
{
    let compressed: Vec<u8> = codec.compress(plaintext, options.zstd_level, None, options.jobs)?;
    let object_plan: PlannedEncryptedObject = plan_encrypted_object(
        compressed.len(),
        options.index_fec_data_shards,
        options.index_fec_parity_shards,
        options,
    )?;
    let extent: ObjectExtent = ObjectExtent::new(next_block_index, object_plan)?;
    extent.next_block_index()?;
    Ok(PlannedMetadataObject { object_index, compressed, extent })
}

fn end_of(extent: ObjectExtent) -> (r: u64)
    requires
        extent.first_block_index + extent.total() <= u64::MAX,
    ensures
        r == extent.first_block_index + extent.total(),
{
    extent.first_block_index + (extent.data_block_count as u64 + extent.parity_block_count as u64)
}

// ---------------------------------------------------------------------------------------------
// Index shards
// ---------------------------------------------------------------------------------------------

/// Index shards that are placed, and the block behind them.
pub struct ShardsValue {
    pub objects: Seq<MetadataObjectValue>,
    pub entries: Seq<ShardEntry>,
    pub next: u64,
}

pub open spec fn shard_entry(
    shard: IndexShardValue,
    extent: ObjectExtent,
    decompressed_size: u32,
) -> ShardEntry {
    ShardEntry {
        shard_index: shard.shard_index,
        first_block_index: extent.first_block_index,
        data_block_count: extent.data_block_count,
        parity_block_count: extent.parity_block_count,
        encrypted_size: extent.encrypted_size,
        decompressed_size,
        file_count: shard.file_count,
        first_path_hash: shard.first_path_hash,
        last_path_hash: shard.last_path_hash,
    }
}

/// The first `count` index shards, one behind the other from block `next` on.
pub open spec fn placed_shards<C: ArchiveCodec>(
    codec: &C,
    shards: Seq<IndexShardValue>,
    o: WriterOptions,
    next: u64,
    count: nat,
) -> Result<ShardsValue, FormatError>
    decreases count,
{
    if count == 0 {
        Ok(ShardsValue { objects: Seq::empty(), entries: Seq::empty(), next })
    } else {
        match placed_shards(codec, shards, o, next, (count - 1) as nat) {
            Err(e) => Err(e),
            Ok(before) => {
                let shard = shards[count - 1];
                match placed_index_object(
                    codec,
                    shard.shard_index,
                    shard.plaintext,
                    o,
                    before.next,
                ) {
                    Err(e) => Err(e),
                    Ok(object) => match fit_u32(shard.plaintext.len() as int, "IndexShard") {
                        Err(e) => Err(e),
                        Ok(size) => Ok(
                            ShardsValue {
                                objects: before.objects.push(object),
                                entries: before.entries.push(
                                    shard_entry(shard, object.extent, size),
                                ),
                                next: (object.extent.first_block_index
                                    + object.extent.total()) as u64,
                            },
                        ),
                    },
                }
            },
        }
    }
}

proof fn first_shard_error_stays<C: ArchiveCodec>(
    codec: &C,
    shards: Seq<IndexShardValue>,
    o: WriterOptions,
    next: u64,
    count: nat,
    total: nat,
)
    requires
        count <= total,
        placed_shards(codec, shards, o, next, count) is Err,
    ensures
        placed_shards(codec, shards, o, next, total) == placed_shards(
            codec,
            shards,
            o,
            next,
            count,
        ),
    decreases total,
{
    if count < total {
        first_shard_error_stays(codec, shards, o, next, count, (total - 1) as nat);
    }
}

/// Compresses and places index shards.
#[verifier::loop_isolation(false)]
pub fn place_index_shards<C: ArchiveCodec>(
    codec: &C,
    shards: &Vec<PlannedIndexShard>,
    options: WriterOptions,
    next_block_index: u64,
) -> (r: Result<(Vec<PlannedMetadataObject>, Vec<ShardEntry>, u64), FormatError>)
    requires
        options.block_size > 0,
    ensures
        match (
            r,
            placed_shards(
                codec,
                index_shard_values(shards@),
                options,
                next_block_index,
                shards@.len(),
            ),
        ) {
            (Ok((objects, entries, next)), Ok(value)) => object_values(objects@) == value.objects
                && entries@ == value.entries && next == value.next,
            (Err(e), Err(f)) => e == f,
            _ => false,
        },
{
    let ghost values = index_shard_values(shards@);
    let mut objects: Vec<PlannedMetadataObject> = Vec::new();
    let mut entries: Vec<ShardEntry> = Vec::new();
    let mut next: u64 = next_block_index;
    let mut i: usize = 0;
    assert(object_values(objects@) =~= Seq::empty());
    while i < shards.len()
        invariant
            i <= shards@.len(),
            placed_shards(codec, values, options, next_block_index, i as nat) == Ok::<
                ShardsValue,
                FormatError,
            >(ShardsValue { objects: object_values(objects@), entries: entries@, next }),
        decreases shards.len() - i,
    {
        let shard: &PlannedIndexShard = &shards[i];
        let ghost before = object_values(objects@);
        proof {
            assert(values[i as int] == shard@);
            if placed_shards(codec, values, options, next_block_index, (i + 1) as nat) is Err {
                first_shard_error_stays(
                    codec,
                    values,
                    options,
                    next_block_index,
                    (i + 1) as nat,
                    shards@.len(),
                );
            }
        }
        let object: PlannedMetadataObject = place_index_object(
            codec,
            shard.shard_index,
            shard.plaintext.as_slice(),
            options,
            next,
        )?;
        let extent: ObjectExtent = object.extent;
        let decompressed_size: u32 = u32_len(shard.plaintext.len(), "IndexShard")?;
        next = end_of(extent);
        entries.push(
            ShardEntry {
                shard_index: shard.shard_index,
                first_block_index: extent.first_block_index,
                data_block_count: extent.data_block_count,
                parity_block_count: extent.parity_block_count,
                encrypted_size: extent.encrypted_size,
                decompressed_size,
                file_count: shard.file_count,
                first_path_hash: shard.first_path_hash,
                last_path_hash: shard.last_path_hash,
            },
        );
        let ghost value = object@;
        objects.push(object);
        i = i + 1;
        assert(object_values(objects@) =~= before.push(value));
    }
    Ok((objects, entries, next))
}

// ---------------------------------------------------------------------------------------------
// Directory hints
// ---------------------------------------------------------------------------------------------

/// Directory-hint shards that are placed, and the block behind them.
pub struct HintsValue {
    pub objects: Seq<MetadataObjectValue>,
    pub entries: Seq<DirectoryHintShardEntry>,
    pub next: u64,
}

pub open spec fn hint_entry(
    shard: HintShardValue,
    extent: ObjectExtent,
    decompressed_size: u32,
) -> DirectoryHintShardEntry {
    DirectoryHintShardEntry {
        hint_shard_index: shard.hint_shard_index,
        first_dir_hash: shard.first_dir_hash,
        last_dir_hash: shard.last_dir_hash,
        first_block_index: extent.first_block_index,
        data_block_count: extent.data_block_count,
        parity_block_count: extent.parity_block_count,
        encrypted_size: extent.encrypted_size,
        decompressed_size,
        entry_count: shard.entry_count,
    }
}

/// The first `count` directory-hint shards, one behind the other from block `next` on.
pub open spec fn placed_hints<C: ArchiveCodec>(
    codec: &C,
    shards: Seq<HintShardValue>,
    o: WriterOptions,
    next: u64,
    count: nat,
) -> Result<HintsValue, FormatError>
    decreases count,
{
    if count == 0 {
        Ok(HintsValue { objects: Seq::empty(), entries: Seq::empty(), next })
    } else {
        match placed_hints(codec, shards, o, next, (count - 1) as nat) {
            Err(e) => Err(e),
            Ok(before) => {
                let shard = shards[count - 1];
                match placed_index_object(
                    codec,
                    shard.hint_shard_index,
                    shard.plaintext,
                    o,
                    before.next,
                ) {
                    Err(e) => Err(e),
                    Ok(object) => match fit_u32(
                        shard.plaintext.len() as int,
                        "DirectoryHintTable",
                    ) {
                        Err(e) => Err(e),
                        Ok(size) => Ok(
                            HintsValue {
                                objects: before.objects.push(object),
                                entries: before.entries.push(
                                    hint_entry(shard, object.extent, size),
                                ),
                                next: (object.extent.first_block_index
                                    + object.extent.total()) as u64,
                            },
                        ),
                    },
                }
            },
        }
    }
}

proof fn first_hint_error_stays<C: ArchiveCodec>(
    codec: &C,
    shards: Seq<HintShardValue>,
    o: WriterOptions,
    next: u64,
    count: nat,
    total: nat,
)
    requires
        count <= total,
        placed_hints(codec, shards, o, next, count) is Err,
    ensures
        placed_hints(codec, shards, o, next, total) == placed_hints(codec, shards, o, next, count),
    decreases total,
{
    if count < total {
        first_hint_error_stays(codec, shards, o, next, count, (total - 1) as nat);
    }
}

/// Compresses and places directory-hint shards.
#[verifier::loop_isolation(false)]
pub fn place_directory_hints<C: ArchiveCodec>(
    codec: &C,
    shards: &Vec<PlannedDirectoryHintShard>,
    options: WriterOptions,
    next_block_index: u64,
) -> (r: Result<(Vec<PlannedMetadataObject>, Vec<DirectoryHintShardEntry>, u64), FormatError>)
    requires
        options.block_size > 0,
    ensures
        match (
            r,
            placed_hints(
                codec,
                hint_shard_values(shards@),
                options,
                next_block_index,
                shards@.len(),
            ),
        ) {
            (Ok((objects, entries, next)), Ok(value)) => object_values(objects@) == value.objects
                && entries@ == value.entries && next == value.next,
            (Err(e), Err(f)) => e == f,
            _ => false,
        },
{
    let ghost values = hint_shard_values(shards@);
    let mut objects: Vec<PlannedMetadataObject> = Vec::new();
    let mut entries: Vec<DirectoryHintShardEntry> = Vec::new();
    let mut next: u64 = next_block_index;
    let mut i: usize = 0;
    assert(object_values(objects@) =~= Seq::empty());
    while i < shards.len()
        invariant
            i <= shards@.len(),
            placed_hints(codec, values, options, next_block_index, i as nat) == Ok::<
                HintsValue,
                FormatError,
            >(HintsValue { objects: object_values(objects@), entries: entries@, next }),
        decreases shards.len() - i,
    {
        let shard: &PlannedDirectoryHintShard = &shards[i];
        let ghost before = object_values(objects@);
        proof {
            assert(values[i as int] == shard@);
            if placed_hints(codec, values, options, next_block_index, (i + 1) as nat) is Err {
                first_hint_error_stays(
                    codec,
                    values,
                    options,
                    next_block_index,
                    (i + 1) as nat,
                    shards@.len(),
                );
            }
        }
        let object: PlannedMetadataObject = place_index_object(
            codec,
            shard.hint_shard_index,
            shard.plaintext.as_slice(),
            options,
            next,
        )?;
        let extent: ObjectExtent = object.extent;
        let decompressed_size: u32 = u32_len(shard.plaintext.len(), "DirectoryHintTable")?;
        next = end_of(extent);
        entries.push(
            DirectoryHintShardEntry {
                hint_shard_index: shard.hint_shard_index,
                first_dir_hash: shard.first_dir_hash,
                last_dir_hash: shard.last_dir_hash,
                first_block_index: extent.first_block_index,
                data_block_count: extent.data_block_count,
                parity_block_count: extent.parity_block_count,
                encrypted_size: extent.encrypted_size,
                decompressed_size,
                entry_count: shard.entry_count,
            },
        );
        let ghost value = object@;
        objects.push(object);
        i = i + 1;
        assert(object_values(objects@) =~= before.push(value));
    }
    Ok((objects, entries, next))
}

// ---------------------------------------------------------------------------------------------
// Dictionary
// ---------------------------------------------------------------------------------------------

/// A dictionary that is compressed and placed.
pub struct DictionaryValue {
    pub compressed: Option<Seq<u8>>,
    pub extent: Option<(ObjectExtent, u32)>,
    pub next: u64,
}

pub open spec fn placed_dictionary<C: ArchiveCodec>(
    codec: &C,
    dictionary: Option<Seq<u8>>,
    o: WriterOptions,
    next: u64,
) -> Result<DictionaryValue, FormatError> {
    match dictionary {
        None => Ok(DictionaryValue { compressed: None, extent: None, next }),
        Some(bytes) => match codec.compressed(bytes, o.zstd_level, None, o.jobs) {
            Err(e) => Err(e),
            Ok(compressed) => match fit_u32(bytes.len() as int, "dictionary") {
                Err(e) => Err(e),
                Ok(size) => match metadata_object_plan(
                    compressed.len() as int,
                    o,
                    MetadataObjectKind::Dictionary,
                ) {
                    Err(e) => Err(e),
                    Ok(plan) => {
                        let extent = ObjectExtent::placed(next, plan);
                        match extent.next_block_index_outcome() {
                            Err(e) => Err(e),
                            Ok(end) => Ok(
                                DictionaryValue {
                                    compressed: Some(compressed),
                                    extent: Some((extent, size)),
                                    next: end,
                                },
                            ),
                        }
                    },
                },
            },
        },
    }
}

/// Compresses and places the dictionary.
pub fn place_dictionary<C: ArchiveCodec>(
    codec: &C,
    dictionary: Option<&[u8]>,
    options: WriterOptions,
    next_block_index: u64,
) -> (r: Result<(Option<Vec<u8>>, Option<(ObjectExtent, u32)>, u64), FormatError>)
    requires
        options.block_size > 0,
    ensures
        match (
            r,
            placed_dictionary(codec, opt_bytes(dictionary), options, next_block_index),
        ) {
            (Ok((compressed, extent, next)), Ok(value)) => opt_vec(compressed) == value.compressed
                && extent == value.extent && next == value.next,
            (Err(e), Err(f)) => e == f,
            _ => false,
        },
{
    match dictionary {
        None => Ok((None, None, next_block_index)),
        Some(bytes) => {
            let compressed: Vec<u8> = codec.compress(
                bytes,
                options.zstd_level,
                None,
                options.jobs,
            )?;
            let size: u32 = u32_len(bytes.len(), "dictionary")?;
            let plan: PlannedEncryptedObject = plan_metadata_object_without_class(
                compressed.len(),
                options,
                MetadataObjectKind::Dictionary,
            )?;
            let extent: ObjectExtent = ObjectExtent::new(next_block_index, plan)?;
            let next: u64 = extent.next_block_index()?;
            Ok((Some(compressed), Some((extent, size)), next))
        },
    }
}

// ---------------------------------------------------------------------------------------------
// Index root
// ---------------------------------------------------------------------------------------------

/// What an index root is made from.
pub struct IndexRootPlaintextInput<'a> {
    pub shard_entries: &'a Vec<ShardEntry>,
    pub frame_count: u64,
    pub envelope_count: u64,
    pub file_count: u64,
    pub payload_block_count: u64,
    pub tar_total_size: u64,
    pub content_sha256: [u8; 32],
    pub directory_hint_entries: &'a Vec<DirectoryHintShardEntry>,
    pub dictionary_extent: Option<(ObjectExtent, u32)>,
}

/// The counts of a payload.
pub struct PayloadCounts {
    pub frame_count: u64,
    pub envelope_count: u64,
    pub file_count: u64,
    pub payload_block_count: u64,
    pub tar_total_size: u64,
    pub content_sha256: [u8; 32],
}

pub open spec fn index_root_value(
    counts: PayloadCounts,
    shards: Seq<ShardEntry>,
    hints: Seq<DirectoryHintShardEntry>,
    dictionary: Option<(ObjectExtent, u32)>,
) -> IndexRootValue {
    IndexRootValue {
        header: IndexRootHeader {
            frame_count: counts.frame_count,
            envelope_count: counts.envelope_count,
            file_count: counts.file_count,
            payload_block_count: counts.payload_block_count,
            tar_total_size: counts.tar_total_size,
            content_sha256: counts.content_sha256,
            dictionary_first_block: match dictionary {
                Some((extent, _)) => extent.first_block_index,
                None => 0,
            },
            dictionary_data_block_count: match dictionary {
                Some((extent, _)) => extent.data_block_count,
                None => 0,
            },
            dictionary_parity_block_count: match dictionary {
                Some((extent, _)) => extent.parity_block_count,
                None => 0,
            },
            dictionary_encrypted_size: match dictionary {
                Some((extent, _)) => extent.encrypted_size,
                None => 0,
            },
            dictionary_decompressed_size: match dictionary {
                Some((_, size)) => size,
                None => 0,
            },
        },
        shards,
        directory_hint_shards: hints,
    }
}

fn copied_shards(entries: &Vec<ShardEntry>) -> (r: Vec<ShardEntry>)
    ensures
        r@ == entries@,
{
    let mut out: Vec<ShardEntry> = Vec::new();
    let mut i: usize = 0;
    while i < entries.len()
        invariant
            i <= entries@.len(),
            out@ == entries@.take(i as int),
        decreases entries.len() - i,
    {
        out.push(entries[i]);
        i = i + 1;
        assert(out@ =~= entries@.take(i as int));
    }
    assert(entries@.take(i as int) =~= entries@);
    out
}

fn copied_hints(entries: &Vec<DirectoryHintShardEntry>) -> (r: Vec<DirectoryHintShardEntry>)
    ensures
        r@ == entries@,
{
    let mut out: Vec<DirectoryHintShardEntry> = Vec::new();
    let mut i: usize = 0;
    while i < entries.len()
        invariant
            i <= entries@.len(),
            out@ == entries@.take(i as int),
        decreases entries.len() - i,
    {
        out.push(entries[i]);
        i = i + 1;
        assert(out@ =~= entries@.take(i as int));
    }
    assert(entries@.take(i as int) =~= entries@);
    out
}

/// The bytes of an index root.
pub fn build_index_root_plaintext<C: ArchiveCodec>(
    codec: &C,
    input: &IndexRootPlaintextInput<'_>,
) -> (r: Vec<u8>)
    ensures
        r@ == codec.index_root_bytes(
            index_root_value(
                (PayloadCounts {
                    frame_count: input.frame_count,
                    envelope_count: input.envelope_count,
                    file_count: input.file_count,
                    payload_block_count: input.payload_block_count,
                    tar_total_size: input.tar_total_size,
                    content_sha256: input.content_sha256,
                }),
                input.shard_entries@,
                input.directory_hint_entries@,
                input.dictionary_extent,
            ),
        ),
{
    let mut header = IndexRootHeader {
        frame_count: input.frame_count,
        envelope_count: input.envelope_count,
        file_count: input.file_count,
        payload_block_count: input.payload_block_count,
        tar_total_size: input.tar_total_size,
        content_sha256: input.content_sha256,
        dictionary_first_block: 0,
        dictionary_data_block_count: 0,
        dictionary_parity_block_count: 0,
        dictionary_encrypted_size: 0,
        dictionary_decompressed_size: 0,
    };
    if let Some((dictionary, decompressed_size)) = input.dictionary_extent {
        header.dictionary_first_block = dictionary.first_block_index;
        header.dictionary_data_block_count = dictionary.data_block_count;
        header.dictionary_parity_block_count = dictionary.parity_block_count;
        header.dictionary_encrypted_size = dictionary.encrypted_size;
        header.dictionary_decompressed_size = decompressed_size;
    }
    let root = IndexRoot {
        header,
        shards: copied_shards(input.shard_entries),
        directory_hint_shards: copied_hints(input.directory_hint_entries),
    };
    codec.encode_index_root(&root)
}

} // verus!
