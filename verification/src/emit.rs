//! Writing blocks to the volumes of an archive.
use crate::arith::{checked_u64_add, u32_len};
use crate::codec::{ArchiveCodec, WireLayout};
use crate::errors::{ArchiveWriteError, FormatError};
use crate::headers::CryptoHeader;
use crate::object_plan::{
    map_metadata_encrypt_error, metadata_error, MetadataObjectKind, ObjectExtent,
};
use crate::options::{opt_bytes, WriterOptions};
use crate::root_auth::DataLeaf;
use crate::seal::{
    block_values, encrypt_object, encrypted_outcome, extent_check, validate_planned_extent,
    EncryptedObject, ObjectEncryptionContext, SerializedBlockRecord,
};
use crate::sink::{failure_of, standing, ArchiveWriteSink, Standing};
use crate::wire::{BlockRecord, BlockValue, Record, VolumeHeader};
use vstd::prelude::*;

verus! {

/// A result of planning as a result of writing.
pub fn lift<T>(r: Result<T, FormatError>) -> (s: Result<T, ArchiveWriteError>)
    ensures
        s == (match r {
            Ok(v) => Ok(v),
            Err(e) => Err(ArchiveWriteError::Format(e)),
        }),
{
    match r {
        Ok(v) => Ok(v),
        Err(e) => Err(ArchiveWriteError::Format(e)),
    }
}

/// What the writer keeps account of while it writes.
#[derive(Debug, Clone, PartialEq, Eq)]
pub struct WriterEmissionState {
    pub volume_headers: Vec<Vec<u8>>,
    pub bytes_written: Vec<u64>,
    pub record_counts: Vec<u64>,
    pub volume_format_rev: u16,
    pub data_leaf_hashes: Option<Vec<DataLeaf>>,
    pub next_block_index: u64,
}

/// An archive in the making: what the sink holds and what the writer keeps account of.
pub struct Emission {
    pub volumes: Seq<Seq<u8>>,
    pub sidecar: Seq<u8>,
    pub bytes_written: Seq<u64>,
    pub record_counts: Seq<u64>,
    pub leaves: Option<Seq<DataLeaf>>,
    pub next_block_index: u64,
}

pub open spec fn opt_leaves(leaves: Option<Vec<DataLeaf>>) -> Option<Seq<DataLeaf>> {
    match leaves {
        Some(l) => Some(l@),
        None => None,
    }
}

/// The archive in the making behind a sink and a state.
pub open spec fn emission<O: ArchiveWriteSink>(sink: O, state: WriterEmissionState) -> Emission {
    Emission {
        volumes: sink.volumes(),
        sidecar: sink.sidecar(),
        bytes_written: state.bytes_written@,
        record_counts: state.record_counts@,
        leaves: opt_leaves(state.data_leaf_hashes),
        next_block_index: state.next_block_index,
    }
}

impl Emission {
    /// Whether there is an account for each volume.
    pub open spec fn wf(self, stripe_width: u32) -> bool {
        &&& stripe_width > 0
        &&& self.volumes.len() == stripe_width
        &&& self.bytes_written.len() == stripe_width
        &&& self.record_counts.len() == stripe_width
    }

    /// Whether the account of each volume agrees with its bytes.
    pub open spec fn is_accounted(self) -> bool {
        &&& self.bytes_written.len() == self.volumes.len()
        &&& forall|i: int|
            0 <= i < self.volumes.len() ==> #[trigger] self.bytes_written[i]
                == self.volumes[i].len()
    }
}

/// What a step of writing promises. Where it succeeds, it went as `outcome` says. What the sink
/// refuses is handed on. Where it refuses nothing, success and failure are those of `outcome`.
pub open spec fn writes(
    before: Standing,
    now: Standing,
    after: Emission,
    outcome: Result<Emission, FormatError>,
    failure: Option<ArchiveWriteError>,
) -> bool {
    &&& failure is None ==> outcome == Ok::<Emission, FormatError>(after)
    &&& before.hands_on(now, failure)
    &&& before.undisturbed(now) ==> (match outcome {
        Ok(_) => failure is None,
        Err(e) => failure == Some(ArchiveWriteError::Format(e)),
    })
}

// ---------------------------------------------------------------------------------------------
// Blocks
// ---------------------------------------------------------------------------------------------

/// The volume that a block goes to.
pub open spec fn home_volume(block_index: u64, stripe_width: u32) -> int {
    block_index as int % stripe_width as int
}

/// Bytes added to a volume, and counted.
pub open spec fn with_record(e: Emission, volume: int, bytes: Seq<u8>) -> Result<
    Emission,
    FormatError,
> {
    if e.bytes_written[volume] + bytes.len() > u64::MAX {
        Err(FormatError::WriterUnsupported("BlockRecord"))
    } else if e.record_counts[volume] + 1 > u64::MAX {
        Err(FormatError::WriterUnsupported("BlockRecord count"))
    } else {
        Ok(
            Emission {
                volumes: e.volumes.update(volume, e.volumes[volume] + bytes),
                bytes_written: e.bytes_written.update(
                    volume,
                    (e.bytes_written[volume] + bytes.len()) as u64,
                ),
                record_counts: e.record_counts.update(volume, (e.record_counts[volume] + 1) as u64),
                ..e
            },
        )
    }
}

/// A block written to its volume, and its digest noted where digests are collected.
pub open spec fn with_block<C: ArchiveCodec>(
    codec: &C,
    e: Emission,
    stripe_width: u32,
    rev: u16,
    block: BlockValue,
) -> Result<Emission, FormatError> {
    match with_record(
        e,
        home_volume(block.block_index, stripe_width),
        codec.block_bytes(block),
    ) {
        Err(f) => Err(f),
        Ok(written) => match written.leaves {
            Some(leaves) => if block.kind.spec_is_data() {
                match codec.merkle_leaf(rev, block) {
                    Err(f) => Err(f),
                    Ok(hash) => Ok(
                        Emission {
                            leaves: Some(
                                leaves.push(DataLeaf { block_index: block.block_index, hash }),
                            ),
                            ..written
                        },
                    ),
                }
            } else {
                Ok(written)
            },
            None => Ok(written),
        },
    }
}

/// Writes a block to its volume, counts it, and notes its digest where digests are collected. A
/// write that the sink refuses changes no account; a failure loses no digest.
pub fn emit_block_record<C: ArchiveCodec, O: ArchiveWriteSink>(
    codec: &C,
    sink: &mut O,
    options: WriterOptions,
    state: &mut WriterEmissionState,
    record: &BlockRecord,
) -> (r: Result<(), ArchiveWriteError>)
    requires
        emission(*old(sink), *old(state)).wf(options.stripe_width),
    ensures
        writes(
            standing(*old(sink)),
            standing(*final(sink)),
            emission(*final(sink), *final(state)),
            with_block(
                codec,
                emission(*old(sink), *old(state)),
                options.stripe_width,
                old(state).volume_format_rev,
                record@,
            ),
            failure_of(r),
        ),
        r is Ok ==> emission(*final(sink), *final(state)).wf(options.stripe_width),
        final(sink).refusal() is Some ==> *final(state) == *old(state),
        r is Err ==> final(state).data_leaf_hashes == old(state).data_leaf_hashes,
        final(state).next_block_index == old(state).next_block_index,
        final(state).volume_headers == old(state).volume_headers,
        final(state).volume_format_rev == old(state).volume_format_rev,
{
    let volume_index: usize = (record.block_index % options.stripe_width as u64) as usize;
    let bytes: Vec<u8> = codec.encode_block(
        record.block_index,
        record.kind,
        record.flags,
        record.payload.as_slice(),
    );
    sink.write_volume(volume_index, bytes.as_slice())?;
    let written: u64 = lift(
        checked_u64_add(
            state.bytes_written[volume_index],
            bytes.len() as u64,
            "BlockRecord",
        ),
    )?;
    state.bytes_written[volume_index] = written;
    let count: u64 = lift(
        checked_u64_add(state.record_counts[volume_index], 1, "BlockRecord count"),
    )?;
    state.record_counts[volume_index] = count;
    if state.data_leaf_hashes.is_some() && record.kind.is_data() {
        let hash: [u8; 32] = lift(codec.hash_leaf(state.volume_format_rev, record))?;
        let mut leaves: Option<Vec<DataLeaf>> = None;
        core::mem::swap(&mut leaves, &mut state.data_leaf_hashes);
        if let Some(mut list) = leaves {
            list.push(DataLeaf { block_index: record.block_index, hash });
            state.data_leaf_hashes = Some(list);
        }
    }
    Ok(())
}

/// A serialized block written to its volume. A write that the sink refuses changes no account.
pub fn emit_serialized_block_record<O: ArchiveWriteSink>(
    sink: &mut O,
    options: WriterOptions,
    state: &mut WriterEmissionState,
    record: &SerializedBlockRecord,
) -> (r: Result<(), ArchiveWriteError>)
    requires
        emission(*old(sink), *old(state)).wf(options.stripe_width),
    ensures
        writes(
            standing(*old(sink)),
            standing(*final(sink)),
            emission(*final(sink), *final(state)),
            with_record(
                emission(*old(sink), *old(state)),
                home_volume(record.block_index, options.stripe_width),
                record.bytes@,
            ),
            failure_of(r),
        ),
        r is Ok ==> emission(*final(sink), *final(state)).wf(options.stripe_width),
        final(sink).refusal() is Some ==> *final(state) == *old(state),
        final(state).data_leaf_hashes == old(state).data_leaf_hashes,
        final(state).next_block_index == old(state).next_block_index,
        final(state).volume_headers == old(state).volume_headers,
        final(state).volume_format_rev == old(state).volume_format_rev,
{
    let volume_index: usize = (record.block_index % options.stripe_width as u64) as usize;
    sink.write_volume(volume_index, record.bytes.as_slice())?;
    let written: u64 = lift(
        checked_u64_add(
            state.bytes_written[volume_index],
            record.bytes.len() as u64,
            "BlockRecord",
        ),
    )?;
    state.bytes_written[volume_index] = written;
    let count: u64 = lift(
        checked_u64_add(state.record_counts[volume_index], 1, "BlockRecord count"),
    )?;
    state.record_counts[volume_index] = count;
    Ok(())
}

/// The first `count` blocks of a list, written one after the other.
pub open spec fn with_blocks<C: ArchiveCodec>(
    codec: &C,
    e: Emission,
    stripe_width: u32,
    rev: u16,
    blocks: Seq<BlockValue>,
    count: nat,
) -> Result<Emission, FormatError>
    decreases count,
{
    if count == 0 {
        Ok(e)
    } else {
        match with_blocks(codec, e, stripe_width, rev, blocks, (count - 1) as nat) {
            Err(f) => Err(f),
            Ok(before) => with_block(codec, before, stripe_width, rev, blocks[count - 1]),
        }
    }
}

proof fn first_block_error_stays<C: ArchiveCodec>(
    codec: &C,
    e: Emission,
    stripe_width: u32,
    rev: u16,
    blocks: Seq<BlockValue>,
    count: nat,
    total: nat,
)
    requires
        count <= total,
        with_blocks(codec, e, stripe_width, rev, blocks, count) is Err,
    ensures
        with_blocks(codec, e, stripe_width, rev, blocks, total) == with_blocks(
            codec,
            e,
            stripe_width,
            rev,
            blocks,
            count,
        ),
    decreases total,
{
    if count < total {
        first_block_error_stays(codec, e, stripe_width, rev, blocks, count, (total - 1) as nat);
    }
}

/// Writes blocks one after the other.
#[verifier::loop_isolation(false)]
pub fn emit_block_records<C: ArchiveCodec, O: ArchiveWriteSink>(
    codec: &C,
    sink: &mut O,
    options: WriterOptions,
    state: &mut WriterEmissionState,
    records: &Vec<BlockRecord>,
) -> (r: Result<(), ArchiveWriteError>)
    requires
        emission(*old(sink), *old(state)).wf(options.stripe_width),
    ensures
        writes(
            standing(*old(sink)),
            standing(*final(sink)),
            emission(*final(sink), *final(state)),
            with_blocks(
                codec,
                emission(*old(sink), *old(state)),
                options.stripe_width,
                old(state).volume_format_rev,
                block_values(records@),
                records@.len(),
            ),
            failure_of(r),
        ),
        r is Ok ==> emission(*final(sink), *final(state)).wf(options.stripe_width),
        final(state).volume_headers == old(state).volume_headers,
        final(state).volume_format_rev == old(state).volume_format_rev,
{
    let ghost start = emission(*sink, *state);
    let ghost rev = state.volume_format_rev;
    let ghost blocks = block_values(records@);
    let ghost began = standing(*sink);
    let ghost headers = state.volume_headers;
    let mut i: usize = 0;
    while i < records.len()
        invariant
            i <= records@.len(),
            with_blocks(codec, start, options.stripe_width, rev, blocks, i as nat) == Ok::<
                Emission,
                FormatError,
            >(emission(*sink, *state)),
            emission(*sink, *state).wf(options.stripe_width),
            began.goes_on(standing(*sink)),
            state.volume_format_rev == rev,
            state.volume_headers == headers,
        decreases records.len() - i,
    {
        proof {
            assert(blocks[i as int] == records@[i as int]@);
            if with_blocks(
                codec,
                start,
                options.stripe_width,
                rev,
                blocks,
                (i + 1) as nat,
            ) is Err {
                first_block_error_stays(
                    codec,
                    start,
                    options.stripe_width,
                    rev,
                    blocks,
                    (i + 1) as nat,
                    records@.len(),
                );
            }
        }
        emit_block_record(codec, sink, options, state, &records[i])?;
        i = i + 1;
    }
    Ok(())
}

// ---------------------------------------------------------------------------------------------
// Objects
// ---------------------------------------------------------------------------------------------

/// A failure to seal, as the kind of the object puts it.
pub open spec fn sealing_error(e: FormatError, kind: Option<MetadataObjectKind>) -> FormatError {
    match kind {
        Some(k) => metadata_error(e, k),
        None => e,
    }
}

/// An object written to the archive, and its blocks.
pub struct WrittenObject {
    pub emission: Emission,
    pub blocks: Seq<BlockValue>,
}

/// A sealed object that lies where it was planned, written block by block.
pub open spec fn with_object<C: ArchiveCodec>(
    codec: &C,
    e: Emission,
    payload: Seq<u8>,
    context: ObjectEncryptionContext,
    o: WriterOptions,
    expected: ObjectExtent,
    kind: Option<MetadataObjectKind>,
    rev: u16,
) -> Result<WrittenObject, FormatError> {
    match encrypted_outcome(codec, payload, context, e.next_block_index, o) {
        Err(f) => Err(sealing_error(f, kind)),
        Ok(object) => match extent_check(object.extent, expected) {
            Err(f) => Err(f),
            Ok(_) => match with_blocks(
                codec,
                Emission {
                    next_block_index: (e.next_block_index + object.extent.total()) as u64,
                    ..e
                },
                o.stripe_width,
                rev,
                object.records,
                object.records.len(),
            ) {
                Err(f) => Err(f),
                Ok(after) => Ok(WrittenObject { emission: after, blocks: object.records }),
            },
        },
    }
}

/// The archive in the making after an object was written.
pub open spec fn emission_of(r: Result<WrittenObject, FormatError>) -> Result<Emission, FormatError> {
    match r {
        Ok(w) => Ok(w.emission),
        Err(e) => Err(e),
    }
}

pub fn emit_encrypted_object<C: ArchiveCodec, O: ArchiveWriteSink>(
    codec: &C,
    payload: &[u8],
    context: &ObjectEncryptionContext,
    options: WriterOptions,
    expected_extent: ObjectExtent,
    metadata_kind: Option<MetadataObjectKind>,
    sink: &mut O,
    state: &mut WriterEmissionState,
) -> (r: Result<EncryptedObject, ArchiveWriteError>)
    requires
        options.block_size > 0,
        emission(*old(sink), *old(state)).wf(options.stripe_width),
    ensures
        ({
            let outcome = with_object(
                codec,
                emission(*old(sink), *old(state)),
                payload@,
                *context,
                options,
                expected_extent,
                metadata_kind,
                old(state).volume_format_rev,
            );
            &&& writes(
                standing(*old(sink)),
                standing(*final(sink)),
                emission(*final(sink), *final(state)),
                emission_of(outcome),
                failure_of(r),
            )
            &&& r matches Ok(object) ==> outcome matches Ok(w) && block_values(object.records@)
                == w.blocks
        }),
        r is Ok ==> emission(*final(sink), *final(state)).wf(options.stripe_width),
        final(state).volume_headers == old(state).volume_headers,
        final(state).volume_format_rev == old(state).volume_format_rev,
{
    let mut next_block_index: u64 = state.next_block_index;
    let sealed: Result<EncryptedObject, FormatError> = encrypt_object(
        codec,
        payload,
        context,
        &mut next_block_index,
        options,
    );
    let object: EncryptedObject = match sealed {
        Ok(object) => object,
        Err(error) => {
            return Err(
                ArchiveWriteError::Format(
                    match metadata_kind {
                        Some(kind) => map_metadata_encrypt_error(error, kind),
                        None => error,
                    },
                ),
            );
        },
    };
    lift(validate_planned_extent(&object, expected_extent))?;
    state.next_block_index = next_block_index;
    emit_block_records(codec, sink, options, state, &object.records)?;
    Ok(object)
}

// ---------------------------------------------------------------------------------------------
// Beginning
// ---------------------------------------------------------------------------------------------

/// The header of a volume.
pub open spec fn volume_header(
    layout: WireLayout,
    stripe_width: u32,
    crypto_header_len: int,
    archive_uuid: [u8; 16],
    session_id: [u8; 16],
    rev: u16,
    volume_index: int,
) -> VolumeHeader {
    VolumeHeader {
        format_version: layout.format_version,
        volume_format_rev: rev,
        volume_index: volume_index as u32,
        stripe_width,
        archive_uuid,
        session_id,
        crypto_header_offset: layout.volume_header as u32,
        crypto_header_length: crypto_header_len as u32,
        header_crc32c: 0,
    }
}

/// The bytes in front of the blocks of a volume.
pub open spec fn volume_start<C: ArchiveCodec>(
    codec: &C,
    stripe_width: u32,
    crypto_header: Seq<u8>,
    key_wrap_table: Option<Seq<u8>>,
    archive_uuid: [u8; 16],
    session_id: [u8; 16],
    rev: u16,
    volume_index: int,
) -> Seq<u8> {
    let head = codec.encoded(
        Record::VolumeHeader(
            volume_header(
                codec.spec_layout(),
                stripe_width,
                crypto_header.len() as int,
                archive_uuid,
                session_id,
                rev,
                volume_index,
            ),
        ),
    ) + crypto_header;
    match key_wrap_table {
        Some(table) => head + table,
        None => head,
    }
}

/// How many bytes stand in front of the blocks of a volume.
pub open spec fn volume_start_len(
    layout: WireLayout,
    crypto_header: Seq<u8>,
    key_wrap_table: Option<Seq<u8>>,
) -> int {
    layout.volume_header + crypto_header.len() + match key_wrap_table {
        Some(table) => table.len() as int,
        None => 0,
    }
}

/// The archive after its volumes have begun.
pub open spec fn begun<C: ArchiveCodec>(
    codec: &C,
    stripe_width: u32,
    crypto_header: Seq<u8>,
    key_wrap_table: Option<Seq<u8>>,
    archive_uuid: [u8; 16],
    session_id: [u8; 16],
    rev: u16,
    collect: bool,
) -> Result<Emission, FormatError> {
    if stripe_width > 0 && crypto_header.len() > u32::MAX {
        Err(FormatError::WriterUnsupported("CryptoHeader"))
    } else if stripe_width > 0 && volume_start_len(
        codec.spec_layout(),
        crypto_header,
        key_wrap_table,
    ) > u64::MAX {
        Err(FormatError::WriterUnsupported("KeyWrapTableV1"))
    } else {
        Ok(
            Emission {
                volumes: Seq::new(
                    stripe_width as nat,
                    |i: int|
                        volume_start(
                            codec,
                            stripe_width,
                            crypto_header,
                            key_wrap_table,
                            archive_uuid,
                            session_id,
                            rev,
                            i,
                        ),
                ),
                sidecar: Seq::empty(),
                bytes_written: Seq::new(
                    stripe_width as nat,
                    |i: int|
                        volume_start_len(
                            codec.spec_layout(),
                            crypto_header,
                            key_wrap_table,
                        ) as u64,
                ),
                record_counts: Seq::new(stripe_width as nat, |i: int| 0u64),
                leaves: if collect {
                    Some(Seq::empty())
                } else {
                    None
                },
                next_block_index: 0,
            },
        )
    }
}

fn zero_counters(count: usize) -> (r: Vec<u64>)
    ensures
        r@ == Seq::new(count as nat, |i: int| 0u64),
{
    let v: Vec<u64> = vec![0u64; count];
    assert(v@ =~= Seq::new(count as nat, |i: int| 0u64));
    v
}

/// Begins every volume with its header, the crypto header and the key-wrap table.
#[verifier::rlimit(60)]
#[verifier::loop_isolation(false)]
pub fn begin_writer_emission_state<C: ArchiveCodec, O: ArchiveWriteSink>(
    codec: &C,
    sink: &mut O,
    options: WriterOptions,
    crypto_header: &[u8],
    key_wrap_table: Option<&[u8]>,
    archive_uuid: [u8; 16],
    session_id: [u8; 16],
    volume_format_rev: u16,
    collect_data_leaf_hashes: bool,
) -> (r: Result<WriterEmissionState, ArchiveWriteError>)
    ensures
        ({
            let outcome = begun(
                codec,
                options.stripe_width,
                crypto_header@,
                opt_bytes(key_wrap_table),
                archive_uuid,
                session_id,
                volume_format_rev,
                collect_data_leaf_hashes,
            );
            &&& match r {
                Ok(state) => {
                    &&& outcome == Ok::<Emission, FormatError>(emission(*final(sink), state))
                    &&& state.volume_format_rev == volume_format_rev
                    &&& state.volume_headers@.len() == options.stripe_width
                    &&& forall|i: int|
                        0 <= i < options.stripe_width ==> (#[trigger] state.volume_headers@[i])@
                            == codec.encoded(
                            Record::VolumeHeader(
                                volume_header(
                                    codec.spec_layout(),
                                    options.stripe_width,
                                    crypto_header@.len() as int,
                                    archive_uuid,
                                    session_id,
                                    volume_format_rev,
                                    i,
                                ),
                            ),
                        ) && state.volume_headers@[i]@.len() == codec.spec_layout().volume_header
                },
                Err(_) => true,
            }
            &&& standing(*old(sink)).hands_on(standing(*final(sink)), failure_of(r))
            &&& standing(*old(sink)).undisturbed(standing(*final(sink))) ==> (match outcome {
                Ok(_) => r is Ok,
                Err(e) => r == Err::<WriterEmissionState, ArchiveWriteError>(
                    ArchiveWriteError::Format(e),
                ),
            })
        }),
{
    let layout: WireLayout = codec.layout();
    let volume_count: usize = options.stripe_width as usize;
    let ghost table = opt_bytes(key_wrap_table);
    sink.begin_archive(volume_count)?;
    let mut volume_headers: Vec<Vec<u8>> = Vec::new();
    let mut bytes_written: Vec<u64> = zero_counters(volume_count);
    let record_counts: Vec<u64> = zero_counters(volume_count);
    let ghost start_len = volume_start_len(layout, crypto_header@, table);
    let ghost began = standing(*old(sink));
    let mut volume_index: usize = 0;
    while volume_index < volume_count
        invariant
            volume_index <= volume_count,
            began.goes_on(standing(*sink)),
            sink.volumes().len() == volume_count,
            sink.sidecar() == Seq::<u8>::empty(),
            bytes_written@.len() == volume_count,
            volume_headers@.len() == volume_index,
            volume_index > 0 ==> crypto_header@.len() <= u32::MAX && start_len <= u64::MAX,
            forall|i: int|
                0 <= i < volume_index ==> #[trigger] sink.volumes()[i] == volume_start(
                    codec,
                    options.stripe_width,
                    crypto_header@,
                    table,
                    archive_uuid,
                    session_id,
                    volume_format_rev,
                    i,
                ),
            forall|i: int|
                volume_index <= i < volume_count ==> #[trigger] sink.volumes()[i] == Seq::<
                    u8,
                >::empty(),
            forall|i: int| 0 <= i < volume_index ==> #[trigger] bytes_written@[i] == start_len,
            forall|i: int|
                0 <= i < volume_index ==> (#[trigger] volume_headers@[i])@ == codec.encoded(
                    Record::VolumeHeader(
                        volume_header(
                            layout,
                            options.stripe_width,
                            crypto_header@.len() as int,
                            archive_uuid,
                            session_id,
                            volume_format_rev,
                            i,
                        ),
                    ),
                ) && volume_headers@[i]@.len() == layout.volume_header,
        decreases volume_count - volume_index,
    {
        let header: VolumeHeader = VolumeHeader {
            format_version: layout.format_version,
            volume_format_rev,
            volume_index: volume_index as u32,
            stripe_width: options.stripe_width,
            archive_uuid,
            session_id,
            crypto_header_offset: layout.volume_header as u32,
            crypto_header_length: lift(u32_len(crypto_header.len(), "CryptoHeader"))?,
            header_crc32c: 0,
        };
        let header_bytes: Vec<u8> = codec.encode(&Record::VolumeHeader(header));
        let ghost before = sink.volumes();
        sink.write_volume(volume_index, header_bytes.as_slice())?;
        sink.write_volume(volume_index, crypto_header)?;
        let mut written: u64 = layout.volume_header as u64 + crypto_header.len() as u64;
        if let Some(table_bytes) = key_wrap_table {
            sink.write_volume(volume_index, table_bytes)?;
            written = lift(
                checked_u64_add(written, table_bytes.len() as u64, "KeyWrapTableV1"),
            )?;
        }
        proof {
            let expected = volume_start(
                codec,
                options.stripe_width,
                crypto_header@,
                table,
                archive_uuid,
                session_id,
                volume_format_rev,
                volume_index as int,
            );
            assert(before[volume_index as int] + header_bytes@ =~= header_bytes@);
            assert(sink.volumes()[volume_index as int] =~= expected);
            assert(sink.volumes() =~= before.update(volume_index as int, expected));
        }
        bytes_written[volume_index] = written;
        volume_headers.push(header_bytes);
        volume_index = volume_index + 1;
    }
    let state: WriterEmissionState = WriterEmissionState {
        volume_headers,
        bytes_written,
        record_counts,
        volume_format_rev,
        data_leaf_hashes: if collect_data_leaf_hashes {
            Some(Vec::new())
        } else {
            None
        },
        next_block_index: 0,
    };
    proof {
        if let Ok(e) = begun(
            codec,
            options.stripe_width,
            crypto_header@,
            table,
            archive_uuid,
            session_id,
            volume_format_rev,
            collect_data_leaf_hashes,
        ) {
            let now = emission(*sink, state);
            assert(now.volumes =~= e.volumes);
            assert(now.bytes_written =~= e.bytes_written);
            assert(now.record_counts =~= e.record_counts);
            if collect_data_leaf_hashes {
                assert(now.leaves->Some_0 =~= Seq::<DataLeaf>::empty());
            }
        }
    }
    Ok(state)
}

// ---------------------------------------------------------------------------------------------
// Laws
// ---------------------------------------------------------------------------------------------

/// Writing a block touches its own volume only, and keeps the account of every volume right.
pub proof fn blocks_go_home<C: ArchiveCodec>(
    codec: &C,
    e: Emission,
    stripe_width: u32,
    rev: u16,
    block: BlockValue,
)
    requires
        e.wf(stripe_width),
    ensures
        with_block(codec, e, stripe_width, rev, block) matches Ok(after) ==> {
            &&& after.wf(stripe_width)
            &&& e.is_accounted() ==> after.is_accounted()
            &&& forall|v: int|
                0 <= v < stripe_width && v != home_volume(block.block_index, stripe_width)
                    ==> #[trigger] after.volumes[v] == e.volumes[v]
            &&& after.volumes[home_volume(block.block_index, stripe_width)]
                == e.volumes[home_volume(block.block_index, stripe_width)] + codec.block_bytes(
                block,
            )
        },
{
    let v = home_volume(block.block_index, stripe_width);
    if let Ok(after) = with_block(codec, e, stripe_width, rev, block) {
        assert(0 <= v < stripe_width);
        assert(after.volumes == e.volumes.update(v, e.volumes[v] + codec.block_bytes(block)));
    }
}

/// A freshly begun archive has the account of every volume right.
pub proof fn begun_archives_are_accounted<C: ArchiveCodec>(
    codec: &C,
    stripe_width: u32,
    crypto_header: Seq<u8>,
    key_wrap_table: Option<Seq<u8>>,
    archive_uuid: [u8; 16],
    session_id: [u8; 16],
    rev: u16,
    collect: bool,
    e: Emission,
)
    requires
        begun(
            codec,
            stripe_width,
            crypto_header,
            key_wrap_table,
            archive_uuid,
            session_id,
            rev,
            collect,
        ) == Ok::<Emission, FormatError>(e),
        forall|i: int|
            0 <= i < stripe_width ==> (#[trigger] codec.encoded(
                Record::VolumeHeader(
                    volume_header(
                        codec.spec_layout(),
                        stripe_width,
                        crypto_header.len() as int,
                        archive_uuid,
                        session_id,
                        rev,
                        i,
                    ),
                ),
            )).len() == codec.spec_layout().volume_header,
    ensures
        e.is_accounted(),
{
}

} // verus!
