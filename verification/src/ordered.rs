//! Writing the payload in pieces that may be made at the same time: frames and envelopes are
//! numbered, made in any order, and put back into order before they are used.
use crate::arith::checked_u64_add;
use crate::bytes::to_bytes;
use crate::codec::{ArchiveCodec, ObjectDomain};
use crate::digest::hasher_finalize;
use crate::emit::{
    emission, emit_block_records, emit_serialized_block_record, home_volume, lift, with_blocks,
    with_record, writes, Emission, WriterEmissionState,
};
use crate::errors::{ArchiveWriteError, FormatError};
use crate::members::StreamTaker;
use crate::object_plan::ObjectExtent;
use crate::objects::ArchiveSeal;
use crate::options::WriterOptions;
use crate::packing::{
    flushed_plan, nothing_packed, take_planned_envelope, with_counted, with_hashed,
    with_placed_frame, PackValue, PayloadPacking,
};
use crate::payload::{
    bounded_chunk_len, needs_flush, next_chunk_len, payload_envelope_needs_flush, FramePlace,
    FrameTaker, Framing,
};
use crate::plan::PayloadPlanning;
use crate::reorder::{
    after_arrivals, arrival_in_turn, arrival_order_does_not_matter, handed_out, is_arrival_order,
    BufferValue, ReorderBuffer,
};
use crate::rows::TarMember;
use crate::seal::{
    block_values, encrypt_object, encrypted_outcome, extent_check,
    serialize_zero_parity_encrypted_object, serialized_blocks, serialized_outcome,
    serialized_values, validate_planned_extent, EncryptedObject, ObjectEncryptionContext,
    SerializedBlockRecord, SerializedValue,
};
use crate::sink::{failure_of, standing, ArchiveWriteSink, Standing};
use crate::streaming::{streams, PayloadWriter, StreamSetting, StreamValue};
use crate::suffix::header_values;
use crate::wire::{BlockRecord, BlockValue};
use vstd::prelude::*;

verus! {

// ---------------------------------------------------------------------------------------------
// Frames
// ---------------------------------------------------------------------------------------------

/// A chunk that is to be compressed.
pub struct OrderedFrameJob {
    pub frame_index: u64,
    pub place: FramePlace,
    pub plaintext: Vec<u8>,
}

/// A compressed chunk.
pub struct OrderedFrameResult {
    pub frame_index: u64,
    pub place: FramePlace,
    pub decompressed_size: usize,
    pub frame: Vec<u8>,
}

/// Compresses a chunk.
pub fn build_ordered_frame_result<C: ArchiveCodec>(
    codec: &C,
    job: OrderedFrameJob,
    options: WriterOptions,
) -> (r: Result<OrderedFrameResult, FormatError>)
    ensures
        match (r, codec.compressed(job.plaintext@, options.zstd_level, None, 1)) {
            (Ok(result), Ok(frame)) => {
                &&& result.frame@ == frame
                &&& result.frame_index == job.frame_index
                &&& result.place == job.place
                &&& result.decompressed_size == job.plaintext@.len()
            },
            (Err(e), Err(f)) => e == f,
            _ => false,
        },
{
    let frame: Vec<u8> = codec.compress(job.plaintext.as_slice(), options.zstd_level, None, 1)?;
    Ok(
        OrderedFrameResult {
            frame_index: job.frame_index,
            place: job.place,
            decompressed_size: job.plaintext.len(),
            frame,
        },
    )
}

// ---------------------------------------------------------------------------------------------
// Envelopes
// ---------------------------------------------------------------------------------------------

/// An envelope that is to be sealed.
pub struct OrderedEnvelopeJob {
    pub envelope_index: u64,
    pub plaintext: Vec<u8>,
    pub extent: ObjectExtent,
    pub collect_data_leaf_hashes: bool,
}

pub struct EnvelopeJobValue {
    pub envelope_index: u64,
    pub plaintext: Seq<u8>,
    pub extent: ObjectExtent,
    pub collect: bool,
}

impl View for OrderedEnvelopeJob {
    type V = EnvelopeJobValue;

    open spec fn view(&self) -> EnvelopeJobValue {
        EnvelopeJobValue {
            envelope_index: self.envelope_index,
            plaintext: self.plaintext@,
            extent: self.extent,
            collect: self.collect_data_leaf_hashes,
        }
    }
}

/// The blocks of an envelope: as blocks, or written out where nothing but their bytes matters.
pub enum OrderedEnvelopeRecords {
    Materialized(Vec<BlockRecord>),
    Serialized(Vec<SerializedBlockRecord>),
}

pub enum EnvelopeRecordsValue {
    Materialized(Seq<BlockValue>),
    Serialized(Seq<SerializedValue>),
}

impl View for OrderedEnvelopeRecords {
    type V = EnvelopeRecordsValue;

    open spec fn view(&self) -> EnvelopeRecordsValue {
        match self {
            OrderedEnvelopeRecords::Materialized(records) => EnvelopeRecordsValue::Materialized(
                block_values(records@),
            ),
            OrderedEnvelopeRecords::Serialized(records) => EnvelopeRecordsValue::Serialized(
                serialized_values(records@),
            ),
        }
    }
}

/// A sealed envelope.
pub struct OrderedEnvelopeResult {
    pub envelope_index: u64,
    pub records: OrderedEnvelopeRecords,
}

/// The blocks of an envelope. Those of one without parity, whose leaves nobody collects, are
/// written out directly.
pub open spec fn envelope_records<C: ArchiveCodec>(
    codec: &C,
    job: EnvelopeJobValue,
    seal: ArchiveSeal,
    o: WriterOptions,
) -> Result<EnvelopeRecordsValue, FormatError> {
    let context = seal.spec_context(ObjectDomain::Envelope, job.envelope_index, o);
    if job.extent.parity_block_count == 0 && !job.collect {
        match serialized_outcome(codec, job.plaintext, context, job.extent, o) {
            Err(e) => Err(e),
            Ok(records) => Ok(EnvelopeRecordsValue::Serialized(records)),
        }
    } else {
        match encrypted_outcome(codec, job.plaintext, context, job.extent.first_block_index, o) {
            Err(e) => Err(e),
            Ok(object) => match extent_check(object.extent, job.extent) {
                Err(e) => Err(e),
                Ok(_) => Ok(EnvelopeRecordsValue::Materialized(object.records)),
            },
        }
    }
}

/// Seals an envelope.
pub fn build_ordered_envelope_result<C: ArchiveCodec>(
    codec: &C,
    job: &OrderedEnvelopeJob,
    seal: &ArchiveSeal,
    options: WriterOptions,
) -> (r: Result<OrderedEnvelopeResult, FormatError>)
    requires
        options.block_size > 0,
    ensures
        match (r, envelope_records(codec, job@, *seal, options)) {
            (Ok(result), Ok(records)) => result.envelope_index == job.envelope_index
                && result.records@ == records,
            (Err(e), Err(f)) => e == f,
            _ => false,
        },
{
    let context: ObjectEncryptionContext = seal.context(
        ObjectDomain::Envelope,
        job.envelope_index,
        options,
    );
    if job.extent.parity_block_count == 0 && !job.collect_data_leaf_hashes {
        let records: Vec<SerializedBlockRecord> = serialize_zero_parity_encrypted_object(
            codec,
            job.plaintext.as_slice(),
            &context,
            job.extent,
            options,
        )?;
        return Ok(
            OrderedEnvelopeResult {
                envelope_index: job.envelope_index,
                records: OrderedEnvelopeRecords::Serialized(records),
            },
        );
    }
    let mut next_block_index: u64 = job.extent.first_block_index;
    let object: EncryptedObject = encrypt_object(
        codec,
        job.plaintext.as_slice(),
        &context,
        &mut next_block_index,
        options,
    )?;
    validate_planned_extent(&object, job.extent)?;
    Ok(
        OrderedEnvelopeResult {
            envelope_index: job.envelope_index,
            records: OrderedEnvelopeRecords::Materialized(object.records),
        },
    )
}

/// The first `count` of some blocks that were written out, each in its volume.
pub open spec fn with_serialized(
    e: Emission,
    stripe_width: u32,
    records: Seq<SerializedValue>,
    count: nat,
) -> Result<Emission, FormatError>
    decreases count,
{
    if count == 0 {
        Ok(e)
    } else {
        match with_serialized(e, stripe_width, records, (count - 1) as nat) {
            Err(f) => Err(f),
            Ok(before) => with_record(
                before,
                home_volume(records[count - 1].block_index, stripe_width),
                records[count - 1].bytes,
            ),
        }
    }
}

/// The archive after an envelope was written.
pub open spec fn with_envelope_records<C: ArchiveCodec>(
    codec: &C,
    e: Emission,
    stripe_width: u32,
    rev: u16,
    records: EnvelopeRecordsValue,
) -> Result<Emission, FormatError> {
    match records {
        EnvelopeRecordsValue::Materialized(blocks) => with_blocks(
            codec,
            e,
            stripe_width,
            rev,
            blocks,
            blocks.len(),
        ),
        EnvelopeRecordsValue::Serialized(written) => with_serialized(
            e,
            stripe_width,
            written,
            written.len(),
        ),
    }
}

proof fn first_serialized_error_stays(
    e: Emission,
    stripe_width: u32,
    records: Seq<SerializedValue>,
    count: nat,
    total: nat,
)
    requires
        count <= total,
        with_serialized(e, stripe_width, records, count) is Err,
    ensures
        with_serialized(e, stripe_width, records, total) == with_serialized(
            e,
            stripe_width,
            records,
            count,
        ),
    decreases total,
{
    if count < total {
        first_serialized_error_stays(e, stripe_width, records, count, (total - 1) as nat);
    }
}

/// Where no leaves are collected, blocks that are written out directly leave the archive as the
/// blocks themselves would.
pub proof fn serialized_blocks_are_written_alike<C: ArchiveCodec>(
    codec: &C,
    e: Emission,
    stripe_width: u32,
    rev: u16,
    blocks: Seq<BlockValue>,
    count: nat,
)
    requires
        e.leaves is None,
        count <= blocks.len(),
    ensures
        with_serialized(e, stripe_width, serialized_blocks(codec, blocks), count) == with_blocks(
            codec,
            e,
            stripe_width,
            rev,
            blocks,
            count,
        ),
        with_blocks(codec, e, stripe_width, rev, blocks, count) matches Ok(after) ==> after.leaves
            is None,
    decreases count,
{
    if count > 0 {
        serialized_blocks_are_written_alike(
            codec,
            e,
            stripe_width,
            rev,
            blocks,
            (count - 1) as nat,
        );
    }
}

/// Writes blocks that were written out before, each to its volume.
#[verifier::loop_isolation(false)]
fn emit_serialized_records<O: ArchiveWriteSink>(
    sink: &mut O,
    options: WriterOptions,
    state: &mut WriterEmissionState,
    records: &Vec<SerializedBlockRecord>,
) -> (r: Result<(), ArchiveWriteError>)
    requires
        emission(*old(sink), *old(state)).wf(options.stripe_width),
    ensures
        writes(
            standing(*old(sink)),
            standing(*final(sink)),
            emission(*final(sink), *final(state)),
            with_serialized(
                emission(*old(sink), *old(state)),
                options.stripe_width,
                serialized_values(records@),
                records@.len(),
            ),
            failure_of(r),
        ),
        r is Ok ==> emission(*final(sink), *final(state)).wf(options.stripe_width),
        final(state).volume_headers == old(state).volume_headers,
        final(state).volume_format_rev == old(state).volume_format_rev,
{
    let ghost start = emission(*sink, *state);
    let ghost written = serialized_values(records@);
    let ghost began = standing(*sink);
    let ghost headers = state.volume_headers;
    let ghost rev = state.volume_format_rev;
    let mut i: usize = 0;
    while i < records.len()
        invariant
            i <= records@.len(),
            with_serialized(start, options.stripe_width, written, i as nat) == Ok::<
                Emission,
                FormatError,
            >(emission(*sink, *state)),
            emission(*sink, *state).wf(options.stripe_width),
            began.goes_on(standing(*sink)),
            state.volume_format_rev == rev,
            state.volume_headers == headers,
        decreases records.len() - i,
    {
        proof {
            if with_serialized(start, options.stripe_width, written, (i + 1) as nat) is Err {
                first_serialized_error_stays(
                    start,
                    options.stripe_width,
                    written,
                    (i + 1) as nat,
                    records@.len(),
                );
            }
        }
        emit_serialized_block_record(sink, options, state, &records[i])?;
        i = i + 1;
    }
    Ok(())
}

/// Writes a sealed envelope.
pub fn emit_ordered_envelope_result<C: ArchiveCodec, O: ArchiveWriteSink>(
    codec: &C,
    result: &OrderedEnvelopeResult,
    sink: &mut O,
    options: WriterOptions,
    state: &mut WriterEmissionState,
) -> (r: Result<(), ArchiveWriteError>)
    requires
        emission(*old(sink), *old(state)).wf(options.stripe_width),
    ensures
        writes(
            standing(*old(sink)),
            standing(*final(sink)),
            emission(*final(sink), *final(state)),
            with_envelope_records(
                codec,
                emission(*old(sink), *old(state)),
                options.stripe_width,
                old(state).volume_format_rev,
                result.records@,
            ),
            failure_of(r),
        ),
        r is Ok ==> emission(*final(sink), *final(state)).wf(options.stripe_width),
        final(state).volume_headers == old(state).volume_headers,
        final(state).volume_format_rev == old(state).volume_format_rev,
{
    match &result.records {
        OrderedEnvelopeRecords::Materialized(records) => emit_block_records(
            codec,
            sink,
            options,
            state,
            records,
        ),
        OrderedEnvelopeRecords::Serialized(records) => emit_serialized_records(
            sink,
            options,
            state,
            records,
        ),
    }
}

// ---------------------------------------------------------------------------------------------
// Order
// ---------------------------------------------------------------------------------------------

/// The payload so far, and the envelopes that became full.
pub struct OrderedPack {
    pub pack: PackValue,
    pub jobs: Seq<EnvelopeJobValue>,
}

/// The payload after the current envelope was closed, which is to be sealed.
pub open spec fn with_full_envelope(v: OrderedPack, o: WriterOptions, collect: bool) -> Result<
    OrderedPack,
    FormatError,
> {
    match flushed_plan(v.pack, o) {
        Err(e) => Err(e),
        Ok(pack) => Ok(
            OrderedPack {
                pack,
                jobs: v.jobs.push(
                    EnvelopeJobValue {
                        envelope_index: v.pack.envelope_index,
                        plaintext: v.pack.plaintext,
                        extent: pack.objects.last().object,
                        collect,
                    },
                ),
            },
        ),
    }
}

pub open spec fn with_ordered_place(
    v: OrderedPack,
    chunk_len: int,
    frame: Seq<u8>,
    place: FramePlace,
    o: WriterOptions,
) -> Result<OrderedPack, FormatError> {
    match with_placed_frame(v.pack, chunk_len, frame, place, o) {
        Err(e) => Err(e),
        Ok(pack) => Ok(OrderedPack { pack, jobs: v.jobs }),
    }
}

/// The payload after the next frame.
pub open spec fn with_ordered_frame(
    v: OrderedPack,
    chunk_len: int,
    frame: Seq<u8>,
    place: FramePlace,
    o: WriterOptions,
    collect: bool,
) -> Result<OrderedPack, FormatError> {
    match needs_flush(v.pack.plaintext.len() as int, frame.len() as int, o) {
        Err(e) => Err(e),
        Ok(false) => with_ordered_place(v, chunk_len, frame, place, o),
        Ok(true) => match with_full_envelope(v, o, collect) {
            Err(e) => Err(e),
            Ok(w) => with_ordered_place(w, chunk_len, frame, place, o),
        },
    }
}

/// The payload after the first `count` frames of a run.
pub open spec fn with_ordered_frames(
    v: OrderedPack,
    results: Seq<OrderedFrameResult>,
    o: WriterOptions,
    collect: bool,
    count: nat,
) -> Result<OrderedPack, FormatError>
    decreases count,
{
    if count == 0 {
        Ok(v)
    } else {
        match with_ordered_frames(v, results, o, collect, (count - 1) as nat) {
            Err(e) => Err(e),
            Ok(before) => with_ordered_frame(
                before,
                results[count - 1].decompressed_size as int,
                results[count - 1].frame@,
                results[count - 1].place,
                o,
                collect,
            ),
        }
    }
}

proof fn first_frame_error_stays(
    v: OrderedPack,
    results: Seq<OrderedFrameResult>,
    o: WriterOptions,
    collect: bool,
    count: nat,
    total: nat,
)
    requires
        count <= total,
        with_ordered_frames(v, results, o, collect, count) is Err,
    ensures
        with_ordered_frames(v, results, o, collect, total) == with_ordered_frames(
            v,
            results,
            o,
            collect,
            count,
        ),
    decreases total,
{
    if count < total {
        first_frame_error_stays(v, results, o, collect, count, (total - 1) as nat);
    }
}

/// The archive after the first `count` envelopes of a run.
pub open spec fn with_envelope_run<C: ArchiveCodec>(
    codec: &C,
    e: Emission,
    stripe_width: u32,
    rev: u16,
    results: Seq<OrderedEnvelopeResult>,
    count: nat,
) -> Result<Emission, FormatError>
    decreases count,
{
    if count == 0 {
        Ok(e)
    } else {
        match with_envelope_run(codec, e, stripe_width, rev, results, (count - 1) as nat) {
            Err(f) => Err(f),
            Ok(before) => with_envelope_records(
                codec,
                before,
                stripe_width,
                rev,
                results[count - 1].records@,
            ),
        }
    }
}

proof fn first_envelope_error_stays<C: ArchiveCodec>(
    codec: &C,
    e: Emission,
    stripe_width: u32,
    rev: u16,
    results: Seq<OrderedEnvelopeResult>,
    count: nat,
    total: nat,
)
    requires
        count <= total,
        with_envelope_run(codec, e, stripe_width, rev, results, count) is Err,
    ensures
        with_envelope_run(codec, e, stripe_width, rev, results, total) == with_envelope_run(
            codec,
            e,
            stripe_width,
            rev,
            results,
            count,
        ),
    decreases total,
{
    if count < total {
        first_envelope_error_stays(codec, e, stripe_width, rev, results, count, (total - 1) as nat);
    }
}

pub open spec fn job_values(jobs: Seq<OrderedEnvelopeJob>) -> Seq<EnvelopeJobValue> {
    Seq::new(jobs.len(), |i: int| jobs[i]@)
}

/// Puts frames and envelopes into order: the frames into envelopes, the envelopes into volumes.
pub struct OrderedParallelState {
    pub packing: PayloadPacking,
    pub seal: ArchiveSeal,
    pub state: WriterEmissionState,
    pub next_frame_job_index: u64,
    pub frame_buffer: ReorderBuffer<OrderedFrameResult>,
    pub envelope_buffer: ReorderBuffer<OrderedEnvelopeResult>,
}

impl OrderedParallelState {
    pub open spec fn value<O: ArchiveWriteSink>(&self, sink: O) -> StreamValue {
        StreamValue { pack: self.packing@, emission: emission(sink, self.state) }
    }

    pub open spec fn kept(&self) -> StreamSetting {
        StreamSetting {
            options: self.packing.options,
            seal: self.seal,
            rev: self.state.volume_format_rev,
            headers: header_values(self.state),
        }
    }

    /// Whether leaves are collected for a signer.
    pub open spec fn collects(&self) -> bool {
        self.state.data_leaf_hashes is Some
    }

    pub open spec fn in_order<O: ArchiveWriteSink>(&self, sink: O) -> bool {
        &&& self.packing.options.block_size > 0
        &&& emission(sink, self.state).wf(self.packing.options.stripe_width)
        &&& self.frame_buffer@.wf()
        &&& self.envelope_buffer@.wf()
    }

    /// Whether nothing waits for anything.
    pub open spec fn is_settled(&self) -> bool {
        &&& self.next_frame_job_index == self.packing.next_frame_index
        &&& self.frame_buffer@ == (BufferValue::<OrderedFrameResult> {
            next: self.packing.next_frame_index,
            waiting: Map::empty(),
        })
        &&& self.envelope_buffer@ == (BufferValue::<OrderedEnvelopeResult> {
            next: self.packing.envelope.envelope_index,
            waiting: Map::empty(),
        })
    }

    pub fn new(options: WriterOptions, seal: ArchiveSeal, state: WriterEmissionState) -> (r: Self)
        ensures
            r.is_settled(),
            r.packing@ == nothing_packed(0),
            r.packing.options == options,
            r.seal == seal,
            r.state == state,
    {
        OrderedParallelState {
            packing: PayloadPacking::new(options, 0),
            seal,
            state,
            next_frame_job_index: 0,
            frame_buffer: ReorderBuffer::new(),
            envelope_buffer: ReorderBuffer::new(),
        }
    }

    /// Numbers a chunk that was read and takes it into the digest.
    pub fn number_chunk(&mut self, chunk: &[u8]) -> (r: Result<u64, FormatError>)
        ensures
            match r {
                Ok(index) => {
                    &&& index == old(self).next_frame_job_index
                    &&& index < u64::MAX
                    &&& final(self).next_frame_job_index == index + 1
                },
                Err(e) => {
                    &&& old(self).next_frame_job_index == u64::MAX
                    &&& e == FormatError::WriterUnsupported("PayloadFrame.frame_index")
                },
            },
            final(self).packing@ == with_hashed(old(self).packing@, chunk@),
            final(self).packing.options == old(self).packing.options,
            final(self).seal == old(self).seal,
            final(self).state == old(self).state,
            final(self).frame_buffer == old(self).frame_buffer,
            final(self).envelope_buffer == old(self).envelope_buffer,
    {
        self.packing.hash_chunk(chunk);
        let index: u64 = self.next_frame_job_index;
        self.next_frame_job_index = checked_u64_add(index, 1, "PayloadFrame.frame_index")?;
        Ok(index)
    }

    /// Closes the current envelope.
    pub fn close_full_envelope(&mut self) -> (r: Result<OrderedEnvelopeJob, FormatError>)
        requires
            old(self).packing.options.block_size > 0,
        ensures
            final(self).packing.options == old(self).packing.options,
            final(self).seal == old(self).seal,
            final(self).state == old(self).state,
            final(self).next_frame_job_index == old(self).next_frame_job_index,
            final(self).frame_buffer == old(self).frame_buffer,
            final(self).envelope_buffer == old(self).envelope_buffer,
            match (
                r,
                with_full_envelope(
                    (OrderedPack { pack: old(self).packing@, jobs: Seq::empty() }),
                    old(self).packing.options,
                    old(self).collects(),
                ),
            ) {
                (Ok(job), Ok(v)) => final(self).packing@ == v.pack && v.jobs == seq![job@],
                (Err(e), Err(f)) => e == f,
                _ => false,
            },
    {
        let envelope_index: u64 = self.packing.envelope.envelope_index;
        let (extent, plaintext) = take_planned_envelope(&mut self.packing)?;
        let job = OrderedEnvelopeJob {
            envelope_index,
            plaintext,
            extent,
            collect_data_leaf_hashes: self.state.data_leaf_hashes.is_some(),
        };
        assert(Seq::<EnvelopeJobValue>::empty().push(job@) =~= seq![job@]);
        Ok(job)
    }

    /// Takes a compressed frame, and hands out the envelopes that became full.
    #[verifier::loop_isolation(false)]
    pub fn receive_ordered_frame_result(&mut self, result: OrderedFrameResult) -> (r: Result<
        Vec<OrderedEnvelopeJob>,
        FormatError,
    >)
        requires
            old(self).packing.options.block_size > 0,
            old(self).frame_buffer@.wf(),
            result.frame_index < u64::MAX,
        ensures
            final(self).packing.options == old(self).packing.options,
            final(self).seal == old(self).seal,
            final(self).state == old(self).state,
            final(self).next_frame_job_index == old(self).next_frame_job_index,
            final(self).envelope_buffer == old(self).envelope_buffer,
            final(self).frame_buffer@ == old(self).frame_buffer@.arrived(
                result.frame_index,
                result,
            ),
            final(self).frame_buffer@.wf(),
            ({
                let run = old(self).frame_buffer@.released(result.frame_index, result);
                match (
                    r,
                    with_ordered_frames(
                        (OrderedPack { pack: old(self).packing@, jobs: Seq::empty() }),
                        run,
                        old(self).packing.options,
                        old(self).collects(),
                        run.len(),
                    ),
                ) {
                    (Ok(jobs), Ok(v)) => final(self).packing@ == v.pack && job_values(jobs@)
                        == v.jobs,
                    (Err(e), Err(f)) => e == f,
                    _ => false,
                }
            }),
    {
        let ghost start = OrderedPack { pack: self.packing@, jobs: Seq::empty() };
        let ghost o = self.packing.options;
        let ghost collect = self.collects();
        let ready: Vec<OrderedFrameResult> = self.frame_buffer.arrive(result.frame_index, result);
        let ghost frames_after = self.frame_buffer;
        let mut jobs: Vec<OrderedEnvelopeJob> = Vec::new();
        assert(job_values(jobs@) =~= Seq::empty());
        let mut i: usize = 0;
        while i < ready.len()
            invariant
                i <= ready@.len(),
                self.packing.options == o,
                self.seal == old(self).seal,
                self.state == old(self).state,
                self.next_frame_job_index == old(self).next_frame_job_index,
                self.frame_buffer == frames_after,
                self.envelope_buffer == old(self).envelope_buffer,
                with_ordered_frames(start, ready@, o, collect, i as nat) == Ok::<
                    OrderedPack,
                    FormatError,
                >(OrderedPack { pack: self.packing@, jobs: job_values(jobs@) }),
            decreases ready.len() - i,
        {
            proof {
                if with_ordered_frames(start, ready@, o, collect, (i + 1) as nat) is Err {
                    first_frame_error_stays(
                        start,
                        ready@,
                        o,
                        collect,
                        (i + 1) as nat,
                        ready@.len(),
                    );
                }
            }
            let next: &OrderedFrameResult = &ready[i];
            let ghost before = OrderedPack { pack: self.packing@, jobs: job_values(jobs@) };
            if payload_envelope_needs_flush(
                &self.packing.envelope,
                next.frame.len(),
                self.packing.options,
            )? {
                let job: OrderedEnvelopeJob = self.close_full_envelope()?;
                jobs.push(job);
                assert(job_values(jobs@) =~= before.jobs.push(job@));
                assert(seq![job@][0] == job@);
            }
            self.packing.place_frame(next.decompressed_size, next.frame.as_slice(), next.place)?;
            i = i + 1;
        }
        Ok(jobs)
    }

    /// Takes a sealed envelope, and writes all that can follow what was written before.
    #[verifier::loop_isolation(false)]
    pub fn receive_ordered_envelope_result<C: ArchiveCodec, O: ArchiveWriteSink>(
        &mut self,
        codec: &C,
        result: OrderedEnvelopeResult,
        sink: &mut O,
    ) -> (r: Result<(), ArchiveWriteError>)
        requires
            emission(*old(sink), old(self).state).wf(old(self).packing.options.stripe_width),
            old(self).envelope_buffer@.wf(),
            result.envelope_index < u64::MAX,
        ensures
            final(self).packing == old(self).packing,
            final(self).seal == old(self).seal,
            final(self).kept() == old(self).kept(),
            final(self).next_frame_job_index == old(self).next_frame_job_index,
            final(self).frame_buffer == old(self).frame_buffer,
            final(self).envelope_buffer@ == old(self).envelope_buffer@.arrived(
                result.envelope_index,
                result,
            ),
            final(self).envelope_buffer@.wf(),
            r is Ok ==> emission(*final(sink), final(self).state).wf(
                old(self).packing.options.stripe_width,
            ),
            ({
                let run = old(self).envelope_buffer@.released(result.envelope_index, result);
                writes(
                    standing(*old(sink)),
                    standing(*final(sink)),
                    emission(*final(sink), final(self).state),
                    with_envelope_run(
                        codec,
                        emission(*old(sink), old(self).state),
                        old(self).packing.options.stripe_width,
                        old(self).state.volume_format_rev,
                        run,
                        run.len(),
                    ),
                    failure_of(r),
                )
            }),
    {
        let ghost start = emission(*sink, self.state);
        let ghost rev = self.state.volume_format_rev;
        let ghost headers = self.state.volume_headers;
        let ghost began = standing(*sink);
        let options: WriterOptions = self.packing.options;
        let ready: Vec<OrderedEnvelopeResult> = self.envelope_buffer.arrive(
            result.envelope_index,
            result,
        );
        let ghost envelopes_after = self.envelope_buffer;
        let mut i: usize = 0;
        while i < ready.len()
            invariant
                i <= ready@.len(),
                self.packing == old(self).packing,
                self.seal == old(self).seal,
                self.next_frame_job_index == old(self).next_frame_job_index,
                self.frame_buffer == old(self).frame_buffer,
                self.envelope_buffer == envelopes_after,
                self.state.volume_format_rev == rev,
                self.state.volume_headers == headers,
                began.goes_on(standing(*sink)),
                emission(*sink, self.state).wf(options.stripe_width),
                with_envelope_run(codec, start, options.stripe_width, rev, ready@, i as nat)
                    == Ok::<Emission, FormatError>(emission(*sink, self.state)),
            decreases ready.len() - i,
        {
            proof {
                if with_envelope_run(
                    codec,
                    start,
                    options.stripe_width,
                    rev,
                    ready@,
                    (i + 1) as nat,
                ) is Err {
                    first_envelope_error_stays(
                        codec,
                        start,
                        options.stripe_width,
                        rev,
                        ready@,
                        (i + 1) as nat,
                        ready@.len(),
                    );
                }
            }
            emit_ordered_envelope_result(codec, &ready[i], sink, options, &mut self.state)?;
            i = i + 1;
        }
        Ok(())
    }
}

// ---------------------------------------------------------------------------------------------
// Any order of arrival
// ---------------------------------------------------------------------------------------------

/// The payload after the first `count` arrivals of `order`, where frame `k` is `results[k]`.
pub open spec fn after_frame_arrivals(
    v: OrderedPack,
    results: Seq<OrderedFrameResult>,
    order: Seq<u64>,
    o: WriterOptions,
    collect: bool,
    count: nat,
) -> Result<OrderedPack, FormatError>
    decreases count,
{
    if count == 0 {
        Ok(v)
    } else {
        match after_frame_arrivals(v, results, order, o, collect, (count - 1) as nat) {
            Err(e) => Err(e),
            Ok(before) => {
                let run = after_arrivals(results, order, (count - 1) as nat).released(
                    order[count - 1],
                    results[order[count - 1] as int],
                );
                with_ordered_frames(before, run, o, collect, run.len())
            },
        }
    }
}

proof fn frames_are_local(
    v: OrderedPack,
    a: Seq<OrderedFrameResult>,
    b: Seq<OrderedFrameResult>,
    o: WriterOptions,
    collect: bool,
    count: nat,
)
    requires
        forall|i: int| 0 <= i < count ==> a[i] == b[i],
    ensures
        with_ordered_frames(v, a, o, collect, count) == with_ordered_frames(
            v,
            b,
            o,
            collect,
            count,
        ),
    decreases count,
{
    if count > 0 {
        frames_are_local(v, a, b, o, collect, (count - 1) as nat);
    }
}

proof fn frames_in_two_runs(
    v: OrderedPack,
    a: Seq<OrderedFrameResult>,
    b: Seq<OrderedFrameResult>,
    o: WriterOptions,
    collect: bool,
    count: nat,
)
    requires
        count <= b.len(),
    ensures
        with_ordered_frames(v, a + b, o, collect, a.len() + count) == (match with_ordered_frames(
            v,
            a,
            o,
            collect,
            a.len(),
        ) {
            Err(e) => Err(e),
            Ok(w) => with_ordered_frames(w, b, o, collect, count),
        }),
    decreases count,
{
    if count == 0 {
        frames_are_local(v, a + b, a, o, collect, a.len());
    } else {
        frames_in_two_runs(v, a, b, o, collect, (count - 1) as nat);
        assert((a + b)[a.len() + count - 1] == b[count - 1]);
    }
}

proof fn arrivals_are_runs(
    v: OrderedPack,
    results: Seq<OrderedFrameResult>,
    order: Seq<u64>,
    o: WriterOptions,
    collect: bool,
    count: nat,
)
    ensures
        after_frame_arrivals(v, results, order, o, collect, count) == with_ordered_frames(
            v,
            handed_out(results, order, count),
            o,
            collect,
            handed_out(results, order, count).len(),
        ),
    decreases count,
{
    if count > 0 {
        arrivals_are_runs(v, results, order, o, collect, (count - 1) as nat);
        let run = after_arrivals(results, order, (count - 1) as nat).released(
            order[count - 1],
            results[order[count - 1] as int],
        );
        frames_in_two_runs(
            v,
            handed_out(results, order, (count - 1) as nat),
            run,
            o,
            collect,
            run.len(),
        );
    }
}

/// In whatever order compressed frames arrive, they make the payload, the envelopes and the
/// failure that they make one after the other.
pub proof fn frames_may_arrive_in_any_order(
    v: OrderedPack,
    results: Seq<OrderedFrameResult>,
    order: Seq<u64>,
    o: WriterOptions,
    collect: bool,
)
    requires
        is_arrival_order(order, results.len()),
        results.len() < u64::MAX,
    ensures
        after_frame_arrivals(v, results, order, o, collect, results.len()) == with_ordered_frames(
            v,
            results,
            o,
            collect,
            results.len(),
        ),
{
    arrivals_are_runs(v, results, order, o, collect, results.len());
    arrival_order_does_not_matter(results, order);
}

/// The archive after the first `count` arrivals of `order`, where envelope `k` is `results[k]`.
pub open spec fn after_envelope_arrivals<C: ArchiveCodec>(
    codec: &C,
    e: Emission,
    stripe_width: u32,
    rev: u16,
    results: Seq<OrderedEnvelopeResult>,
    order: Seq<u64>,
    count: nat,
) -> Result<Emission, FormatError>
    decreases count,
{
    if count == 0 {
        Ok(e)
    } else {
        match after_envelope_arrivals(
            codec,
            e,
            stripe_width,
            rev,
            results,
            order,
            (count - 1) as nat,
        ) {
            Err(f) => Err(f),
            Ok(before) => {
                let run = after_arrivals(results, order, (count - 1) as nat).released(
                    order[count - 1],
                    results[order[count - 1] as int],
                );
                with_envelope_run(codec, before, stripe_width, rev, run, run.len())
            },
        }
    }
}

proof fn envelopes_are_local<C: ArchiveCodec>(
    codec: &C,
    e: Emission,
    stripe_width: u32,
    rev: u16,
    a: Seq<OrderedEnvelopeResult>,
    b: Seq<OrderedEnvelopeResult>,
    count: nat,
)
    requires
        forall|i: int| 0 <= i < count ==> a[i] == b[i],
    ensures
        with_envelope_run(codec, e, stripe_width, rev, a, count) == with_envelope_run(
            codec,
            e,
            stripe_width,
            rev,
            b,
            count,
        ),
    decreases count,
{
    if count > 0 {
        envelopes_are_local(codec, e, stripe_width, rev, a, b, (count - 1) as nat);
    }
}

proof fn envelopes_in_two_runs<C: ArchiveCodec>(
    codec: &C,
    e: Emission,
    stripe_width: u32,
    rev: u16,
    a: Seq<OrderedEnvelopeResult>,
    b: Seq<OrderedEnvelopeResult>,
    count: nat,
)
    requires
        count <= b.len(),
    ensures
        with_envelope_run(codec, e, stripe_width, rev, a + b, a.len() + count) == (
        match with_envelope_run(codec, e, stripe_width, rev, a, a.len()) {
            Err(f) => Err(f),
            Ok(after) => with_envelope_run(codec, after, stripe_width, rev, b, count),
        }),
    decreases count,
{
    if count == 0 {
        envelopes_are_local(codec, e, stripe_width, rev, a + b, a, a.len());
    } else {
        envelopes_in_two_runs(codec, e, stripe_width, rev, a, b, (count - 1) as nat);
        assert((a + b)[a.len() + count - 1] == b[count - 1]);
    }
}

proof fn envelope_arrivals_are_runs<C: ArchiveCodec>(
    codec: &C,
    e: Emission,
    stripe_width: u32,
    rev: u16,
    results: Seq<OrderedEnvelopeResult>,
    order: Seq<u64>,
    count: nat,
)
    ensures
        after_envelope_arrivals(codec, e, stripe_width, rev, results, order, count)
            == with_envelope_run(
            codec,
            e,
            stripe_width,
            rev,
            handed_out(results, order, count),
            handed_out(results, order, count).len(),
        ),
    decreases count,
{
    if count > 0 {
        let before = (count - 1) as nat;
        envelope_arrivals_are_runs(codec, e, stripe_width, rev, results, order, before);
        let run = after_arrivals(results, order, before).released(
            order[before as int],
            results[order[before as int] as int],
        );
        envelopes_in_two_runs(
            codec,
            e,
            stripe_width,
            rev,
            handed_out(results, order, before),
            run,
            run.len(),
        );
    }
}

/// In whatever order sealed envelopes arrive, they leave the volumes as they would one after the
/// other.
pub proof fn envelopes_may_arrive_in_any_order<C: ArchiveCodec>(
    codec: &C,
    e: Emission,
    stripe_width: u32,
    rev: u16,
    results: Seq<OrderedEnvelopeResult>,
    order: Seq<u64>,
)
    requires
        is_arrival_order(order, results.len()),
        results.len() < u64::MAX,
    ensures
        after_envelope_arrivals(codec, e, stripe_width, rev, results, order, results.len())
            == with_envelope_run(codec, e, stripe_width, rev, results, results.len()),
{
    envelope_arrivals_are_runs(codec, e, stripe_width, rev, results, order, results.len());
    arrival_order_does_not_matter(results, order);
}

// ---------------------------------------------------------------------------------------------
// One piece after the other
// ---------------------------------------------------------------------------------------------

/// The archive after an envelope was sealed and written.
pub open spec fn with_job<C: ArchiveCodec>(
    codec: &C,
    s: StreamSetting,
    e: Emission,
    job: EnvelopeJobValue,
) -> Result<Emission, FormatError> {
    match envelope_records(codec, job, s.seal, s.options) {
        Err(f) => Err(f),
        Ok(records) => with_envelope_records(codec, e, s.options.stripe_width, s.rev, records),
    }
}

/// The archive after the only envelope that became full, if one did.
pub open spec fn with_full_jobs<C: ArchiveCodec>(
    codec: &C,
    s: StreamSetting,
    e: Emission,
    jobs: Seq<EnvelopeJobValue>,
) -> Result<Emission, FormatError> {
    if jobs.len() == 0 {
        Ok(e)
    } else {
        with_job(codec, s, e, jobs[0])
    }
}

/// The payload after a frame, and after the envelope that it did not fit into was written.
pub open spec fn ordered_frame<C: ArchiveCodec>(
    codec: &C,
    s: StreamSetting,
    p: StreamValue,
    chunk: Seq<u8>,
    frame: Seq<u8>,
    place: FramePlace,
) -> Result<StreamValue, FormatError> {
    if p.pack.next_frame == u64::MAX {
        Err(FormatError::WriterUnsupported("PayloadFrame.frame_index"))
    } else {
        match with_ordered_frame(
            OrderedPack { pack: with_hashed(p.pack, chunk), jobs: Seq::empty() },
            chunk.len() as int,
            frame,
            place,
            s.options,
            p.emission.leaves is Some,
        ) {
            Err(e) => Err(e),
            Ok(v) => match with_full_jobs(codec, s, p.emission, v.jobs) {
                Err(e) => Err(e),
                Ok(emission) => match with_counted(v.pack, chunk.len() as int) {
                    Err(e) => Err(e),
                    Ok(pack) => Ok(StreamValue { pack, emission }),
                },
            },
        }
    }
}

/// The payload after the current envelope was written.
pub open spec fn flushed_ordered<C: ArchiveCodec>(codec: &C, s: StreamSetting, p: StreamValue) -> Result<
    StreamValue,
    FormatError,
> {
    match with_full_envelope(
        OrderedPack { pack: p.pack, jobs: Seq::empty() },
        s.options,
        p.emission.leaves is Some,
    ) {
        Err(e) => Err(e),
        Ok(v) => match with_full_jobs(codec, s, p.emission, v.jobs) {
            Err(e) => Err(e),
            Ok(emission) => Ok(StreamValue { pack: v.pack, emission }),
        },
    }
}

impl OrderedParallelState {
    /// Seals an envelope and writes it in its turn.
    fn write_job<C: ArchiveCodec, O: ArchiveWriteSink>(
        &mut self,
        codec: &C,
        job: &OrderedEnvelopeJob,
        sink: &mut O,
    ) -> (r: Result<(), ArchiveWriteError>)
        requires
            old(self).in_order(*old(sink)),
            job.envelope_index < u64::MAX,
            old(self).envelope_buffer@ == (BufferValue::<OrderedEnvelopeResult> {
                next: job.envelope_index,
                waiting: Map::empty(),
            }),
        ensures
            final(self).packing == old(self).packing,
            final(self).kept() == old(self).kept(),
            final(self).next_frame_job_index == old(self).next_frame_job_index,
            final(self).frame_buffer == old(self).frame_buffer,
            r is Ok ==> final(self).envelope_buffer@ == (BufferValue::<OrderedEnvelopeResult> {
                next: (job.envelope_index + 1) as u64,
                waiting: Map::empty(),
            }),
            r is Ok ==> final(self).in_order(*final(sink)),
            writes(
                standing(*old(sink)),
                standing(*final(sink)),
                emission(*final(sink), final(self).state),
                with_job(
                    codec,
                    old(self).kept(),
                    emission(*old(sink), old(self).state),
                    job@,
                ),
                failure_of(r),
            ),
    {
        let options: WriterOptions = self.packing.options;
        let result: OrderedEnvelopeResult = lift(
            build_ordered_envelope_result(codec, job, &self.seal, options),
        )?;
        proof {
            arrival_in_turn(self.envelope_buffer@, result);
            let e = emission(*sink, self.state);
            let rev = self.state.volume_format_rev;
            reveal_with_fuel(with_envelope_run, 2);
            assert(seq![result][0] == result);
            assert(with_envelope_run(codec, e, options.stripe_width, rev, seq![result], 1)
                == with_envelope_records(codec, e, options.stripe_width, rev, result.records@));
        }
        self.receive_ordered_envelope_result(codec, result, sink)
    }

    /// Takes a frame in its turn.
    #[verifier::rlimit(40)]
    fn take_ordered_frame<C: ArchiveCodec, O: ArchiveWriteSink>(
        &mut self,
        codec: &C,
        sink: &mut O,
        chunk: &[u8],
        frame: &[u8],
        place: FramePlace,
    ) -> (r: Result<(), ArchiveWriteError>)
        requires
            old(self).in_order(*old(sink)),
            old(self).is_settled(),
        ensures
            final(self).kept() == old(self).kept(),
            r is Ok ==> final(self).in_order(*final(sink)) && final(self).is_settled(),
            streams(
                standing(*old(sink)),
                standing(*final(sink)),
                final(self).value(*final(sink)),
                ordered_frame(
                    codec,
                    old(self).kept(),
                    old(self).value(*old(sink)),
                    chunk@,
                    frame@,
                    place,
                ),
                r,
            ),
    {
        let frame_index: u64 = lift(self.number_chunk(chunk))?;
        let result = OrderedFrameResult {
            frame_index,
            place,
            decompressed_size: chunk.len(),
            frame: to_bytes(frame),
        };
        let ghost start = OrderedPack { pack: self.packing@, jobs: Seq::empty() };
        let ghost o = self.packing.options;
        let ghost collect = self.collects();
        proof {
            arrival_in_turn(self.frame_buffer@, result);
            reveal_with_fuel(with_ordered_frames, 2);
            assert(seq![result][0] == result);
            assert(with_ordered_frames(start, seq![result], o, collect, 1) == with_ordered_frame(
                start,
                chunk@.len() as int,
                frame@,
                place,
                o,
                collect,
            ));
        }
        let jobs: Vec<OrderedEnvelopeJob> = lift(self.receive_ordered_frame_result(result))?;
        assert(job_values(jobs@).len() == jobs@.len());
        if jobs.len() > 0 {
            assert(job_values(jobs@)[0] == jobs@[0]@);
            self.write_job(codec, &jobs[0], sink)?;
        }
        lift(self.packing.count_bytes(chunk.len()))
    }
}

impl<C: ArchiveCodec, O: ArchiveWriteSink> FrameTaker<C, O> for OrderedParallelState {
    type State = StreamValue;

    type Setting = StreamSetting;

    open spec fn state(&self, out: O) -> StreamValue {
        self.value(out)
    }

    open spec fn setting(&self) -> StreamSetting {
        self.kept()
    }

    open spec fn wf(&self, out: O) -> bool {
        self.in_order(out) && self.is_settled()
    }

    open spec fn standing(out: O) -> Standing {
        standing(out)
    }

    open spec fn framing() -> Framing {
        Framing::Whole
    }

    fn frames_by() -> (r: Framing) {
        Framing::Whole
    }

    open spec fn chunk_len(state: StreamValue, left: int, o: WriterOptions) -> int {
        next_chunk_len(left, o)
    }

    fn next_len(&self, out: &O, left: u64, options: WriterOptions) -> (r: usize) {
        bounded_chunk_len(left, options)
    }

    open spec fn with_frame(
        codec: &C,
        setting: StreamSetting,
        state: StreamValue,
        chunk: Seq<u8>,
        frame: Seq<u8>,
        place: FramePlace,
    ) -> Result<StreamValue, FormatError> {
        ordered_frame(codec, setting, state, chunk, frame, place)
    }

    fn take_frame(
        &mut self,
        codec: &C,
        out: &mut O,
        chunk: &[u8],
        frame: &[u8],
        place: FramePlace,
    ) -> (r: Result<(), ArchiveWriteError>) {
        self.take_ordered_frame(codec, out, chunk, frame, place)
    }
}

impl<C: ArchiveCodec, O: ArchiveWriteSink> StreamTaker<C, O> for OrderedParallelState {
    open spec fn total_of(state: StreamValue) -> u64 {
        state.pack.tar_total
    }

    fn stream_total(&self, out: &O) -> (r: u64) {
        self.packing.tar_total_size
    }
}

impl<C: ArchiveCodec, O: ArchiveWriteSink> PayloadWriter<C, O> for OrderedParallelState {
    open spec fn flushed(codec: &C, s: StreamSetting, p: StreamValue) -> Result<
        StreamValue,
        FormatError,
    > {
        flushed_ordered(codec, s, p)
    }

    open spec fn completed(p: StreamValue) -> Emission {
        Emission { next_block_index: p.pack.next_block, ..p.emission }
    }

    fn start(options: WriterOptions, seal: ArchiveSeal, state: WriterEmissionState, sink: &O) -> (r:
        Self) {
        OrderedParallelState::new(options, seal, state)
    }

    fn flush_payload_envelope(&mut self, codec: &C, sink: &mut O) -> (r: Result<
        (),
        ArchiveWriteError,
    >) {
        if self.packing.envelope.plaintext.len() == 0 {
            return Ok(());
        }
        let job: OrderedEnvelopeJob = lift(self.close_full_envelope())?;
        assert(seq![job@][0] == job@);
        self.write_job(codec, &job, sink)
    }

    fn into_parts(self, sink: &O, tar_members: Vec<TarMember>) -> (r: (
        PayloadPlanning,
        WriterEmissionState,
    )) {
        let content_sha256: [u8; 32] = hasher_finalize(self.packing.hasher);
        let next_block_index: u64 = self.packing.next_block_index;
        let mut state: WriterEmissionState = self.state;
        state.next_block_index = next_block_index;
        (
            PayloadPlanning {
                tar_members,
                frames: self.packing.frames,
                payload_objects: self.packing.payload_objects,
                payload_block_count: self.packing.payload_block_count,
                tar_total_size: self.packing.tar_total_size,
                content_sha256,
            },
            state,
        )
    }
}

} // verus!
