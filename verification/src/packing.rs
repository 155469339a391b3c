//! Planning the payload: which frame goes to which envelope, and which blocks that takes.
use crate::arith::{checked_u64_add, fit_u32, u32_len};
use crate::bytes::append;
use crate::codec::ArchiveCodec;
use crate::digest::{absorbed, hasher_new, hasher_update};
use crate::emit::lift;
use crate::errors::{ArchiveWriteError, FormatError};
use crate::object_plan::{
    classed_plan, payload_fit, payload_object_can_fit, plan_encrypted_object, ObjectExtent,
    PlannedEncryptedObject,
};
use crate::options::WriterOptions;
use crate::payload::{
    bounded_chunk_len, frame_metadata, needs_flush, next_chunk_len, payload_envelope_needs_flush,
    payload_frame_metadata, FramePlace, FrameTaker, Framing, PayloadEnvelopeBuilder,
    PayloadFrameMetadataInput,
};
use crate::root_auth::PayloadObject;
use crate::shard::PayloadFrame;
use crate::sink::{standing, Standing};
use vstd::prelude::*;

verus! {

// ---------------------------------------------------------------------------------------------
// Envelopes
// ---------------------------------------------------------------------------------------------

/// The payload so far.
pub struct PackValue {
    pub envelope_index: u64,
    pub plaintext: Seq<u8>,
    pub frames: Seq<PayloadFrame>,
    pub objects: Seq<PayloadObject>,
    pub block_count: u64,
    pub next_block: u64,
    pub next_frame: u64,
    pub tar_total: u64,
    pub hashed: Seq<u8>,
}

/// The payload before the first frame.
pub open spec fn nothing_packed(next_block: u64) -> PackValue {
    PackValue {
        envelope_index: 0,
        plaintext: Seq::empty(),
        frames: Seq::empty(),
        objects: Seq::empty(),
        block_count: 0,
        next_block,
        next_frame: 0,
        tar_total: 0,
        hashed: Seq::empty(),
    }
}

/// Where the current envelope goes.
pub open spec fn envelope_extent(p: PackValue, o: WriterOptions) -> Result<ObjectExtent, FormatError> {
    match classed_plan(
        p.plaintext.len() as int,
        o.fec_data_shards as int,
        o.fec_parity_shards as int,
        o,
    ) {
        Err(e) => Err(e),
        Ok(plan) => Ok(ObjectExtent::placed(p.next_block, plan)),
    }
}

/// The payload after its current envelope was closed at `extent`.
pub open spec fn with_envelope(p: PackValue, extent: ObjectExtent) -> Result<
    PackValue,
    FormatError,
> {
    if p.block_count + extent.data_block_count > u64::MAX {
        Err(FormatError::WriterUnsupported("payload"))
    } else if p.envelope_index + 1 > u64::MAX {
        Err(FormatError::WriterUnsupported("EnvelopeEntry"))
    } else {
        Ok(
            PackValue {
                envelope_index: (p.envelope_index + 1) as u64,
                plaintext: Seq::empty(),
                objects: p.objects.push(
                    PayloadObject {
                        envelope_index: p.envelope_index,
                        plaintext_size: p.plaintext.len() as u32,
                        object: extent,
                    },
                ),
                block_count: (p.block_count + extent.data_block_count) as u64,
                next_block: (extent.first_block_index + extent.total()) as u64,
                ..p
            },
        )
    }
}

/// The payload after its current envelope was planned.
pub open spec fn flushed_plan(p: PackValue, o: WriterOptions) -> Result<PackValue, FormatError> {
    match fit_u32(p.plaintext.len() as int, "EnvelopeEntry.plaintext_size") {
        Err(e) => Err(e),
        Ok(_) => match envelope_extent(p, o) {
            Err(e) => Err(e),
            Ok(extent) => match extent.next_block_index_outcome() {
                Err(e) => Err(e),
                Ok(_) => with_envelope(p, extent),
            },
        },
    }
}

/// The metadata of a frame that goes to the current envelope.
pub open spec fn placed_frame(
    p: PackValue,
    chunk_len: int,
    frame_len: int,
    place: FramePlace,
    o: WriterOptions,
) -> Result<PayloadFrame, FormatError> {
    match if p.plaintext.len() == 0 {
        payload_fit(frame_len, o)
    } else {
        Ok(true)
    } {
        Err(e) => Err(e),
        Ok(false) => Err(
            FormatError::WriterUnsupported("payload frame exceeds envelope object limits"),
        ),
        Ok(true) => match fit_u32(p.plaintext.len() as int, "FrameEntry.offset_in_envelope") {
            Err(e) => Err(e),
            Ok(offset) => frame_metadata(
                PayloadFrameMetadataInput {
                    frame_index: p.next_frame,
                    envelope_index: p.envelope_index,
                    member_index: place.member_index,
                    offset_in_envelope: offset,
                    compressed_size: frame_len as usize,
                    decompressed_size: chunk_len as usize,
                    member_start: place.member_start,
                    member_offset: place.member_offset,
                    member_group_size: place.member_group_size,
                },
            ),
        },
    }
}

/// The payload after a frame over `chunk_len` bytes found its place in the current envelope.
pub open spec fn with_placed_frame(
    p: PackValue,
    chunk_len: int,
    frame: Seq<u8>,
    place: FramePlace,
    o: WriterOptions,
) -> Result<PackValue, FormatError> {
    match placed_frame(p, chunk_len, frame.len() as int, place, o) {
        Err(e) => Err(e),
        Ok(metadata) => if p.next_frame + 1 > u64::MAX {
            Err(FormatError::WriterUnsupported("PayloadFrame.frame_index"))
        } else {
            Ok(
                PackValue {
                    plaintext: p.plaintext + frame,
                    frames: p.frames.push(metadata),
                    next_frame: (p.next_frame + 1) as u64,
                    ..p
                },
            )
        },
    }
}

/// The payload with `count` more bytes of members in it.
pub open spec fn with_counted(p: PackValue, count: int) -> Result<PackValue, FormatError> {
    if p.tar_total + count > u64::MAX {
        Err(FormatError::WriterUnsupported("tar stream"))
    } else {
        Ok(PackValue { tar_total: (p.tar_total + count) as u64, ..p })
    }
}

/// The payload with a chunk in its digest.
pub open spec fn with_hashed(p: PackValue, chunk: Seq<u8>) -> PackValue {
    PackValue { hashed: p.hashed + chunk, ..p }
}

/// The payload after a frame went to the current envelope.
pub open spec fn with_packed_frame(
    p: PackValue,
    chunk: Seq<u8>,
    frame: Seq<u8>,
    place: FramePlace,
    o: WriterOptions,
) -> Result<PackValue, FormatError> {
    match with_placed_frame(p, chunk.len() as int, frame, place, o) {
        Err(e) => Err(e),
        Ok(q) => with_counted(with_hashed(q, chunk), chunk.len() as int),
    }
}

/// Plans the payload.
pub struct PayloadPacking {
    pub options: WriterOptions,
    pub envelope: PayloadEnvelopeBuilder,
    pub frames: Vec<PayloadFrame>,
    pub payload_objects: Vec<PayloadObject>,
    pub payload_block_count: u64,
    pub next_block_index: u64,
    pub next_frame_index: u64,
    pub tar_total_size: u64,
    pub hasher: sha2::Sha256,
}

impl View for PayloadPacking {
    type V = PackValue;

    open spec fn view(&self) -> PackValue {
        PackValue {
            envelope_index: self.envelope.envelope_index,
            plaintext: self.envelope.plaintext@,
            frames: self.frames@,
            objects: self.payload_objects@,
            block_count: self.payload_block_count,
            next_block: self.next_block_index,
            next_frame: self.next_frame_index,
            tar_total: self.tar_total_size,
            hashed: absorbed(self.hasher),
        }
    }
}

impl PayloadPacking {
    pub fn new(options: WriterOptions, next_block_index: u64) -> (r: PayloadPacking)
        ensures
            r@ == nothing_packed(next_block_index),
            r.options == options,
    {
        let r = PayloadPacking {
            options,
            envelope: PayloadEnvelopeBuilder { envelope_index: 0, plaintext: Vec::new() },
            frames: Vec::new(),
            payload_objects: Vec::new(),
            payload_block_count: 0,
            next_block_index,
            next_frame_index: 0,
            tar_total_size: 0,
            hasher: hasher_new(),
        };
        assert(r@.plaintext =~= Seq::empty());
        assert(r@.frames =~= Seq::empty());
        assert(r@.objects =~= Seq::empty());
        r
    }

    /// Closes the current envelope at `extent` and hands its bytes out.
    pub fn close_envelope(&mut self, plaintext_size: u32, extent: ObjectExtent) -> (r: Result<
        Vec<u8>,
        FormatError,
    >)
        requires
            plaintext_size == old(self)@.plaintext.len(),
            extent.first_block_index + extent.total() <= u64::MAX,
        ensures
            final(self).options == old(self).options,
            match (r, with_envelope(old(self)@, extent)) {
                (Ok(bytes), Ok(p)) => final(self)@ == p && bytes@ == old(self)@.plaintext,
                (Err(e), Err(f)) => e == f,
                _ => false,
            },
    {
        self.payload_block_count = checked_u64_add(
            self.payload_block_count,
            extent.data_block_count as u64,
            "payload",
        )?;
        self.payload_objects.push(
            PayloadObject {
                envelope_index: self.envelope.envelope_index,
                plaintext_size,
                object: extent,
            },
        );
        self.envelope.envelope_index = checked_u64_add(
            self.envelope.envelope_index,
            1,
            "EnvelopeEntry",
        )?;
        let mut plaintext: Vec<u8> = Vec::new();
        core::mem::swap(&mut plaintext, &mut self.envelope.plaintext);
        self.next_block_index = extent.first_block_index + (extent.data_block_count as u64
            + extent.parity_block_count as u64);
        assert(self@.plaintext =~= Seq::empty());
        Ok(plaintext)
    }

    /// Finds the place of a frame over `chunk_len` bytes in the current envelope.
    pub fn place_frame(&mut self, chunk_len: usize, frame: &[u8], place: FramePlace) -> (r: Result<
        (),
        FormatError,
    >)
        requires
            old(self).options.block_size > 0,
        ensures
            final(self).options == old(self).options,
            match (
                r,
                with_placed_frame(
                    old(self)@,
                    chunk_len as int,
                    frame@,
                    place,
                    old(self).options,
                ),
            ) {
                (Ok(_), Ok(p)) => final(self)@ == p,
                (Err(e), Err(f)) => e == f,
                _ => false,
            },
    {
        if self.envelope.plaintext.len() == 0 {
            if !payload_object_can_fit(frame.len(), self.options)? {
                return Err(
                    FormatError::WriterUnsupported("payload frame exceeds envelope object limits"),
                );
            }
        }
        let offset: u32 = u32_len(self.envelope.plaintext.len(), "FrameEntry.offset_in_envelope")?;
        let metadata: PayloadFrame = payload_frame_metadata(
            PayloadFrameMetadataInput {
                frame_index: self.next_frame_index,
                envelope_index: self.envelope.envelope_index,
                member_index: place.member_index,
                offset_in_envelope: offset,
                compressed_size: frame.len(),
                decompressed_size: chunk_len,
                member_start: place.member_start,
                member_offset: place.member_offset,
                member_group_size: place.member_group_size,
            },
        )?;
        append(&mut self.envelope.plaintext, frame);
        self.frames.push(metadata);
        self.next_frame_index = checked_u64_add(
            self.next_frame_index,
            1,
            "PayloadFrame.frame_index",
        )?;
        Ok(())
    }

    /// Takes a chunk into the digest.
    pub fn hash_chunk(&mut self, chunk: &[u8])
        ensures
            final(self).options == old(self).options,
            final(self)@ == with_hashed(old(self)@, chunk@),
    {
        hasher_update(&mut self.hasher, chunk);
    }

    /// Counts bytes of members.
    pub fn count_bytes(&mut self, count: usize) -> (r: Result<(), FormatError>)
        ensures
            final(self).options == old(self).options,
            match (r, with_counted(old(self)@, count as int)) {
                (Ok(_), Ok(p)) => final(self)@ == p,
                (Err(e), Err(f)) => e == f && final(self)@ == old(self)@,
                _ => false,
            },
    {
        self.tar_total_size = checked_u64_add(self.tar_total_size, count as u64, "tar stream")?;
        Ok(())
    }

    /// Puts a frame into the current envelope.
    pub fn pack_frame(&mut self, chunk: &[u8], frame: &[u8], place: FramePlace) -> (r: Result<
        (),
        FormatError,
    >)
        requires
            old(self).options.block_size > 0,
        ensures
            final(self).options == old(self).options,
            match (r, with_packed_frame(old(self)@, chunk@, frame@, place, old(self).options)) {
                (Ok(_), Ok(p)) => final(self)@ == p,
                (Err(e), Err(f)) => e == f,
                _ => false,
            },
    {
        self.place_frame(chunk.len(), frame, place)?;
        self.hash_chunk(chunk);
        self.count_bytes(chunk.len())
    }
}

/// Plans the blocks of the current envelope, and hands out where it goes and what is in it.
pub fn take_planned_envelope(packing: &mut PayloadPacking) -> (r: Result<
    (ObjectExtent, Vec<u8>),
    FormatError,
>)
    requires
        old(packing).options.block_size > 0,
    ensures
        final(packing).options == old(packing).options,
        match (r, flushed_plan(old(packing)@, old(packing).options)) {
            (Ok((extent, bytes)), Ok(p)) => final(packing)@ == p && extent
                == p.objects.last().object && bytes@ == old(packing)@.plaintext,
            (Err(e), Err(f)) => e == f,
            _ => false,
        },
{
    let options: WriterOptions = packing.options;
    let plaintext_size: u32 = u32_len(
        packing.envelope.plaintext.len(),
        "EnvelopeEntry.plaintext_size",
    )?;
    let object_plan: PlannedEncryptedObject = plan_encrypted_object(
        packing.envelope.plaintext.len(),
        options.fec_data_shards,
        options.fec_parity_shards,
        options,
    )?;
    let extent: ObjectExtent = ObjectExtent::new(packing.next_block_index, object_plan)?;
    extent.next_block_index()?;
    let plaintext: Vec<u8> = packing.close_envelope(plaintext_size, extent)?;
    Ok((extent, plaintext))
}

/// Plans the blocks of the current envelope.
pub fn flush_payload_envelope_plan(packing: &mut PayloadPacking) -> (r: Result<(), FormatError>)
    requires
        old(packing).options.block_size > 0,
    ensures
        final(packing).options == old(packing).options,
        match (r, flushed_plan(old(packing)@, old(packing).options)) {
            (Ok(_), Ok(p)) => final(packing)@ == p,
            (Err(e), Err(f)) => e == f,
            _ => false,
        },
{
    take_planned_envelope(packing)?;
    Ok(())
}

/// The plan after a frame.
pub open spec fn planned_frame(
    p: PackValue,
    chunk: Seq<u8>,
    frame: Seq<u8>,
    place: FramePlace,
    o: WriterOptions,
) -> Result<PackValue, FormatError> {
    match needs_flush(p.plaintext.len() as int, frame.len() as int, o) {
        Err(e) => Err(e),
        Ok(false) => with_packed_frame(p, chunk, frame, place, o),
        Ok(true) => match flushed_plan(p, o) {
            Err(e) => Err(e),
            Ok(q) => with_packed_frame(q, chunk, frame, place, o),
        },
    }
}

/// Plans a frame: into the current envelope, or into the next one where it does not fit.
pub fn append_payload_frame_to_plan(
    packing: &mut PayloadPacking,
    chunk: &[u8],
    frame: &[u8],
    place: FramePlace,
) -> (r: Result<(), FormatError>)
    requires
        old(packing).options.block_size > 0,
    ensures
        final(packing).options == old(packing).options,
        match (r, planned_frame(old(packing)@, chunk@, frame@, place, old(packing).options)) {
            (Ok(_), Ok(p)) => final(packing)@ == p,
            (Err(e), Err(f)) => e == f,
            _ => false,
        },
{
    if payload_envelope_needs_flush(&packing.envelope, frame.len(), packing.options)? {
        flush_payload_envelope_plan(packing)?;
    }
    packing.pack_frame(chunk, frame, place)
}

impl<C: ArchiveCodec> FrameTaker<C, ()> for PayloadPacking {
    type State = PackValue;

    type Setting = WriterOptions;

    open spec fn state(&self, out: ()) -> PackValue {
        self@
    }

    open spec fn setting(&self) -> WriterOptions {
        self.options
    }

    open spec fn wf(&self, out: ()) -> bool {
        self.options.block_size > 0
    }

    open spec fn standing(out: ()) -> Standing {
        Standing { reliable: true, refusal: None, refusals: 0 }
    }

    open spec fn framing() -> Framing {
        Framing::Fitting
    }

    fn frames_by() -> (r: Framing) {
        Framing::Fitting
    }

    open spec fn chunk_len(state: PackValue, left: int, o: WriterOptions) -> int {
        next_chunk_len(left, o)
    }

    fn next_len(&self, out: &(), left: u64, options: WriterOptions) -> (r: usize) {
        bounded_chunk_len(left, options)
    }

    open spec fn with_frame(
        codec: &C,
        setting: WriterOptions,
        state: PackValue,
        chunk: Seq<u8>,
        frame: Seq<u8>,
        place: FramePlace,
    ) -> Result<PackValue, FormatError> {
        planned_frame(state, chunk, frame, place, setting)
    }

    fn take_frame(
        &mut self,
        codec: &C,
        out: &mut (),
        chunk: &[u8],
        frame: &[u8],
        place: FramePlace,
    ) -> (r: Result<(), ArchiveWriteError>) {
        lift(append_payload_frame_to_plan(self, chunk, frame, place))
    }
}

} // verus!
