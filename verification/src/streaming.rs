//! Writing the payload while it is read: an archive whose sources are read once.
use crate::arith::{fit_u32, u32_len};
use crate::codec::{ArchiveCodec, ObjectDomain};
use crate::digest::hasher_finalize;
use crate::emit::{
    emission, emit_encrypted_object, lift, with_object, Emission, WriterEmissionState,
};
use crate::errors::{ArchiveWriteError, FormatError};
use crate::members::StreamTaker;
use crate::object_plan::{plan_encrypted_object, ObjectExtent, PlannedEncryptedObject};
use crate::objects::ArchiveSeal;
use crate::options::WriterOptions;
use crate::packing::{
    envelope_extent, nothing_packed, with_envelope, with_packed_frame, PackValue, PayloadPacking,
};
use crate::payload::{
    bounded_chunk_len, needs_flush, next_chunk_len, payload_envelope_needs_flush, FramePlace,
    FrameTaker, Framing,
};
use crate::plan::PayloadPlanning;
use crate::planning::finished_payload;
use crate::rows::{tar_member_values, TarMember};
use crate::seal::ObjectEncryptionContext;
use crate::sink::{failure_of, standing, ArchiveWriteSink, Standing};
use crate::suffix::header_values;
use vstd::prelude::*;

verus! {

/// The payload so far, and what of it is written.
pub struct StreamValue {
    pub pack: PackValue,
    pub emission: Emission,
}

/// What the payload is written by.
pub struct StreamSetting {
    pub options: WriterOptions,
    pub seal: ArchiveSeal,
    pub rev: u16,
    pub headers: Seq<Seq<u8>>,
}

/// Writes the payload of an archive as it comes.
pub trait PayloadWriter<C: ArchiveCodec, O: ArchiveWriteSink>: StreamTaker<
    C,
    O,
    State = StreamValue,
    Setting = StreamSetting,
> + Sized {
    /// The payload after the current envelope was written.
    spec fn flushed(codec: &C, s: StreamSetting, p: StreamValue) -> Result<
        StreamValue,
        FormatError,
    >;

    /// What is written by the time that the payload is complete.
    spec fn completed(p: StreamValue) -> Emission;

    /// A writer whose payload is still empty.
    fn start(options: WriterOptions, seal: ArchiveSeal, state: WriterEmissionState, sink: &O) -> (r:
        Self)
        requires
            options.block_size > 0,
            emission(*sink, state).wf(options.stripe_width),
        ensures
            r.wf(*sink),
            r.setting() == (StreamSetting {
                options,
                seal,
                rev: state.volume_format_rev,
                headers: header_values(state),
            }),
            r.state(*sink) == (StreamValue {
                pack: nothing_packed(0),
                emission: emission(*sink, state),
            }),
    ;

    /// Writes the current envelope, if there is anything in it.
    fn flush_payload_envelope(&mut self, codec: &C, sink: &mut O) -> (r: Result<
        (),
        ArchiveWriteError,
    >)
        requires
            old(self).wf(*old(sink)),
        ensures
            final(self).setting() == old(self).setting(),
            r is Ok ==> final(self).wf(*final(sink)),
            streams(
                standing(*old(sink)),
                standing(*final(sink)),
                final(self).state(*final(sink)),
                closed_payload(
                    old(self).state(*old(sink)),
                    Self::flushed(codec, old(self).setting(), old(self).state(*old(sink))),
                ),
                r,
            ),
    ;

    fn into_parts(self, sink: &O, tar_members: Vec<TarMember>) -> (r: (
        PayloadPlanning,
        WriterEmissionState,
    ))
        requires
            self.wf(*sink),
        ensures
            r.0@ == finished_payload(
                tar_member_values(tar_members@),
                self.state(*sink).pack,
            ).payload,
            r.0.tar_members == tar_members,
            emission(*sink, r.1) == Self::completed(self.state(*sink)),
            emission(*sink, r.1).wf(self.setting().options.stripe_width),
            r.1.volume_format_rev == self.setting().rev,
            header_values(r.1) == self.setting().headers,
    ;
}

/// Whether writing went as `outcome` says.
pub open spec fn streams(
    before: Standing,
    now: Standing,
    after: StreamValue,
    outcome: Result<StreamValue, FormatError>,
    r: Result<(), ArchiveWriteError>,
) -> bool {
    &&& r is Ok ==> outcome == Ok::<StreamValue, FormatError>(after)
    &&& before.hands_on(now, failure_of(r))
    &&& before.undisturbed(now) ==> match outcome {
        Ok(_) => r is Ok,
        Err(e) => r == Err::<(), ArchiveWriteError>(ArchiveWriteError::Format(e)),
    }
}

/// The payload with its last envelope written, which gives `flushed` where there is anything in
/// it.
pub open spec fn closed_payload(p: StreamValue, flushed: Result<StreamValue, FormatError>) -> Result<
    StreamValue,
    FormatError,
> {
    if p.pack.plaintext.len() == 0 {
        Ok(p)
    } else {
        flushed
    }
}

/// The payload after the current envelope was written behind what came before.
pub open spec fn flushed_stream<C: ArchiveCodec>(codec: &C, s: StreamSetting, p: StreamValue) -> Result<
    StreamValue,
    FormatError,
> {
    match fit_u32(p.pack.plaintext.len() as int, "EnvelopeEntry.plaintext_size") {
        Err(e) => Err(e),
        Ok(_) => match envelope_extent(
            PackValue { next_block: p.emission.next_block_index, ..p.pack },
            s.options,
        ) {
            Err(e) => Err(e),
            Ok(extent) => match with_object(
                codec,
                p.emission,
                p.pack.plaintext,
                s.seal.spec_context(ObjectDomain::Envelope, p.pack.envelope_index, s.options),
                s.options,
                extent,
                None,
                s.rev,
            ) {
                Err(e) => Err(e),
                Ok(w) => match with_envelope(p.pack, extent) {
                    Err(e) => Err(e),
                    Ok(pack) => Ok(StreamValue { pack, emission: w.emission }),
                },
            },
        },
    }
}

/// The payload after a frame.
pub open spec fn streamed_frame<C: ArchiveCodec>(
    codec: &C,
    s: StreamSetting,
    p: StreamValue,
    chunk: Seq<u8>,
    frame: Seq<u8>,
    place: FramePlace,
) -> Result<StreamValue, FormatError> {
    match needs_flush(p.pack.plaintext.len() as int, frame.len() as int, s.options) {
        Err(e) => Err(e),
        Ok(false) => with_streamed_frame(s, p, chunk, frame, place),
        Ok(true) => match flushed_stream(codec, s, p) {
            Err(e) => Err(e),
            Ok(q) => with_streamed_frame(s, q, chunk, frame, place),
        },
    }
}

/// The payload after a frame went to the current envelope.
pub open spec fn with_streamed_frame(
    s: StreamSetting,
    p: StreamValue,
    chunk: Seq<u8>,
    frame: Seq<u8>,
    place: FramePlace,
) -> Result<StreamValue, FormatError> {
    match with_packed_frame(p.pack, chunk, frame, place, s.options) {
        Err(e) => Err(e),
        Ok(pack) => Ok(StreamValue { pack, ..p }),
    }
}

/// Writes each envelope as soon as it is full.
pub struct StreamingArchiveWriter {
    pub packing: PayloadPacking,
    pub seal: ArchiveSeal,
    pub state: WriterEmissionState,
}

impl StreamingArchiveWriter {
    pub open spec fn value<O: ArchiveWriteSink>(&self, sink: O) -> StreamValue {
        StreamValue { pack: self.packing@, emission: emission(sink, self.state) }
    }

    pub open spec fn kept(&self) -> StreamSetting {
        StreamSetting {
            options: self.packing.options,
            seal: self.seal,
            rev: self.state.volume_format_rev,
            headers: header_values(self.state),
        }
    }

    pub open spec fn in_order<O: ArchiveWriteSink>(&self, sink: O) -> bool {
        &&& self.packing.options.block_size > 0
        &&& emission(sink, self.state).wf(self.packing.options.stripe_width)
    }

    fn write_envelope<C: ArchiveCodec, O: ArchiveWriteSink>(
        &mut self,
        codec: &C,
        sink: &mut O,
    ) -> (r: Result<(), ArchiveWriteError>)
        requires
            old(self).in_order(*old(sink)),
        ensures
            final(self).kept() == old(self).kept(),
            r is Ok ==> final(self).in_order(*final(sink)),
            streams(
                standing(*old(sink)),
                standing(*final(sink)),
                final(self).value(*final(sink)),
                flushed_stream(codec, old(self).kept(), old(self).value(*old(sink))),
                r,
            ),
    {
        let options: WriterOptions = self.packing.options;
        let plaintext_size: u32 = lift(
            u32_len(self.packing.envelope.plaintext.len(), "EnvelopeEntry.plaintext_size"),
        )?;
        let object_plan: PlannedEncryptedObject = lift(
            plan_encrypted_object(
                self.packing.envelope.plaintext.len(),
                options.fec_data_shards,
                options.fec_parity_shards,
                options,
            ),
        )?;
        let extent: ObjectExtent = lift(
            ObjectExtent::new(self.state.next_block_index, object_plan),
        )?;
        let context: ObjectEncryptionContext = self.seal.context(
            ObjectDomain::Envelope,
            self.packing.envelope.envelope_index,
            options,
        );
        emit_encrypted_object(
            codec,
            self.packing.envelope.plaintext.as_slice(),
            &context,
            options,
            extent,
            None,
            sink,
            &mut self.state,
        )?;
        lift(self.packing.close_envelope(plaintext_size, extent))?;
        Ok(())
    }

    /// Takes a frame; writes the current envelope before, where the frame does not fit it.
    pub fn append_payload_frame<C: ArchiveCodec, O: ArchiveWriteSink>(
        &mut self,
        codec: &C,
        sink: &mut O,
        chunk: &[u8],
        frame: &[u8],
        place: FramePlace,
    ) -> (r: Result<(), ArchiveWriteError>)
        requires
            old(self).in_order(*old(sink)),
        ensures
            final(self).kept() == old(self).kept(),
            r is Ok ==> final(self).in_order(*final(sink)),
            streams(
                standing(*old(sink)),
                standing(*final(sink)),
                final(self).value(*final(sink)),
                streamed_frame(
                    codec,
                    old(self).kept(),
                    old(self).value(*old(sink)),
                    chunk@,
                    frame@,
                    place,
                ),
                r,
            ),
    {
        if lift(
            payload_envelope_needs_flush(
                &self.packing.envelope,
                frame.len(),
                self.packing.options,
            ),
        )? {
            self.write_envelope(codec, sink)?;
        }
        lift(self.packing.pack_frame(chunk, frame, place))
    }
}

impl<C: ArchiveCodec, O: ArchiveWriteSink> FrameTaker<C, O> for StreamingArchiveWriter {
    type State = StreamValue;

    type Setting = StreamSetting;

    open spec fn state(&self, out: O) -> StreamValue {
        self.value(out)
    }

    open spec fn setting(&self) -> StreamSetting {
        self.kept()
    }

    open spec fn wf(&self, out: O) -> bool {
        self.in_order(out)
    }

    open spec fn standing(out: O) -> Standing {
        standing(out)
    }

    open spec fn framing() -> Framing {
        Framing::Fitting
    }

    fn frames_by() -> (r: Framing) {
        Framing::Fitting
    }

    open spec fn chunk_len(state: StreamValue, left: int, o: WriterOptions) -> int {
        next_chunk_len(left, o)
    }

    fn next_len(&self, out: &O, left: u64, options: WriterOptions) -> (r: usize) {
        bounded_chunk_len(left, options)
    }

    open spec fn with_frame(
        codec: &C,
        setting: StreamSetting,
        state: StreamValue,
        chunk: Seq<u8>,
        frame: Seq<u8>,
        place: FramePlace,
    ) -> Result<StreamValue, FormatError> {
        streamed_frame(codec, setting, state, chunk, frame, place)
    }

    fn take_frame(
        &mut self,
        codec: &C,
        out: &mut O,
        chunk: &[u8],
        frame: &[u8],
        place: FramePlace,
    ) -> (r: Result<(), ArchiveWriteError>) {
        self.append_payload_frame(codec, out, chunk, frame, place)
    }
}

impl<C: ArchiveCodec, O: ArchiveWriteSink> StreamTaker<C, O> for StreamingArchiveWriter {
    open spec fn total_of(state: StreamValue) -> u64 {
        state.pack.tar_total
    }

    fn stream_total(&self, out: &O) -> (r: u64) {
        self.packing.tar_total_size
    }
}

impl<C: ArchiveCodec, O: ArchiveWriteSink> PayloadWriter<C, O> for StreamingArchiveWriter {
    open spec fn flushed(codec: &C, s: StreamSetting, p: StreamValue) -> Result<
        StreamValue,
        FormatError,
    > {
        flushed_stream(codec, s, p)
    }

    open spec fn completed(p: StreamValue) -> Emission {
        p.emission
    }

    fn start(options: WriterOptions, seal: ArchiveSeal, state: WriterEmissionState, sink: &O) -> (r:
        Self) {
        StreamingArchiveWriter { packing: PayloadPacking::new(options, 0), seal, state }
    }

    fn flush_payload_envelope(&mut self, codec: &C, sink: &mut O) -> (r: Result<
        (),
        ArchiveWriteError,
    >) {
        if self.packing.envelope.plaintext.len() == 0 {
            return Ok(());
        }
        self.write_envelope(codec, sink)
    }

    fn into_parts(self, sink: &O, tar_members: Vec<TarMember>) -> (r: (
        PayloadPlanning,
        WriterEmissionState,
    )) {
        let content_sha256: [u8; 32] = hasher_finalize(self.packing.hasher);
        (
            PayloadPlanning {
                tar_members,
                frames: self.packing.frames,
                payload_objects: self.packing.payload_objects,
                payload_block_count: self.packing.payload_block_count,
                tar_total_size: self.packing.tar_total_size,
                content_sha256,
            },
            self.state,
        )
    }
}

} // verus!
