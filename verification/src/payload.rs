//! Cutting the stream of a member into compressed frames.
use crate::arith::{checked_u64_add, checked_usize_add, fit_usize, u32_len};
use crate::bytes::to_bytes;
use crate::codec::ArchiveCodec;
use crate::emit::lift;
use crate::errors::{ArchiveWriteError, FormatError, IoError};
use crate::object_plan::{payload_fit, payload_object_can_fit};
use crate::openings::{nothing_is_opened, openings_add_up, repeated};
use crate::options::{opt_bytes, WriterOptions};
use crate::progress::{
    phases_of, reports, reports_join, reports_of_nothing, ArchiveWriteProgressSink,
    SourceProgressState,
};
use crate::shard::PayloadFrame;
use crate::sink::{failure_of, standing, Standing};
use crate::source::RegularFileSource;
use crate::stream::{drawn_size, openings, Feed, StreamingMemberReader};
use vstd::prelude::*;

verus! {

/// An envelope that is being filled with frames.
#[derive(Debug, Clone, PartialEq, Eq)]
pub struct PayloadEnvelopeBuilder {
    pub envelope_index: u64,
    pub plaintext: Vec<u8>,
}

/// What the metadata of a frame is made from.
#[derive(Debug, Clone, Copy, PartialEq, Eq)]
pub struct PayloadFrameMetadataInput {
    pub frame_index: u64,
    pub envelope_index: u64,
    pub member_index: usize,
    pub offset_in_envelope: u32,
    pub compressed_size: usize,
    pub decompressed_size: usize,
    pub member_start: u64,
    pub member_offset: u64,
    pub member_group_size: u64,
}

/// Set on the first frame of a member.
pub const FIRST_FRAME_FLAG: u32 = 1;

/// Set on the last frame of a member.
pub const LAST_FRAME_FLAG: u32 = 2;

/// Set on the only frame of a member.
pub const ONLY_FRAME_FLAGS: u32 = 3;

/// Whether a frame of `frame_len` bytes has to go to another envelope: one that is not empty and
/// would grow past its target size or past what an object can hold.
pub open spec fn needs_flush(len: int, frame_len: int, o: WriterOptions) -> Result<
    bool,
    FormatError,
> {
    match fit_usize(len + frame_len, "payload") {
        Err(e) => Err(e),
        Ok(next_len) => if len == 0 {
            Ok(false)
        } else if next_len > o.envelope_target_size {
            Ok(true)
        } else {
            match payload_fit(next_len as int, o) {
                Err(e) => Err(e),
                Ok(fits) => Ok(!fits),
            }
        },
    }
}

pub fn payload_envelope_needs_flush(
    envelope: &PayloadEnvelopeBuilder,
    frame_len: usize,
    options: WriterOptions,
) -> (r: Result<bool, FormatError>)
    requires
        options.block_size > 0,
    ensures
        r == needs_flush(envelope.plaintext@.len() as int, frame_len as int, options),
{
    let next_len: usize = checked_usize_add(envelope.plaintext.len(), frame_len, "payload")?;
    if envelope.plaintext.len() == 0 {
        return Ok(false);
    }
    if next_len > options.envelope_target_size as usize {
        return Ok(true);
    }
    let fits: bool = payload_object_can_fit(next_len, options)?;
    Ok(!fits)
}

pub open spec fn frame_flags(first: bool, last: bool) -> u32 {
    if first && last {
        ONLY_FRAME_FLAGS
    } else if last {
        LAST_FRAME_FLAG
    } else if first {
        FIRST_FRAME_FLAG
    } else {
        0
    }
}

/// The metadata of a frame.
pub open spec fn frame_metadata(input: PayloadFrameMetadataInput) -> Result<
    PayloadFrame,
    FormatError,
> {
    if input.member_offset + input.decompressed_size > u64::MAX {
        Err(FormatError::WriterUnsupported("payload chunk"))
    } else if input.compressed_size > u32::MAX {
        Err(FormatError::WriterUnsupported("FrameEntry.compressed_size"))
    } else if input.decompressed_size > u32::MAX {
        Err(FormatError::WriterUnsupported("FrameEntry.decompressed_size"))
    } else if input.member_start + input.member_offset > u64::MAX {
        Err(FormatError::WriterUnsupported("PayloadFrame.tar_stream_offset"))
    } else {
        Ok(
            PayloadFrame {
                frame_index: input.frame_index,
                envelope_index: input.envelope_index,
                member_index: input.member_index,
                offset_in_envelope: input.offset_in_envelope,
                compressed_size: input.compressed_size as u32,
                decompressed_size: input.decompressed_size as u32,
                flags: frame_flags(
                    input.member_offset == 0,
                    input.member_offset + input.decompressed_size == input.member_group_size,
                ),
                tar_stream_offset: (input.member_start + input.member_offset) as u64,
            },
        )
    }
}

pub fn payload_frame_metadata(input: PayloadFrameMetadataInput) -> (r: Result<
    PayloadFrame,
    FormatError,
>)
    ensures
        r == frame_metadata(input),
{
    let end: u64 = checked_u64_add(
        input.member_offset,
        input.decompressed_size as u64,
        "payload chunk",
    )?;
    let first: bool = input.member_offset == 0;
    let last: bool = end == input.member_group_size;
    let flags: u32 = if first && last {
        ONLY_FRAME_FLAGS
    } else if last {
        LAST_FRAME_FLAG
    } else if first {
        FIRST_FRAME_FLAG
    } else {
        0
    };
    Ok(
        PayloadFrame {
            frame_index: input.frame_index,
            envelope_index: input.envelope_index,
            member_index: input.member_index,
            offset_in_envelope: input.offset_in_envelope,
            compressed_size: u32_len(input.compressed_size, "FrameEntry.compressed_size")?,
            decompressed_size: u32_len(input.decompressed_size, "FrameEntry.decompressed_size")?,
            flags,
            tar_stream_offset: checked_u64_add(
                input.member_start,
                input.member_offset,
                "PayloadFrame.tar_stream_offset",
            )?,
        },
    )
}

// ---------------------------------------------------------------------------------------------
// Frames
// ---------------------------------------------------------------------------------------------

/// A compressed frame and how many bytes it holds.
pub struct ChosenFrame {
    pub len: int,
    pub frame: Seq<u8>,
}

/// The frame over the first bytes of a chunk: `len` of them, or half as many as often as it takes
/// for the frame to fit an object.
pub open spec fn chosen_frame<C: ArchiveCodec>(
    codec: &C,
    chunk: Seq<u8>,
    len: int,
    o: WriterOptions,
    dictionary: Option<Seq<u8>>,
) -> Result<ChosenFrame, FormatError>
    decreases len,
{
    match codec.compressed(chunk.take(len), o.zstd_level, dictionary, o.jobs) {
        Err(e) => Err(e),
        Ok(frame) => match payload_fit(frame.len() as int, o) {
            Err(e) => Err(e),
            Ok(true) => Ok(ChosenFrame { len, frame }),
            Ok(false) => if len <= 1 {
                Err(
                    FormatError::WriterUnsupported(
                        "single-byte payload frame exceeds envelope object limits",
                    ),
                )
            } else {
                chosen_frame(codec, chunk, len / 2, o, dictionary)
            },
        },
    }
}

pub proof fn chosen_frames_hold_bytes<C: ArchiveCodec>(
    codec: &C,
    chunk: Seq<u8>,
    len: int,
    o: WriterOptions,
    dictionary: Option<Seq<u8>>,
)
    requires
        1 <= len,
    ensures
        chosen_frame(codec, chunk, len, o, dictionary) matches Ok(chosen) ==> {
            &&& 1 <= chosen.len <= len
            &&& payload_fit(chosen.frame.len() as int, o) == Ok::<bool, FormatError>(true)
            &&& codec.compressed(chunk.take(chosen.len), o.zstd_level, dictionary, o.jobs) == Ok::<
                Seq<u8>,
                FormatError,
            >(chosen.frame)
        },
    decreases len,
{
    if len > 1 {
        chosen_frames_hold_bytes(codec, chunk, len / 2, o, dictionary);
    }
}

/// Compresses the first bytes of a chunk into a frame that fits an object.
pub fn choose_frame<C: ArchiveCodec>(
    codec: &C,
    chunk: &[u8],
    options: WriterOptions,
    dictionary: Option<&[u8]>,
) -> (r: Result<(usize, Vec<u8>), FormatError>)
    requires
        options.block_size > 0,
        chunk@.len() > 0,
    ensures
        match (
            r,
            chosen_frame(codec, chunk@, chunk@.len() as int, options, opt_bytes(dictionary)),
        ) {
            (Ok(chosen), Ok(expected)) => chosen.0 == expected.len && chosen.1@ == expected.frame
                && 1 <= chosen.0 <= chunk@.len(),
            (Err(e), Err(f)) => e == f,
            _ => false,
        },
{
    let mut chunk_len: usize = chunk.len();
    loop
        invariant
            options.block_size > 0,
            1 <= chunk_len <= chunk@.len(),
            chosen_frame(codec, chunk@, chunk_len as int, options, opt_bytes(dictionary))
                == chosen_frame(
                codec,
                chunk@,
                chunk@.len() as int,
                options,
                opt_bytes(dictionary),
            ),
        decreases chunk_len,
    {
        let candidate: &[u8] = vstd::slice::slice_subrange(chunk, 0, chunk_len);
        assert(candidate@ =~= chunk@.take(chunk_len as int));
        let frame: Vec<u8> = codec.compress(
            candidate,
            options.zstd_level,
            dictionary,
            options.jobs,
        )?;
        if payload_object_can_fit(frame.len(), options)? {
            return Ok((chunk_len, frame));
        }
        if chunk_len == 1 {
            return Err(
                FormatError::WriterUnsupported(
                    "single-byte payload frame exceeds envelope object limits",
                ),
            );
        }
        chunk_len = chunk_len / 2;
    }
}

/// How chunks become frames.
#[derive(Debug, Clone, Copy, PartialEq, Eq, Structural)]
pub enum Framing {
    /// A frame over as much of a chunk as fits an object.
    Fitting,
    /// One frame over a chunk, whether it fits an object or not.
    Whole,
    /// No frame yet.
    Raw,
}

/// The next frame of a chunk.
pub open spec fn next_frame<C: ArchiveCodec>(
    codec: &C,
    chunk: Seq<u8>,
    len: int,
    o: WriterOptions,
    dictionary: Option<Seq<u8>>,
    framing: Framing,
) -> Result<ChosenFrame, FormatError> {
    match framing {
        Framing::Fitting => chosen_frame(codec, chunk, len, o, dictionary),
        Framing::Whole => match codec.compressed(
            chunk.take(len),
            o.zstd_level,
            dictionary,
            1,
        ) {
            Err(e) => Err(e),
            Ok(frame) => Ok(ChosenFrame { len, frame }),
        },
        Framing::Raw => Ok(ChosenFrame { len, frame: Seq::empty() }),
    }
}

/// Compresses the next frame of a chunk.
pub fn compress_next_frame<C: ArchiveCodec>(
    codec: &C,
    chunk: &[u8],
    options: WriterOptions,
    dictionary: Option<&[u8]>,
    framing: Framing,
) -> (r: Result<(usize, Vec<u8>), FormatError>)
    requires
        options.block_size > 0,
        chunk@.len() > 0,
    ensures
        match (
            r,
            next_frame(
                codec,
                chunk@,
                chunk@.len() as int,
                options,
                opt_bytes(dictionary),
                framing,
            ),
        ) {
            (Ok(chosen), Ok(expected)) => chosen.0 == expected.len && chosen.1@ == expected.frame
                && 1 <= chosen.0 <= chunk@.len(),
            (Err(e), Err(f)) => e == f,
            _ => false,
        },
{
    match framing {
        Framing::Fitting => choose_frame(codec, chunk, options, dictionary),
        Framing::Whole => {
            assert(chunk@.take(chunk@.len() as int) =~= chunk@);
            let frame: Vec<u8> = codec.compress(chunk, options.zstd_level, dictionary, 1)?;
            Ok((chunk.len(), frame))
        },
        Framing::Raw => {
            let frame: Vec<u8> = Vec::new();
            assert(frame@ =~= Seq::empty());
            Ok((chunk.len(), frame))
        },
    }
}

// ---------------------------------------------------------------------------------------------
// Members
// ---------------------------------------------------------------------------------------------

/// Where a frame stands in its member, and its member in the stream of all members.
#[derive(Debug, Clone, Copy, PartialEq, Eq, Structural)]
pub struct FramePlace {
    pub member_index: usize,
    pub member_start: u64,
    pub member_offset: u64,
    pub member_group_size: u64,
}

/// Takes the frames of members in order, and may write to `Out` meanwhile.
pub trait FrameTaker<C: ArchiveCodec, Out> {
    /// What changes from frame to frame.
    type State;

    /// What stays the same.
    type Setting;

    spec fn state(&self, out: Out) -> Self::State;

    spec fn setting(&self) -> Self::Setting;

    spec fn wf(&self, out: Out) -> bool;

    /// How what the frames go to bears on success.
    spec fn standing(out: Out) -> Standing;

    /// How chunks become frames.
    spec fn framing() -> Framing;

    fn frames_by() -> (r: Framing)
        ensures
            r == Self::framing(),
    ;

    /// Bytes of the next chunk where `left` bytes of a member are left.
    spec fn chunk_len(state: Self::State, left: int, o: WriterOptions) -> int;

    fn next_len(&self, out: &Out, left: u64, options: WriterOptions) -> (r: usize)
        requires
            self.wf(*out),
            left > 0,
            options.chunk_size > 0,
        ensures
            r == Self::chunk_len(self.state(*out), left as int, options),
            1 <= r <= left,
    ;

    /// The state after a frame over the bytes `chunk`.
    spec fn with_frame(
        codec: &C,
        setting: Self::Setting,
        state: Self::State,
        chunk: Seq<u8>,
        frame: Seq<u8>,
        place: FramePlace,
    ) -> Result<Self::State, FormatError>;

    fn take_frame(
        &mut self,
        codec: &C,
        out: &mut Out,
        chunk: &[u8],
        frame: &[u8],
        place: FramePlace,
    ) -> (r: Result<(), ArchiveWriteError>)
        requires
            old(self).wf(*old(out)),
        ensures
            final(self).setting() == old(self).setting(),
            r is Ok ==> final(self).wf(*final(out)),
            r is Ok ==> Self::with_frame(
                codec,
                old(self).setting(),
                old(self).state(*old(out)),
                chunk@,
                frame@,
                place,
            ) == Ok::<Self::State, FormatError>(final(self).state(*final(out))),
            Self::standing(*old(out)).hands_on(Self::standing(*final(out)), failure_of(r)),
            Self::standing(*old(out)).undisturbed(
                Self::standing(*final(out)),
            ) ==> match Self::with_frame(
                codec,
                old(self).setting(),
                old(self).state(*old(out)),
                chunk@,
                frame@,
                place,
            ) {
                Ok(_) => r is Ok,
                Err(e) => r == Err::<(), ArchiveWriteError>(ArchiveWriteError::Format(e)),
            },
    ;
}

/// The state after the frames of a member from `offset` on.
pub open spec fn framed_member<C: ArchiveCodec, Out, T: FrameTaker<C, Out>>(
    codec: &C,
    setting: T::Setting,
    state: T::State,
    o: WriterOptions,
    dictionary: Option<Seq<u8>>,
    feed: Feed,
    place: FramePlace,
    offset: int,
) -> Result<T::State, ArchiveWriteError>
    decreases
            if offset < place.member_group_size {
                place.member_group_size - offset
            } else {
                0
            },
{
    if offset >= place.member_group_size {
        Ok(state)
    } else {
        let n = T::chunk_len(state, place.member_group_size - offset, o);
        match feed.reads(offset + n) {
            Err(e) => Err(ArchiveWriteError::Io(e)),
            Ok(bytes) => match next_frame(
                codec,
                bytes.skip(offset),
                n,
                o,
                dictionary,
                T::framing(),
            ) {
                Err(e) => Err(ArchiveWriteError::Format(e)),
                Ok(chosen) => match T::with_frame(
                    codec,
                    setting,
                    state,
                    bytes.skip(offset).take(chosen.len),
                    chosen.frame,
                    FramePlace { member_offset: offset as u64, ..place },
                ) {
                    Err(e) => Err(ArchiveWriteError::Format(e)),
                    Ok(next) => if chosen.len < 1 {
                        Ok(next)
                    } else {
                        framed_member::<C, Out, T>(
                            codec,
                            setting,
                            next,
                            o,
                            dictionary,
                            feed,
                            place,
                            offset + chosen.len,
                        )
                    },
                },
            },
        }
    }
}

/// Bytes of the next chunk where `left` bytes are left.
pub open spec fn next_chunk_len(left: int, o: WriterOptions) -> int {
    if left <= o.chunk_size {
        left
    } else {
        o.chunk_size as int
    }
}

/// Bytes of the next chunk.
pub fn bounded_chunk_len(left: u64, options: WriterOptions) -> (r: usize)
    requires
        left > 0,
        options.chunk_size > 0,
    ensures
        r == next_chunk_len(left as int, options),
        1 <= r <= left,
{
    if left <= options.chunk_size as u64 {
        left as usize
    } else {
        options.chunk_size as usize
    }
}

/// Whether a step that may fail for outside reasons went as `outcome` says. What a sink refuses is
/// handed on.
pub open spec fn goes<S>(
    before: Standing,
    now: Standing,
    r: Result<(), ArchiveWriteError>,
    after: S,
    outcome: Result<S, ArchiveWriteError>,
) -> bool {
    &&& r is Ok ==> outcome == Ok::<S, ArchiveWriteError>(after)
    &&& before.hands_on(now, failure_of(r))
    &&& before.undisturbed(now) ==> match outcome {
        Ok(_) => r is Ok,
        Err(e) => r == Err::<(), ArchiveWriteError>(e),
    }
}

/// Hands the frames of a member over, one after the other.
#[verifier::rlimit(60)]
#[verifier::loop_isolation(false)]
pub fn frame_member<
    'a,
    C: ArchiveCodec,
    Out,
    T: FrameTaker<C, Out>,
    S: RegularFileSource,
    P: ArchiveWriteProgressSink,
>(
    codec: &C,
    taker: &mut T,
    out: &mut Out,
    reader: &mut StreamingMemberReader<'a, S>,
    options: WriterOptions,
    dictionary: Option<&[u8]>,
    place: FramePlace,
    progress: &mut P,
    ledger: &mut SourceProgressState,
) -> (r: Result<(), ArchiveWriteError>)
    requires
        options.block_size > 0,
        options.chunk_size > 0,
        old(taker).wf(*old(out)),
        old(reader).wf(),
        old(reader).taken() == 0,
        old(reader).feed().bytes.len() == place.member_group_size,
        old(ledger).wf(),
    ensures
        final(ledger).wf(),
        phases_of(final(progress).events()) == phases_of(old(progress).events()),
        final(taker).setting() == old(taker).setting(),
        r is Ok ==> final(taker).wf(*final(out)),
        final(reader).source == old(reader).source,
        final(reader).sections == old(reader).sections,
        final(ledger).active_phase == old(ledger).active_phase,
        final(reader).source_bytes == old(reader).source_bytes,
        r is Ok ==> final(reader).drawn@ == drawn_size(
            final(reader).values(),
            final(reader).sections@.len(),
        ),
        r is Ok && old(reader).sections@.len() > 0 && old(reader).sections@.last()@.size > 0
            ==> final(reader).opened@ == openings(
            final(reader).values(),
            final(reader).sections@.len(),
        ),
        final(reader).chunk_size == old(reader).chunk_size,
        final(reader).opened@ >= old(reader).opened@,
        final(ledger).opened@ == old(ledger).opened@ + repeated(
            old(reader).source.run().described.path,
            final(reader).opened@ - old(reader).opened@,
        ),
        r is Ok ==> final(reader).opened@ <= openings(
            final(reader).values(),
            final(reader).sections@.len(),
        ),
        final(reader).drawn@ >= old(reader).drawn@,
        old(reader).source.steady() ==> reports(
            old(reader).source.run().described.path,
            old(reader).source_bytes,
            final(reader).drawn@ - old(reader).drawn@,
            *old(ledger),
            old(progress).events(),
            *final(ledger),
            final(progress).events(),
        ),
        final(reader).answers_allowed(),
        goes(
            T::standing(*old(out)),
            T::standing(*final(out)),
            r,
            final(taker).state(*final(out)),
            framed_member::<C, Out, T>(
                codec,
                old(taker).setting(),
                old(taker).state(*old(out)),
                options,
                opt_bytes(dictionary),
                final(reader).feed(),
                place,
                0,
            ),
        ),
{
    let ghost setting = taker.setting();
    let ghost first = taker.state(*out);
    let ghost began = T::standing(*out);
    let ghost dict = opt_bytes(dictionary);
    let ghost source = reader.source;
    let ghost sections = reader.sections;
    let ghost limit = reader.source_bytes;
    let ghost drawn = reader.drawn@;
    let ghost opened = reader.opened@;
    let size: u64 = place.member_group_size;
    let mut member_offset: u64 = 0;
    proof {
        reader.feed_begins_with_gross();
        nothing_is_opened(ledger.opened@, source.run().described.path);
        reports_of_nothing(source.run().described.path, limit, *ledger, progress.events());
    }
    while member_offset < size
        invariant
            member_offset <= size,
            taker.wf(*out),
            taker.setting() == setting,
            began.goes_on(T::standing(*out)),
            reader.wf(),
            reader.taken() == member_offset,
            reader.source == source,
            reader.sections == sections,
            reader.feed().bytes.len() == size,
            ledger.wf(),
            phases_of(progress.events()) == phases_of(old(progress).events()),
            ledger.active_phase == old(ledger).active_phase,
            reader.source_bytes == limit,
            reader.chunk_size == old(reader).chunk_size,
            reader.opened@ >= opened,
            ledger.opened@ == old(ledger).opened@ + repeated(
                source.run().described.path,
                reader.opened@ - opened,
            ),
            reader.drawn@ >= drawn,
            source.steady() ==> reports(
                source.run().described.path,
                limit,
                reader.drawn@ - drawn,
                *old(ledger),
                old(progress).events(),
                *ledger,
                progress.events(),
            ),
            forall|f: Feed|
                f.begins_with(reader.gross()) && f.bytes.len() == size
                    ==> #[trigger] framed_member::<C, Out, T>(
                    codec,
                    setting,
                    first,
                    options,
                    dict,
                    f,
                    place,
                    0,
                ) == framed_member::<C, Out, T>(
                    codec,
                    setting,
                    taker.state(*out),
                    options,
                    dict,
                    f,
                    place,
                    member_offset as int,
                ),
        decreases size - member_offset,
    {
        let remaining: u64 = size - member_offset;
        let max_chunk: usize = taker.next_len(out, remaining, options);
        let ghost n = max_chunk as int;
        let ghost was = reader.gross();
        let ghost state = taker.state(*out);
        let ghost offset = member_offset as int;
        let ghost drawn_before = reader.drawn@;
        let ghost opened_before = reader.opened@;
        let ghost noted = *ledger;
        let ghost told = progress.events();
        let bytes: Result<Vec<u8>, IoError> = reader.read_exact(
            max_chunk,
            progress,
            ledger,
        );
        proof {
            openings_add_up(
                old(ledger).opened@,
                source.run().described.path,
                opened_before - opened,
                reader.opened@ - opened_before,
            );
            if source.steady() {
                reports_join(
                    source.run().described.path,
                    limit,
                    drawn_before - drawn,
                    reader.drawn@ - drawn_before,
                    *old(ledger),
                    old(progress).events(),
                    noted,
                    told,
                    *ledger,
                    progress.events(),
                );
            }
        }
        let chunk: Vec<u8> = match bytes {
            Ok(bytes) => bytes,
            Err(e) => {
                assert(framed_member::<C, Out, T>(
                    codec,
                    setting,
                    first,
                    options,
                    dict,
                    reader.feed(),
                    place,
                    0,
                ) == framed_member::<C, Out, T>(
                    codec,
                    setting,
                    state,
                    options,
                    dict,
                    reader.feed(),
                    place,
                    offset,
                ));
                return Err(ArchiveWriteError::Io(e));
            },
        };
        let ghost gross = reader.gross();
        proof {
            reader.feed_begins_with_gross();
            assert forall|f: Feed| f.begins_with(gross) implies #[trigger] f.begins_with(was)
                && f.reads(offset + n) is Ok && f.reads(offset + n)->Ok_0.skip(offset)
                == chunk@ by {
                assert(f.bytes.take(was.len() as int) =~= was) by {
                    assert forall|k: int| 0 <= k < was.len() implies f.bytes[k] == was[k] by {
                        assert(f.bytes.take(gross.len() as int)[k] == gross[k]);
                        assert(gross.take(was.len() as int)[k] == was[k]);
                    }
                }
                assert(f.bytes.take(offset + n).skip(offset) =~= chunk@) by {
                    assert forall|k: int| offset <= k < offset + n implies f.bytes[k]
                        == chunk@[k - offset] by {
                        assert(f.bytes.take(gross.len() as int)[k] == gross[k]);
                    }
                }
            }
            if T::framing() == Framing::Fitting {
                chosen_frames_hold_bytes(codec, chunk@, n, options, dict);
            }
            assert(framed_member::<C, Out, T>(
                codec,
                setting,
                first,
                options,
                dict,
                reader.feed(),
                place,
                0,
            ) == framed_member::<C, Out, T>(
                codec,
                setting,
                state,
                options,
                dict,
                reader.feed(),
                place,
                offset,
            ));
        }
        let (chunk_len, frame): (usize, Vec<u8>) = lift(
            compress_next_frame(
                codec,
                chunk.as_slice(),
                options,
                dictionary,
                T::frames_by(),
            ),
        )?;
        if chunk_len < chunk.len() {
            let rest: Vec<u8> = to_bytes(
                vstd::slice::slice_subrange(chunk.as_slice(), chunk_len, chunk.len()),
            );
            assert(rest@ =~= reader.gross().subrange(
                reader.taken() - rest@.len(),
                reader.taken(),
            ));
            reader.push_back(rest);
        }
        let kept: &[u8] = vstd::slice::slice_subrange(chunk.as_slice(), 0, chunk_len);
        assert(kept@ =~= chunk@.take(chunk_len as int));
        taker.take_frame(
            codec,
            out,
            kept,
            frame.as_slice(),
            FramePlace {
                member_index: place.member_index,
                member_start: place.member_start,
                member_offset,
                member_group_size: place.member_group_size,
            },
        )?;
        member_offset = member_offset + chunk_len as u64;
        proof {
            assert forall|f: Feed|
                f.begins_with(reader.gross()) && f.bytes.len() == size implies #[trigger] framed_member::<
                C,
                Out,
                T,
            >(codec, setting, first, options, dict, f, place, 0) == framed_member::<C, Out, T>(
                codec,
                setting,
                taker.state(*out),
                options,
                dict,
                f,
                place,
                member_offset as int,
            ) by {
                assert(f.begins_with(gross));
                assert(f.begins_with(was));
                assert(framed_member::<C, Out, T>(codec, setting, first, options, dict, f, place, 0)
                    == framed_member::<C, Out, T>(
                    codec,
                    setting,
                    state,
                    options,
                    dict,
                    f,
                    place,
                    offset,
                ));
            }
        }
    }
    proof {
        reader.feed_begins_with_gross();
        reader.whole_streams_are_drawn();
        reader.sources_are_opened_by_section();
        if reader.sections@.len() > 0 && reader.sections@.last()@.size > 0 {
            reader.whole_streams_are_opened_once();
        }
    }
    Ok(())
}

} // verus!
