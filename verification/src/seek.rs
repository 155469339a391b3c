//! Finding a member again: where its frames lie in the stream and in the envelopes.
use crate::arith::fit_u32;
use crate::capture::{captured, prepared, sections_make_the_group};
use crate::codec::ArchiveCodec;
use crate::digest::sha256;
use crate::errors::FormatError;
use crate::member::{layout_outcome, source_payload_size_outcome, PrimaryValue};
use crate::members::{with_member, with_members, MembersValue};
use crate::options::WriterOptions;
use crate::packing::{
    envelope_extent, flushed_plan, nothing_packed, planned_frame, with_packed_frame, PackValue,
    PayloadPacking,
};
use crate::payload::{
    chosen_frames_hold_bytes, frame_flags, framed_member, needs_flush, next_chunk_len, next_frame,
    FramePlace, Framing,
};
use crate::planning::payload_outcome;
use crate::profile::MetadataProfile;
use crate::root_auth::PayloadObject;
use crate::rows::MemberValue;
use crate::shard::{frames_of_member, member_range, PayloadFrame};
use crate::source::SourceRun;
use crate::stream::{answers_of, feed_of, Feed};
use vstd::prelude::*;

verus! {

// ---------------------------------------------------------------------------------------------
// Frames
// ---------------------------------------------------------------------------------------------

/// Bytes of the stream that the first `count` frames hold.
pub open spec fn held(frames: Seq<PayloadFrame>, count: nat) -> int
    decreases count,
{
    if count == 0 {
        0
    } else {
        held(frames, (count - 1) as nat) + frames[count - 1].decompressed_size
    }
}

/// Bytes of an envelope that the first `count` frames take.
pub open spec fn filled(frames: Seq<PayloadFrame>, count: nat, envelope: int) -> int
    decreases count,
{
    if count == 0 {
        0
    } else {
        filled(frames, (count - 1) as nat, envelope) + if frames[count - 1].envelope_index
            == envelope {
            frames[count - 1].compressed_size as int
        } else {
            0
        }
    }
}

/// Whether frames are numbered, and follow one another through the stream and through their
/// envelopes.
pub open spec fn frames_follow(frames: Seq<PayloadFrame>) -> bool {
    forall|k: int|
        0 <= k < frames.len() ==> {
            &&& (#[trigger] frames[k]).frame_index == k
            &&& frames[k].tar_stream_offset == held(frames, k as nat)
            &&& frames[k].offset_in_envelope == filled(
                frames,
                k as nat,
                frames[k].envelope_index as int,
            )
        }
}

/// The part of the stream that a frame holds.
pub open spec fn part_of(stream: Seq<u8>, frame: PayloadFrame) -> Seq<u8> {
    stream.subrange(
        frame.tar_stream_offset as int,
        frame.tar_stream_offset + frame.decompressed_size,
    )
}

/// A part of the stream, compressed.
pub open spec fn frame_bytes<C: ArchiveCodec>(
    codec: &C,
    o: WriterOptions,
    dictionary: Option<Seq<u8>>,
    part: Seq<u8>,
) -> Result<Seq<u8>, FormatError> {
    codec.compressed(part, o.zstd_level, dictionary, o.jobs)
}

/// Whether every frame is its part of the stream, compressed, and the frames hold all of it.
pub open spec fn frames_hold<C: ArchiveCodec>(
    codec: &C,
    o: WriterOptions,
    dictionary: Option<Seq<u8>>,
    frames: Seq<PayloadFrame>,
    stream: Seq<u8>,
) -> bool {
    &&& held(frames, frames.len()) == stream.len()
    &&& forall|k: int|
        0 <= k < frames.len() ==> {
            &&& frame_bytes(codec, o, dictionary, part_of(stream, #[trigger] frames[k])) is Ok
            &&& frame_bytes(codec, o, dictionary, part_of(stream, frames[k]))->Ok_0.len()
                == frames[k].compressed_size
        }
}

/// What the first `count` frames put into an envelope.
pub open spec fn envelope_bytes<C: ArchiveCodec>(
    codec: &C,
    o: WriterOptions,
    dictionary: Option<Seq<u8>>,
    stream: Seq<u8>,
    frames: Seq<PayloadFrame>,
    count: nat,
    envelope: int,
) -> Seq<u8>
    decreases count,
{
    if count == 0 {
        Seq::empty()
    } else {
        let before = envelope_bytes(
            codec,
            o,
            dictionary,
            stream,
            frames,
            (count - 1) as nat,
            envelope,
        );
        if frames[count - 1].envelope_index == envelope {
            before + frame_bytes(codec, o, dictionary, part_of(stream, frames[count - 1]))->Ok_0
        } else {
            before
        }
    }
}

proof fn held_is_local(a: Seq<PayloadFrame>, b: Seq<PayloadFrame>, count: nat)
    requires
        count <= a.len(),
        count <= b.len(),
        forall|k: int| 0 <= k < count ==> a[k] == b[k],
    ensures
        held(a, count) == held(b, count),
    decreases count,
{
    if count > 0 {
        held_is_local(a, b, (count - 1) as nat);
    }
}

proof fn filled_is_local(a: Seq<PayloadFrame>, b: Seq<PayloadFrame>, count: nat, envelope: int)
    requires
        count <= a.len(),
        count <= b.len(),
        forall|k: int| 0 <= k < count ==> a[k] == b[k],
    ensures
        filled(a, count, envelope) == filled(b, count, envelope),
    decreases count,
{
    if count > 0 {
        filled_is_local(a, b, (count - 1) as nat, envelope);
    }
}

pub(crate) proof fn held_grows(frames: Seq<PayloadFrame>, count: nat, total: nat)
    requires
        count <= total <= frames.len(),
    ensures
        0 <= held(frames, count) <= held(frames, total),
        count < total ==> held(frames, count) + frames[count as int].decompressed_size <= held(
            frames,
            total,
        ),
    decreases total,
{
    if count < total {
        held_grows(frames, count, (total - 1) as nat);
    } else if count > 0 {
        held_grows(frames, (count - 1) as nat, (count - 1) as nat);
    }
}

/// An envelope that no frame names is empty.
proof fn unnamed_envelopes_are_empty<C: ArchiveCodec>(
    codec: &C,
    o: WriterOptions,
    dictionary: Option<Seq<u8>>,
    stream: Seq<u8>,
    frames: Seq<PayloadFrame>,
    count: nat,
    envelope: int,
)
    requires
        count <= frames.len(),
        forall|k: int| 0 <= k < count ==> (#[trigger] frames[k]).envelope_index != envelope,
    ensures
        filled(frames, count, envelope) == 0,
        envelope_bytes(codec, o, dictionary, stream, frames, count, envelope) == Seq::<u8>::empty(),
    decreases count,
{
    if count > 0 {
        unnamed_envelopes_are_empty(
            codec,
            o,
            dictionary,
            stream,
            frames,
            (count - 1) as nat,
            envelope,
        );
    }
}

/// More of the stream and more frames leave what the first frames hold as it is.
pub(crate) proof fn envelope_bytes_are_local<C: ArchiveCodec>(
    codec: &C,
    o: WriterOptions,
    dictionary: Option<Seq<u8>>,
    stream: Seq<u8>,
    frames: Seq<PayloadFrame>,
    longer: Seq<u8>,
    more: Seq<PayloadFrame>,
    count: nat,
    envelope: int,
)
    requires
        count <= frames.len() <= more.len(),
        forall|k: int| 0 <= k < count ==> frames[k] == more[k],
        frames_follow(frames),
        held(frames, frames.len()) == stream.len(),
        stream.len() <= longer.len(),
        longer.take(stream.len() as int) == stream,
    ensures
        envelope_bytes(codec, o, dictionary, stream, frames, count, envelope) == envelope_bytes(
            codec,
            o,
            dictionary,
            longer,
            more,
            count,
            envelope,
        ),
        forall|k: int|
            0 <= k < count ==> part_of(stream, #[trigger] frames[k]) == part_of(longer, more[k]),
    decreases count,
{
    if count > 0 {
        envelope_bytes_are_local(
            codec,
            o,
            dictionary,
            stream,
            frames,
            longer,
            more,
            (count - 1) as nat,
            envelope,
        );
        let last = frames[count - 1];
        held_grows(frames, (count - 1) as nat, frames.len());
        assert(part_of(stream, last) =~= part_of(longer, last)) by {
            assert forall|i: int| 0 <= i < last.decompressed_size implies part_of(stream, last)[i]
                == part_of(longer, last)[i] by {
                assert(longer.take(stream.len() as int)[last.tar_stream_offset + i]
                    == stream[last.tar_stream_offset + i]);
            }
        }
    }
}

/// An envelope has the length that its frames take.
proof fn envelope_bytes_fill<C: ArchiveCodec>(
    codec: &C,
    o: WriterOptions,
    dictionary: Option<Seq<u8>>,
    stream: Seq<u8>,
    frames: Seq<PayloadFrame>,
    count: nat,
    envelope: int,
)
    requires
        count <= frames.len(),
        frames_hold(codec, o, dictionary, frames, stream),
    ensures
        envelope_bytes(codec, o, dictionary, stream, frames, count, envelope).len() == filled(
            frames,
            count,
            envelope,
        ),
    decreases count,
{
    if count > 0 {
        envelope_bytes_fill(codec, o, dictionary, stream, frames, (count - 1) as nat, envelope);
        assert(frames[count - 1].compressed_size >= 0);
    }
}

/// Every frame lies in its envelope at the offset that is recorded of it: cutting the envelope
/// there gives the frame's part of the stream, compressed.
#[verifier::spinoff_prover]
pub proof fn frames_lie_in_their_envelopes<C: ArchiveCodec>(
    codec: &C,
    o: WriterOptions,
    dictionary: Option<Seq<u8>>,
    stream: Seq<u8>,
    frames: Seq<PayloadFrame>,
    count: nat,
    k: int,
)
    requires
        frames_follow(frames),
        frames_hold(codec, o, dictionary, frames, stream),
        0 <= k < count <= frames.len(),
    ensures
        ({
            let f = frames[k];
            let envelope = envelope_bytes(
                codec,
                o,
                dictionary,
                stream,
                frames,
                count,
                f.envelope_index as int,
            );
            &&& f.offset_in_envelope + f.compressed_size <= envelope.len()
            &&& frame_bytes(codec, o, dictionary, part_of(stream, f)) == Ok::<Seq<u8>, FormatError>(
                envelope.subrange(
                    f.offset_in_envelope as int,
                    f.offset_in_envelope + f.compressed_size,
                ),
            )
        }),
    decreases count,
{
    let f = frames[k];
    let e = f.envelope_index as int;
    let at = f.offset_in_envelope as int;
    let end = at + f.compressed_size;
    let last = frames[count - 1];
    let image = frame_bytes(codec, o, dictionary, part_of(stream, last))->Ok_0;
    let before = envelope_bytes(codec, o, dictionary, stream, frames, (count - 1) as nat, e);
    let all = envelope_bytes(codec, o, dictionary, stream, frames, count, e);
    envelope_bytes_fill(codec, o, dictionary, stream, frames, (count - 1) as nat, e);
    assert(all == if last.envelope_index == e {
        before + image
    } else {
        before
    });
    if k == count - 1 {
        assert(before.len() == at);
        assert(image.len() == f.compressed_size);
        a_cut_is_kept(before, image, at, end);
    } else {
        frames_lie_in_their_envelopes(
            codec,
            o,
            dictionary,
            stream,
            frames,
            (count - 1) as nat,
            k,
        );
        a_cut_is_kept(before, image, at, end);
    }
}

/// What is cut from a string, once more stands behind it.
proof fn a_cut_is_kept(s: Seq<u8>, more: Seq<u8>, at: int, end: int)
    ensures
        0 <= at <= end <= s.len() ==> (s + more).subrange(at, end) == s.subrange(at, end),
        at == s.len() && end == at + more.len() ==> (s + more).subrange(at, end) == more,
{
    if 0 <= at <= end <= s.len() {
        assert((s + more).subrange(at, end) =~= s.subrange(at, end));
    }
    if at == s.len() && end == at + more.len() {
        assert((s + more).subrange(at, end) =~= more);
    }
}

// ---------------------------------------------------------------------------------------------
// Envelopes
// ---------------------------------------------------------------------------------------------

/// Blocks that the first `count` envelopes take.
pub open spec fn taken(objects: Seq<PayloadObject>, count: nat) -> int
    decreases count,
{
    if count == 0 {
        0
    } else {
        taken(objects, (count - 1) as nat) + objects[count - 1].object.total()
    }
}

/// Data blocks among them.
pub open spec fn data_taken(objects: Seq<PayloadObject>, count: nat) -> int
    decreases count,
{
    if count == 0 {
        0
    } else {
        data_taken(objects, (count - 1) as nat) + objects[count - 1].object.data_block_count
    }
}

/// Whether envelopes are numbered, hold their frames and nothing else, and follow one another
/// through the blocks.
pub open spec fn envelopes_follow(objects: Seq<PayloadObject>, frames: Seq<PayloadFrame>) -> bool {
    forall|e: int|
        0 <= e < objects.len() ==> {
            &&& (#[trigger] objects[e]).envelope_index == e
            &&& objects[e].plaintext_size == filled(frames, frames.len(), e)
            &&& objects[e].object.first_block_index == taken(objects, e as nat)
        }
}

proof fn taken_is_local(a: Seq<PayloadObject>, b: Seq<PayloadObject>, count: nat)
    requires
        count <= a.len(),
        count <= b.len(),
        forall|k: int| 0 <= k < count ==> a[k] == b[k],
    ensures
        taken(a, count) == taken(b, count),
        data_taken(a, count) == data_taken(b, count),
    decreases count,
{
    if count > 0 {
        taken_is_local(a, b, (count - 1) as nat);
    }
}

/// Whether a payload in the making is in order.
#[verifier::opaque]
pub open spec fn is_packed<C: ArchiveCodec>(
    codec: &C,
    o: WriterOptions,
    dictionary: Option<Seq<u8>>,
    p: PackValue,
) -> bool {
    &&& frames_follow(p.frames)
    &&& frames_hold(codec, o, dictionary, p.frames, p.hashed)
    &&& envelopes_follow(p.objects, p.frames)
    &&& p.next_frame == p.frames.len()
    &&& p.tar_total == p.hashed.len()
    &&& p.objects.len() == p.envelope_index
    &&& p.next_block == taken(p.objects, p.objects.len())
    &&& p.block_count == data_taken(p.objects, p.objects.len())
    &&& forall|k: int|
        0 <= k < p.frames.len() ==> (#[trigger] p.frames[k]).envelope_index <= p.envelope_index
    &&& p.plaintext == envelope_bytes(
        codec,
        o,
        dictionary,
        p.hashed,
        p.frames,
        p.frames.len(),
        p.envelope_index as int,
    )
}

/// Closing an envelope keeps a payload in order.
pub(crate) proof fn closing_keeps_order<C: ArchiveCodec>(
    codec: &C,
    o: WriterOptions,
    sizes: WriterOptions,
    dictionary: Option<Seq<u8>>,
    p: PackValue,
)
    requires
        is_packed(codec, o, dictionary, p),
    ensures
        flushed_plan(p, sizes) matches Ok(q) ==> {
            &&& is_packed(codec, o, dictionary, q)
            &&& q.frames == p.frames
            &&& q.hashed == p.hashed
            &&& q.tar_total == p.tar_total
        },
{
    reveal(is_packed);
    if let Ok(q) = flushed_plan(p, sizes) {
        let extent = envelope_extent(p, sizes)->Ok_0;
        let n = p.objects.len();
        assert(fit_u32(p.plaintext.len() as int, "EnvelopeEntry.plaintext_size") is Ok);
        envelope_bytes_fill(
            codec,
            o,
            dictionary,
            p.hashed,
            p.frames,
            p.frames.len(),
            p.envelope_index as int,
        );
        assert(q.objects.len() == n + 1);
        taken_is_local(p.objects, q.objects, n);
        assert forall|e: int| 0 <= e < q.objects.len() implies {
            &&& (#[trigger] q.objects[e]).envelope_index == e
            &&& q.objects[e].plaintext_size == filled(q.frames, q.frames.len(), e)
            &&& q.objects[e].object.first_block_index == taken(q.objects, e as nat)
        } by {
            taken_is_local(p.objects, q.objects, e as nat);
            if e < n {
                assert(q.objects[e] == p.objects[e]);
            }
        }
        unnamed_envelopes_are_empty(
            codec,
            o,
            dictionary,
            q.hashed,
            q.frames,
            q.frames.len(),
            q.envelope_index as int,
        );
    }
}

/// A frame over the next bytes of the stream keeps a payload in order.
#[verifier::rlimit(40)]
#[verifier::spinoff_prover]
pub(crate) proof fn packing_keeps_order<C: ArchiveCodec>(
    codec: &C,
    o: WriterOptions,
    sizes: WriterOptions,
    dictionary: Option<Seq<u8>>,
    p: PackValue,
    chunk: Seq<u8>,
    frame: Seq<u8>,
    place: FramePlace,
)
    requires
        is_packed(codec, o, dictionary, p),
        place.member_start + place.member_offset == p.tar_total,
        frame_bytes(codec, o, dictionary, chunk) == Ok::<Seq<u8>, FormatError>(frame),
        frame.len() <= u32::MAX,
        chunk.len() <= u32::MAX,
    ensures
        with_packed_frame(p, chunk, frame, place, sizes) matches Ok(q) ==> {
            &&& is_packed(codec, o, dictionary, q)
            &&& q.hashed == p.hashed + chunk
            &&& q.tar_total == p.tar_total + chunk.len()
            &&& q.frames.len() == p.frames.len() + 1
            &&& q.frames.take(p.frames.len() as int) == p.frames
            &&& q.frames.last().member_index == place.member_index
            &&& q.frames.last().decompressed_size == chunk.len()
            &&& q.frames.last().flags == frame_flags(
                place.member_offset == 0,
                place.member_offset + chunk.len() == place.member_group_size,
            )
        },
{
    reveal(is_packed);
    if let Ok(q) = with_packed_frame(p, chunk, frame, place, sizes) {
        let n = p.frames.len();
        let last = q.frames[n as int];
        assert(q.frames.take(n as int) =~= p.frames);
        assert(q.hashed.take(p.hashed.len() as int) =~= p.hashed);
        held_is_local(p.frames, q.frames, n);
        envelope_bytes_fill(
            codec,
            o,
            dictionary,
            p.hashed,
            p.frames,
            n,
            p.envelope_index as int,
        );
        envelope_bytes_are_local(
            codec,
            o,
            dictionary,
            p.hashed,
            p.frames,
            q.hashed,
            q.frames,
            n,
            p.envelope_index as int,
        );
        filled_is_local(p.frames, q.frames, n, p.envelope_index as int);
        assert(part_of(q.hashed, last) =~= chunk);
        assert forall|k: int| 0 <= k < q.frames.len() implies {
            &&& (#[trigger] q.frames[k]).frame_index == k
            &&& q.frames[k].tar_stream_offset == held(q.frames, k as nat)
            &&& q.frames[k].offset_in_envelope == filled(
                q.frames,
                k as nat,
                q.frames[k].envelope_index as int,
            )
            &&& q.frames[k].envelope_index <= q.envelope_index
            &&& frame_bytes(codec, o, dictionary, part_of(q.hashed, q.frames[k])) is Ok
            &&& frame_bytes(codec, o, dictionary, part_of(q.hashed, q.frames[k]))->Ok_0.len()
                == q.frames[k].compressed_size
        } by {
            held_is_local(p.frames, q.frames, k as nat);
            filled_is_local(
                p.frames,
                q.frames,
                k as nat,
                q.frames[k].envelope_index as int,
            );
            if k < n {
                assert(q.frames[k] == p.frames[k]);
                assert(part_of(p.hashed, p.frames[k]) == part_of(q.hashed, q.frames[k]));
            }
        }
        assert forall|e: int| 0 <= e < q.objects.len() implies {
            &&& (#[trigger] q.objects[e]).envelope_index == e
            &&& q.objects[e].plaintext_size == filled(q.frames, q.frames.len(), e)
            &&& q.objects[e].object.first_block_index == taken(q.objects, e as nat)
        } by {
            filled_is_local(p.frames, q.frames, n, e);
            assert(q.objects[e] == p.objects[e]);
        }
    }
}

// ---------------------------------------------------------------------------------------------
// Members
// ---------------------------------------------------------------------------------------------

/// A frame that fits an object is no longer than its length field can say.
pub(crate) proof fn fitting_frames_are_short(len: int, o: WriterOptions)
    requires
        len >= 0,
        o.block_size > 0,
        crate::object_plan::payload_fit(len, o) == Ok::<bool, FormatError>(true),
    ensures
        len <= u32::MAX,
{
    crate::object_plan::sealed_size_is_block_aligned(len, o);
}

/// Whether `q` is `p` with the frames of a member from `offset` on.
#[verifier::opaque]
pub open spec fn member_packed(
    p: PackValue,
    q: PackValue,
    feed: Feed,
    place: FramePlace,
    offset: int,
) -> bool {
    let n = p.frames.len();
    &&& q.hashed == p.hashed + feed.bytes.subrange(offset, place.member_group_size as int)
    &&& n <= q.frames.len()
    &&& q.frames.take(n as int) == p.frames
    &&& offset < place.member_group_size ==> n < q.frames.len()
    &&& forall|k: int|
        n <= k < q.frames.len() ==> {
            &&& (#[trigger] q.frames[k]).member_index == place.member_index
            &&& q.frames[k].flags == frame_flags(
                k == n && offset == 0,
                k == q.frames.len() - 1,
            )
        }
}

/// One more frame of a member.
pub(crate) proof fn frame_keeps_order<C: ArchiveCodec>(
    codec: &C,
    o: WriterOptions,
    sizes: WriterOptions,
    dictionary: Option<Seq<u8>>,
    p: PackValue,
    chunk: Seq<u8>,
    frame: Seq<u8>,
    place: FramePlace,
)
    requires
        is_packed(codec, o, dictionary, p),
        place.member_start + place.member_offset == p.tar_total,
        frame_bytes(codec, o, dictionary, chunk) == Ok::<Seq<u8>, FormatError>(frame),
        frame.len() <= u32::MAX,
        chunk.len() <= u32::MAX,
    ensures
        planned_frame(p, chunk, frame, place, sizes) matches Ok(q) ==> {
            &&& is_packed(codec, o, dictionary, q)
            &&& q.hashed == p.hashed + chunk
            &&& q.tar_total == p.tar_total + chunk.len()
            &&& q.frames.len() == p.frames.len() + 1
            &&& q.frames.take(p.frames.len() as int) == p.frames
            &&& q.frames.last().member_index == place.member_index
            &&& q.frames.last().flags == frame_flags(
                place.member_offset == 0,
                place.member_offset + chunk.len() == place.member_group_size,
            )
        },
{
    match needs_flush(p.plaintext.len() as int, frame.len() as int, sizes) {
        Err(_) => {},
        Ok(false) => {
            packing_keeps_order(codec, o, sizes, dictionary, p, chunk, frame, place);
        },
        Ok(true) => {
            closing_keeps_order(codec, o, sizes, dictionary, p);
            if let Ok(ready) = flushed_plan(p, sizes) {
                packing_keeps_order(codec, o, sizes, dictionary, ready, chunk, frame, place);
            }
        },
    }
}

/// A frame, and the rest of the member behind it.
pub(crate) proof fn a_frame_and_the_rest(
    p: PackValue,
    next: PackValue,
    q: PackValue,
    feed: Feed,
    place: FramePlace,
    offset: int,
    len: int,
)
    requires
        0 <= offset,
        1 <= len,
        offset + len <= place.member_group_size == feed.bytes.len(),
        next.hashed == p.hashed + feed.bytes.subrange(offset, offset + len),
        next.frames.len() == p.frames.len() + 1,
        next.frames.take(p.frames.len() as int) == p.frames,
        next.frames.last().member_index == place.member_index,
        next.frames.last().flags == frame_flags(
            offset == 0,
            offset + len == place.member_group_size,
        ),
        member_packed(next, q, feed, place, offset + len),
        offset + len == place.member_group_size ==> q.frames.len() == next.frames.len(),
    ensures
        member_packed(p, q, feed, place, offset),
{
    reveal(member_packed);
    let n = p.frames.len();
    let size = place.member_group_size as int;
    assert(q.hashed =~= p.hashed + feed.bytes.subrange(offset, size));
    assert forall|k: int| 0 <= k < next.frames.len() implies q.frames[k] == next.frames[k] by {
        assert(q.frames.take(next.frames.len() as int)[k] == next.frames[k]);
    }
    assert forall|k: int| 0 <= k < n implies q.frames[k] == p.frames[k] by {
        assert(next.frames.take(n as int)[k] == p.frames[k]);
    }
    assert(q.frames.take(n as int) =~= p.frames);
    assert(q.frames[n as int] == next.frames.last());
}

/// The frames of a member keep a payload in order.
#[verifier::rlimit(40)]
#[verifier::spinoff_prover]
pub(crate) proof fn framing_keeps_order<C: ArchiveCodec>(
    codec: &C,
    o: WriterOptions,
    dictionary: Option<Seq<u8>>,
    p: PackValue,
    feed: Feed,
    place: FramePlace,
    offset: int,
)
    requires
        o.block_size > 0,
        o.chunk_size > 0,
        is_packed(codec, o, dictionary, p),
        0 <= offset <= place.member_group_size,
        place.member_start + offset == p.tar_total,
        feed.bytes.len() == place.member_group_size,
    ensures
        framed_member::<C, (), PayloadPacking>(codec, o, p, o, dictionary, feed, place, offset)
            matches Ok(q) ==> {
            &&& is_packed(codec, o, dictionary, q)
            &&& member_packed(p, q, feed, place, offset)
            &&& q.tar_total == place.member_start + place.member_group_size
            &&& offset == place.member_group_size ==> q == p
        },
    decreases place.member_group_size - offset,
{
    let size = place.member_group_size as int;
    if offset >= size {
        reveal(member_packed);
        assert(p.hashed + feed.bytes.subrange(offset, size) =~= p.hashed);
        assert(p.frames.take(p.frames.len() as int) =~= p.frames);
    } else if let Ok(q) = framed_member::<C, (), PayloadPacking>(
        codec,
        o,
        p,
        o,
        dictionary,
        feed,
        place,
        offset,
    ) {
        let n = next_chunk_len(size - offset, o);
        let bytes = feed.reads(offset + n)->Ok_0;
        let rest = bytes.skip(offset);
        chosen_frames_hold_bytes(codec, rest, n, o, dictionary);
        let chosen = next_frame(codec, rest, n, o, dictionary, Framing::Fitting)->Ok_0;
        let chunk = rest.take(chosen.len);
        fitting_frames_are_short(chosen.frame.len() as int, o);
        let here = FramePlace { member_offset: offset as u64, ..place };
        let next = planned_frame(p, chunk, chosen.frame, here, o)->Ok_0;
        frame_keeps_order(codec, o, o, dictionary, p, chunk, chosen.frame, here);
        framing_keeps_order(codec, o, dictionary, next, feed, place, offset + chosen.len);
        assert(chunk =~= feed.bytes.subrange(offset, offset + chosen.len));
        a_frame_and_the_rest(p, next, q, feed, place, offset, chosen.len);
    }
}

/// The tar records that a source contributes: all bytes of its member group.
pub open spec fn group_of<C: ArchiveCodec + MetadataProfile>(
    codec: &C,
    o: WriterOptions,
    run: SourceRun,
) -> Seq<u8> {
    let captured_member = captured(codec, run.described, o.max_path_length)->Ok_0;
    feed_of(prepared(codec, captured_member)->Ok_0.sections, run).bytes
}

/// The tar stream of the first `count` sources.
pub open spec fn joined_groups<C: ArchiveCodec + MetadataProfile>(
    codec: &C,
    o: WriterOptions,
    runs: Seq<SourceRun>,
    count: nat,
) -> Seq<u8>
    decreases count,
{
    if count == 0 {
        Seq::empty()
    } else {
        joined_groups(codec, o, runs, (count - 1) as nat) + group_of(codec, o, runs[count - 1])
    }
}

/// Whether the frames from `first` up to `end` are those of a member: they hold its part of the
/// stream, no other frame is the member's, and the flags mark the first and the last of them.
pub open spec fn spans(
    frames: Seq<PayloadFrame>,
    member: MemberValue,
    index: int,
    first: int,
    end: int,
) -> bool {
    &&& 0 <= first <= end <= frames.len()
    &&& held(frames, first as nat) == member.tar_member_group_start
    &&& held(frames, end as nat) == member.tar_member_group_start + member.tar_member_group_size
    &&& forall|k: int|
        0 <= k < frames.len() ==> ((#[trigger] frames[k]).member_index == index <==> first <= k
            < end)
    &&& forall|k: int|
        first <= k < end ==> (#[trigger] frames[k]).flags == frame_flags(k == first, k == end - 1)
}

/// Whether a member's place in the stream is where its group lies, and its frames are found.
pub open spec fn member_in_place(
    frames: Seq<PayloadFrame>,
    stream: Seq<u8>,
    member: MemberValue,
    index: int,
    group: Seq<u8>,
) -> bool {
    &&& member.tar_member_group_size == group.len()
    &&& member.tar_member_group_start + group.len() <= stream.len()
    &&& stream.subrange(
        member.tar_member_group_start as int,
        member.tar_member_group_start + group.len(),
    ) == group
    &&& exists|first: int, end: int| #[trigger] spans(frames, member, index, first, end)
}

/// Whether the first `count` members are packed and in their places.
#[verifier::opaque]
pub open spec fn members_in_place<C: ArchiveCodec + MetadataProfile>(
    codec: &C,
    o: WriterOptions,
    dictionary: Option<Seq<u8>>,
    runs: Seq<SourceRun>,
    m: MembersValue<PackValue>,
    count: nat,
) -> bool {
    &&& is_packed(codec, o, dictionary, m.state)
    &&& m.members.len() == count
    &&& m.state.hashed == joined_groups(codec, o, runs, count)
    &&& forall|k: int|
        0 <= k < m.state.frames.len() ==> (#[trigger] m.state.frames[k]).member_index < count
    &&& forall|i: int|
        0 <= i < count ==> member_in_place(
            m.state.frames,
            m.state.hashed,
            #[trigger] m.members[i],
            i,
            group_of(codec, o, runs[i]),
        )
}

/// More frames of other members leave a member in its place.
proof fn members_stay_in_place(
    frames: Seq<PayloadFrame>,
    stream: Seq<u8>,
    more: Seq<PayloadFrame>,
    longer: Seq<u8>,
    member: MemberValue,
    index: int,
    group: Seq<u8>,
)
    requires
        member_in_place(frames, stream, member, index, group),
        frames.len() <= more.len(),
        more.take(frames.len() as int) == frames,
        forall|k: int|
            frames.len() <= k < more.len() ==> (#[trigger] more[k]).member_index != index,
        stream.len() <= longer.len(),
        longer.take(stream.len() as int) == stream,
    ensures
        member_in_place(more, longer, member, index, group),
{
    let (first, end) = choose|first: int, end: int| #[trigger]
        spans(frames, member, index, first, end);
    assert forall|k: int| 0 <= k < frames.len() implies more[k] == frames[k] by {
        assert(more.take(frames.len() as int)[k] == frames[k]);
    }
    held_is_local(frames, more, first as nat);
    held_is_local(frames, more, end as nat);
    assert(spans(more, member, index, first, end));
    let start = member.tar_member_group_start as int;
    assert(longer.subrange(start, start + group.len()) =~= group) by {
        assert forall|i: int| 0 <= i < group.len() implies longer[start + i] == group[i] by {
            assert(longer.take(stream.len() as int)[start + i] == stream[start + i]);
            assert(stream.subrange(start, start + group.len())[i] == stream[start + i]);
        }
    }
}

/// One more member, whose frames are packed.
#[verifier::rlimit(40)]
#[verifier::spinoff_prover]
pub(crate) proof fn a_member_takes_its_place<C: ArchiveCodec + MetadataProfile>(
    codec: &C,
    o: WriterOptions,
    dictionary: Option<Seq<u8>>,
    runs: Seq<SourceRun>,
    m: MembersValue<PackValue>,
    count: nat,
    next: MembersValue<PackValue>,
    feed: Feed,
    place: FramePlace,
    member: MemberValue,
)
    requires
        count < runs.len(),
        members_in_place(codec, o, dictionary, runs, m, count),
        feed.bytes == group_of(codec, o, runs[count as int]),
        place.member_index == count,
        place.member_group_size == feed.bytes.len(),
        member.tar_member_group_start == m.state.tar_total,
        member.tar_member_group_size == feed.bytes.len(),
        next.members == m.members.push(member),
        is_packed(codec, o, dictionary, next.state),
        member_packed(m.state, next.state, feed, place, 0),
    ensures
        members_in_place(codec, o, dictionary, runs, next, count + 1),
{
    reveal(members_in_place);
    reveal(member_packed);
    let p = m.state;
    let q = next.state;
    let group = group_of(codec, o, runs[count as int]);
    assert(p.tar_total == p.hashed.len()) by {
        reveal(is_packed);
    }
    assert(feed.bytes.subrange(0, place.member_group_size as int) =~= group);
    assert(q.hashed == p.hashed + group);
    assert(q.hashed =~= joined_groups(codec, o, runs, count + 1));
    assert(q.hashed.take(p.hashed.len() as int) =~= p.hashed);
    assert forall|k: int| 0 <= k < q.frames.len() implies (#[trigger] q.frames[k]).member_index
        < count + 1 by {
        if k < p.frames.len() {
            assert(q.frames.take(p.frames.len() as int)[k] == p.frames[k]);
        }
    }
    assert forall|i: int| 0 <= i < count + 1 implies member_in_place(
        q.frames,
        q.hashed,
        #[trigger] next.members[i],
        i,
        group_of(codec, o, runs[i]),
    ) by {
        if i < count {
            assert(next.members[i] == m.members[i]);
            members_stay_in_place(
                p.frames,
                p.hashed,
                q.frames,
                q.hashed,
                m.members[i],
                i,
                group_of(codec, o, runs[i]),
            );
        } else {
            let n = p.frames.len() as int;
            assert(held(p.frames, p.frames.len()) == p.hashed.len() && held(
                q.frames,
                q.frames.len(),
            ) == q.hashed.len()) by {
                reveal(is_packed);
            }
            assert forall|k: int| 0 <= k < n implies q.frames[k] == p.frames[k] by {
                assert(q.frames.take(n)[k] == p.frames[k]);
            }
            held_is_local(p.frames, q.frames, p.frames.len());
            assert(spans(q.frames, member, i, n, q.frames.len() as int));
            assert(q.hashed.subrange(p.hashed.len() as int, q.hashed.len() as int) =~= group);
        }
    }
}

/// What a source is read for has the length of its group.
pub(crate) proof fn members_feed_their_group<C: ArchiveCodec + MetadataProfile>(
    codec: &C,
    v: PrimaryValue,
    run: SourceRun,
)
    ensures
        prepared(codec, v) matches Ok(prep) ==> feed_of(prep.sections, run).bytes.len()
            == prep.group_size,
{
    if let Ok(prep) = prepared(codec, v) {
        let payload_size = source_payload_size_outcome(
            v.file_size,
            v.sparse_extents,
            codec.extent_limit(),
        )->Ok_0;
        let layout = layout_outcome(codec, v)->Ok_0;
        sections_make_the_group(layout, v, payload_size, answers_of(prep.sections, run));
    }
}

/// One more member.
proof fn a_member_finds_its_place<C: ArchiveCodec + MetadataProfile>(
    codec: &C,
    o: WriterOptions,
    dictionary: Option<Seq<u8>>,
    runs: Seq<SourceRun>,
    m: MembersValue<PackValue>,
    count: nat,
)
    requires
        o.block_size > 0,
        o.chunk_size > 0,
        count < runs.len() <= usize::MAX,
        members_in_place(codec, o, dictionary, runs, m, count),
    ensures
        with_member::<C, (), PayloadPacking>(codec, o, o, dictionary, m, runs[count as int])
            matches Ok(next) ==> members_in_place(
            codec,
            o,
            dictionary,
            runs,
            next,
            count + 1,
        ),
{
    reveal(with_member);
    let run = runs[count as int];
    if let Ok(next) = with_member::<C, (), PayloadPacking>(codec, o, o, dictionary, m, run) {
        let v = captured(codec, run.described, o.max_path_length)->Ok_0;
        let prep = prepared(codec, v)->Ok_0;
        members_feed_their_group(codec, v, run);
        let feed = feed_of(prep.sections, run);
        assert(m.members.len() == count && is_packed(codec, o, dictionary, m.state)) by {
            reveal(members_in_place);
        }
        let place = FramePlace {
            member_index: m.members.len() as usize,
            member_start: m.state.tar_total,
            member_offset: 0,
            member_group_size: prep.group_size,
        };
        framing_keeps_order(codec, o, dictionary, m.state, feed, place, 0);
        let member = next.members.last();
        assert(next.members =~= m.members.push(member));
        a_member_takes_its_place(
            codec,
            o,
            dictionary,
            runs,
            m,
            count,
            next,
            feed,
            place,
            member,
        );
    }
}

proof fn members_find_their_places<C: ArchiveCodec + MetadataProfile>(
    codec: &C,
    o: WriterOptions,
    dictionary: Option<Seq<u8>>,
    runs: Seq<SourceRun>,
    count: nat,
)
    requires
        o.block_size > 0,
        o.chunk_size > 0,
        count <= runs.len() <= usize::MAX,
    ensures
        with_members::<C, (), PayloadPacking>(
            codec,
            o,
            o,
            dictionary,
            (MembersValue { members: Seq::empty(), state: nothing_packed(0) }),
            runs,
            count,
        ) matches Ok(m) ==> members_in_place(codec, o, dictionary, runs, m, count),
    decreases count,
{
    let first = MembersValue::<PackValue> { members: Seq::empty(), state: nothing_packed(0) };
    if count == 0 {
        reveal(is_packed);
        reveal(members_in_place);
        assert(first.state.plaintext =~= Seq::empty());
    } else {
        members_find_their_places(codec, o, dictionary, runs, (count - 1) as nat);
        if let Ok(m) = with_members::<C, (), PayloadPacking>(
            codec,
            o,
            o,
            dictionary,
            first,
            runs,
            (count - 1) as nat,
        ) {
            a_member_finds_its_place(codec, o, dictionary, runs, m, (count - 1) as nat);
        }
    }
}

/// Whether every frame that is not empty lies in an envelope that has its blocks.
pub open spec fn frames_are_closed(
    frames: Seq<PayloadFrame>,
    objects: Seq<PayloadObject>,
) -> bool {
    forall|k: int|
        0 <= k < frames.len() && (#[trigger] frames[k]).compressed_size > 0
            ==> frames[k].envelope_index < objects.len()
}

proof fn filled_covers(frames: Seq<PayloadFrame>, count: nat, envelope: int, k: int)
    requires
        0 <= k < count <= frames.len(),
        frames[k].envelope_index == envelope,
    ensures
        filled(frames, count, envelope) >= frames[k].compressed_size,
        filled(frames, (count - 1) as nat, envelope) >= 0,
    decreases count,
{
    filled_is_not_negative(frames, (count - 1) as nat, envelope);
    if k < count - 1 {
        filled_covers(frames, (count - 1) as nat, envelope, k);
    }
}

proof fn filled_is_not_negative(frames: Seq<PayloadFrame>, count: nat, envelope: int)
    ensures
        filled(frames, count, envelope) >= 0,
    decreases count,
{
    if count > 0 {
        filled_is_not_negative(frames, (count - 1) as nat, envelope);
    }
}

/// What is in order of a payload whose last envelope is closed.
pub(crate) proof fn a_closed_payload_is_in_order<C: ArchiveCodec>(
    codec: &C,
    o: WriterOptions,
    dictionary: Option<Seq<u8>>,
    p: PackValue,
)
    requires
        is_packed(codec, o, dictionary, p),
        p.plaintext.len() == 0,
    ensures
        p.tar_total == p.hashed.len(),
        frames_follow(p.frames),
        frames_hold(codec, o, dictionary, p.frames, p.hashed),
        envelopes_follow(p.objects, p.frames),
        p.next_block == taken(p.objects, p.objects.len()),
        p.block_count == data_taken(p.objects, p.objects.len()),
        frames_are_closed(p.frames, p.objects),
{
    reveal(is_packed);
    let e = p.envelope_index as int;
    envelope_bytes_fill(codec, o, dictionary, p.hashed, p.frames, p.frames.len(), e);
    assert forall|k: int|
        0 <= k < p.frames.len() && (#[trigger] p.frames[k]).compressed_size
            > 0 implies p.frames[k].envelope_index < p.objects.len() by {
        if p.frames[k].envelope_index == e {
            filled_covers(p.frames, p.frames.len(), e, k);
        }
    }
}

/// A planned payload is the tar stream of its sources, and every member is found in it again. The
/// frames follow one another through the stream and through their envelopes, each is its part of
/// the stream, compressed, and the envelopes follow one another through the blocks. Every member
/// lies where it is said to lie and has consecutive frames of its own.
#[verifier::rlimit(40)]
#[verifier::spinoff_prover]
pub proof fn members_are_found_again<C: ArchiveCodec + MetadataProfile>(
    codec: &C,
    o: WriterOptions,
    dictionary: Option<Seq<u8>>,
    runs: Seq<SourceRun>,
)
    requires
        o.block_size > 0,
        o.chunk_size > 0,
        runs.len() <= usize::MAX,
    ensures
        payload_outcome(codec, runs, o, dictionary) matches Ok(planned) ==> {
            let payload = planned.payload;
            let stream = joined_groups(codec, o, runs, runs.len());
            &&& payload.tar_total == stream.len()
            &&& payload.content_sha256 == sha256(stream)
            &&& frames_follow(payload.frames)
            &&& frames_hold(codec, o, dictionary, payload.frames, stream)
            &&& envelopes_follow(payload.objects, payload.frames)
            &&& planned.next == taken(payload.objects, payload.objects.len())
            &&& payload.block_count == data_taken(payload.objects, payload.objects.len())
            &&& frames_are_closed(payload.frames, payload.objects)
            &&& payload.members.len() == runs.len()
            &&& forall|i: int|
                0 <= i < runs.len() ==> member_in_place(
                    payload.frames,
                    stream,
                    #[trigger] payload.members[i],
                    i,
                    group_of(codec, o, runs[i]),
                )
        },
{
    members_find_their_places(codec, o, dictionary, runs, runs.len());
    let first = MembersValue::<PackValue> { members: Seq::empty(), state: nothing_packed(0) };
    if let Ok(m) = with_members::<C, (), PayloadPacking>(
        codec,
        o,
        o,
        dictionary,
        first,
        runs,
        runs.len(),
    ) {
        assert(is_packed(codec, o, dictionary, m.state)) by {
            reveal(members_in_place);
        }
        if m.state.plaintext.len() == 0 {
            a_closed_payload_is_in_order(codec, o, dictionary, m.state);
        } else {
            closing_keeps_order(codec, o, o, dictionary, m.state);
            if let Ok(q) = flushed_plan(m.state, o) {
                assert(q.plaintext.len() == 0);
                a_closed_payload_is_in_order(codec, o, dictionary, q);
            }
        }
        reveal(members_in_place);
    }
}

/// The index entry of a member names its frames: the number of the first of them, and how many
/// they are.
pub proof fn index_entries_name_their_frames(
    frames: Seq<PayloadFrame>,
    member: MemberValue,
    index: usize,
    first: int,
    end: int,
)
    requires
        frames_follow(frames),
        spans(frames, member, index as int, first, end),
    ensures
        frames_of_member(frames, index) == frames.subrange(first, end),
        first < end && end - first <= u32::MAX ==> member_range(frames, index) == Ok::<
            (u64, u32),
            FormatError,
        >((first as u64, (end - first) as u32)),
{
    let keep = |f: PayloadFrame| f.member_index == index;
    a_run_is_kept(frames, keep, first, end);
    assert(frames_of_member(frames, index) =~= frames.subrange(first, end));
}

/// What a filter keeps of a list, where that is one run of it.
proof fn a_run_is_kept(
    s: Seq<PayloadFrame>,
    keep: spec_fn(PayloadFrame) -> bool,
    first: int,
    end: int,
)
    requires
        0 <= first <= end <= s.len(),
        forall|k: int| 0 <= k < s.len() ==> (keep(#[trigger] s[k]) <==> first <= k < end),
    ensures
        s.filter(keep) == s.subrange(first, end),
    decreases s.len(),
{
    reveal(Seq::filter);
    if s.len() == 0 {
        assert(s.filter(keep) =~= s.subrange(first, end));
    } else {
        let rest = s.drop_last();
        let n = rest.len() as int;
        if end == s.len() && first < end {
            a_run_is_kept(rest, keep, first, n);
            assert(keep(s[n]));
            assert(s.filter(keep) =~= s.subrange(first, end));
        } else if end == s.len() {
            assert forall|k: int| 0 <= k < rest.len() implies (keep(#[trigger] rest[k]) <==> n <= k
                < n) by {
                assert(rest[k] == s[k]);
            }
            a_run_is_kept(rest, keep, n, n);
            assert(!keep(s[n]));
            assert(s.filter(keep) =~= s.subrange(first, end));
        } else {
            a_run_is_kept(rest, keep, first, end);
            assert(!keep(s[n]));
            assert(s.filter(keep) =~= s.subrange(first, end));
        }
    }
}

} // verus!
