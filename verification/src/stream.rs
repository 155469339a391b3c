//! The members of one file as a stream of bytes.
use crate::arith::{padding_to_512_u64, tar_padding};
use crate::bytes::{append, to_bytes, zero_vec, zeros};
use crate::digest::{absorbed, hasher_finalize, hasher_new, hasher_update, sha256};
use crate::errors::{FormatError, IoError};
use crate::member::{source_payload_size_outcome, LayoutValue, PrimaryMemberLayout};
use crate::metadata::{same_digest, NativeAuxiliaryMetadata, PortableFileMetadata, PortableValue};
use crate::openings::{nothing_is_opened, openings_add_up, repeated};
use crate::profile::MetadataProfile;
use crate::progress::{
    phases_of, reports, reports_ignore_openings, reports_join, reports_of_nothing,
    ArchiveWriteProgressSink, SourceProgressState,
};
use crate::source::{may_run, opening_failure, Answer, RegularFileSource, SourceReader, SourceRun};
use crate::sparse::SparseExtent;
use vstd::prelude::*;

verus! {

// ---------------------------------------------------------------------------------------------
// Feeds
// ---------------------------------------------------------------------------------------------

/// A stream of bytes that may break off: bytes past the place of `stop` cannot be had.
pub struct Feed {
    pub bytes: Seq<u8>,
    pub stop: Option<(int, IoError)>,
}

impl Feed {
    /// The first `n` bytes, or why they cannot be had.
    pub open spec fn reads(self, n: int) -> Result<Seq<u8>, IoError> {
        match self.stop {
            Some((at, e)) if n > at => Err(e),
            _ => Ok(self.bytes.take(n)),
        }
    }

    /// Whether the stream begins with `start`.
    pub open spec fn begins_with(self, start: Seq<u8>) -> bool {
        &&& start.len() <= self.bytes.len()
        &&& self.bytes.take(start.len() as int) == start
        &&& self.stop matches Some((at, _)) ==> start.len() <= at
    }

    /// One stream behind another.
    pub open spec fn then_feed(self, next: Feed) -> Feed {
        Feed {
            bytes: self.bytes + next.bytes,
            stop: match self.stop {
                Some(stop) => Some(stop),
                None => match next.stop {
                    Some((at, e)) => Some((self.bytes.len() + at, e)),
                    None => None,
                },
            },
        }
    }
}

/// Where the bytes of a section come from.
#[derive(Debug, Clone)]
pub enum SectionOrigin {
    Bytes(Vec<u8>),
    Auxiliary(usize),
    Primary,
}

/// The same by content.
pub enum OriginValue {
    Bytes(Seq<u8>),
    Auxiliary(int),
    Primary,
}

impl View for SectionOrigin {
    type V = OriginValue;

    open spec fn view(&self) -> OriginValue {
        match *self {
            SectionOrigin::Bytes(b) => OriginValue::Bytes(b@),
            SectionOrigin::Auxiliary(k) => OriginValue::Auxiliary(k as int),
            SectionOrigin::Primary => OriginValue::Primary,
        }
    }
}

/// A part of the stream: a number of bytes, and zeros behind them. The digest of the bytes is
/// checked where one is expected.
#[derive(Debug, Clone)]
pub struct StreamingMemberSection {
    pub origin: SectionOrigin,
    pub size: u64,
    pub padding: u64,
    pub expected_sha256: Option<[u8; 32]>,
}

/// The same by content.
pub struct SectionValue {
    pub origin: OriginValue,
    pub size: u64,
    pub padding: u64,
    pub expected_sha256: Option<[u8; 32]>,
}

impl View for StreamingMemberSection {
    type V = SectionValue;

    open spec fn view(&self) -> SectionValue {
        SectionValue {
            origin: self.origin@,
            size: self.size,
            padding: self.padding,
            expected_sha256: self.expected_sha256,
        }
    }
}

pub open spec fn section_values(sections: Seq<StreamingMemberSection>) -> Seq<SectionValue> {
    Seq::new(sections.len(), |i: int| sections[i]@)
}

/// The failure of a source that is too short.
pub open spec fn short_source() -> IoError {
    IoError::UnexpectedEof("member source ended before its declared size")
}

/// The failure of a source that is too long.
pub open spec fn long_source() -> IoError {
    IoError::InvalidData("member source exceeded its declared size")
}

/// The failure of an auxiliary source whose digest is not the declared one.
pub open spec fn changed_source() -> IoError {
    IoError::InvalidData("auxiliary source changed after metadata capture")
}

/// Why the stream breaks off in a section, and after how many bytes of it.
pub open spec fn section_stop(s: SectionValue, a: Answer) -> Option<(int, IoError)> {
    if a.data.len() < s.size {
        Some(
            (
                a.data.len() as int,
                match a.failure {
                    Some(e) => e,
                    None => short_source(),
                },
            ),
        )
    } else if a.data.len() > s.size {
        Some((s.size as int, long_source()))
    } else {
        match a.failure {
            Some(e) => Some((s.size as int, e)),
            None => match s.expected_sha256 {
                Some(expected) => if sha256(a.data) == expected {
                    None
                } else {
                    Some((s.size as int, changed_source()))
                },
                None => None,
            },
        }
    }
}

/// The bytes of a section that its source answers with `a`.
pub open spec fn section_feed(s: SectionValue, a: Answer) -> Feed {
    Feed {
        bytes: Seq::new(
            (s.size + s.padding) as nat,
            |i: int|
                if i < s.size && i < a.data.len() {
                    a.data[i]
                } else {
                    0u8
                },
        ),
        stop: section_stop(s, a),
    }
}

/// The first `count` sections, one behind the other.
pub open spec fn joined_feed(sections: Seq<SectionValue>, answers: Seq<Answer>, count: nat) -> Feed
    decreases count,
{
    if count == 0 {
        Feed { bytes: Seq::empty(), stop: None }
    } else {
        joined_feed(sections, answers, (count - 1) as nat).then_feed(
            section_feed(sections[count - 1], answers[count - 1]),
        )
    }
}

proof fn joined_feed_is_local(
    sections: Seq<SectionValue>,
    a: Seq<Answer>,
    b: Seq<Answer>,
    count: nat,
)
    requires
        forall|i: int| 0 <= i < count ==> a[i] == b[i],
    ensures
        joined_feed(sections, a, count) == joined_feed(sections, b, count),
    decreases count,
{
    if count > 0 {
        joined_feed_is_local(sections, a, b, (count - 1) as nat);
    }
}

proof fn joined_feed_grows(sections: Seq<SectionValue>, answers: Seq<Answer>, count: nat, total: nat)
    requires
        count <= total,
    ensures
        ({
            let f = joined_feed(sections, answers, count);
            let g = joined_feed(sections, answers, total);
            &&& f.bytes.len() <= g.bytes.len()
            &&& g.bytes.take(f.bytes.len() as int) == f.bytes
            &&& f.stop is Some ==> g.stop == f.stop
            &&& f.stop is None ==> (g.stop matches Some((at, _)) ==> f.bytes.len() <= at)
        }),
    decreases total,
{
    let f = joined_feed(sections, answers, count);
    let g = joined_feed(sections, answers, total);
    if count == total {
        assert(g.bytes.take(f.bytes.len() as int) =~= f.bytes);
    } else {
        joined_feed_grows(sections, answers, count, (total - 1) as nat);
        let h = joined_feed(sections, answers, (total - 1) as nat);
        assert(g.bytes.take(f.bytes.len() as int) =~= h.bytes.take(f.bytes.len() as int));
    }
}

proof fn joined_feed_len(
    sections: Seq<SectionValue>,
    a: Seq<Answer>,
    b: Seq<Answer>,
    count: nat,
)
    ensures
        joined_feed(sections, a, count).bytes.len() == joined_feed(sections, b, count).bytes.len(),
    decreases count,
{
    if count > 0 {
        joined_feed_len(sections, a, b, (count - 1) as nat);
    }
}

// ---------------------------------------------------------------------------------------------
// The sections of a file
// ---------------------------------------------------------------------------------------------

/// The sections of a file: each auxiliary header and its payload, then the primary header and the
/// data.
pub open spec fn sections_of(
    layout: LayoutValue,
    metadata: PortableValue,
    primary_size: u64,
) -> Seq<SectionValue> {
    let n = layout.auxiliary.len() as int;
    Seq::new(
        (2 * n + 2) as nat,
        |i: int|
            if i == 2 * n {
                fixed_section(layout.primary)
            } else if i == 2 * n + 1 {
                payload_section(OriginValue::Primary, primary_size, None)
            } else if i % 2 == 0 {
                fixed_section(layout.auxiliary[i / 2].bytes)
            } else {
                auxiliary_section(layout, metadata, i / 2)
            },
    )
}

pub open spec fn fixed_section(bytes: Seq<u8>) -> SectionValue {
    SectionValue {
        origin: OriginValue::Bytes(bytes),
        size: bytes.len() as u64,
        padding: 0,
        expected_sha256: None,
    }
}

/// A payload, filled up to whole records.
pub open spec fn payload_section(
    origin: OriginValue,
    size: u64,
    expected_sha256: Option<[u8; 32]>,
) -> SectionValue {
    SectionValue { origin, size, padding: tar_padding(size as int) as u64, expected_sha256 }
}

/// The payload section of an auxiliary member.
pub open spec fn auxiliary_section(
    layout: LayoutValue,
    metadata: PortableValue,
    ordinal: int,
) -> SectionValue {
    let member = layout.auxiliary[ordinal];
    let record = metadata.native.auxiliary_records[ordinal];
    payload_section(
        if record.streamed_payload is Some {
            OriginValue::Auxiliary(ordinal)
        } else {
            OriginValue::Bytes(record.payload)
        },
        member.stored_size,
        Some(member.sha256),
    )
}

/// What each section is answered with.
pub open spec fn answers_of(sections: Seq<SectionValue>, run: SourceRun) -> Seq<Answer> {
    Seq::new(
        sections.len(),
        |i: int|
            match sections[i].origin {
                OriginValue::Bytes(bytes) => Answer::whole(bytes),
                OriginValue::Auxiliary(k) => (run.auxiliary)(k),
                OriginValue::Primary => run.primary,
            },
    )
}

/// The stream of a file.
pub open spec fn feed_of(sections: Seq<SectionValue>, run: SourceRun) -> Feed {
    joined_feed(sections, answers_of(sections, run), sections.len())
}

/// Why the layout does not belong to the metadata: the first of its auxiliary members that has no
/// record, or one of another size.
pub open spec fn section_refusal(layout: LayoutValue, metadata: PortableValue, count: nat) -> Option<
    FormatError,
>
    decreases count,
{
    if count == 0 {
        None
    } else {
        match section_refusal(layout, metadata, (count - 1) as nat) {
            Some(e) => Some(e),
            None => if count > metadata.native.auxiliary_records.len() {
                Some(
                    FormatError::WriterInvariant("planned auxiliary source ordinal is missing"),
                )
            } else if metadata.native.auxiliary_records[count - 1].stored_size()
                != layout.auxiliary[count - 1].stored_size {
                Some(
                    FormatError::WriterInvariant(
                        "auxiliary source declaration changed while opening",
                    ),
                )
            } else {
                None
            },
        }
    }
}

proof fn first_section_refusal_stays(
    layout: LayoutValue,
    metadata: PortableValue,
    count: nat,
    total: nat,
)
    requires
        count <= total,
        section_refusal(layout, metadata, count) is Some,
    ensures
        section_refusal(layout, metadata, total) == section_refusal(layout, metadata, count),
    decreases total,
{
    if count < total {
        first_section_refusal_stays(layout, metadata, count, (total - 1) as nat);
    }
}

impl StreamingMemberSection {
    /// Bytes that are at hand, and nothing behind them.
    pub fn bytes(bytes: Vec<u8>) -> (r: StreamingMemberSection)
        ensures
            r@ == fixed_section(bytes@),
    {
        let size: u64 = bytes.len() as u64;
        StreamingMemberSection {
            origin: SectionOrigin::Bytes(bytes),
            size,
            padding: 0,
            expected_sha256: None,
        }
    }

    /// A payload that is at hand, filled up to whole records.
    pub fn payload(bytes: Vec<u8>, size: u64, expected_sha256: Option<[u8; 32]>) -> (r:
        StreamingMemberSection)
        ensures
            r@ == payload_section(OriginValue::Bytes(bytes@), size, expected_sha256),
    {
        StreamingMemberSection {
            origin: SectionOrigin::Bytes(bytes),
            size,
            padding: padding_to_512_u64(size),
            expected_sha256,
        }
    }

    /// A payload that is opened when its turn comes, filled up to whole records.
    pub fn deferred_payload(
        origin: SectionOrigin,
        size: u64,
        expected_sha256: Option<[u8; 32]>,
    ) -> (r: StreamingMemberSection)
        ensures
            r@ == payload_section(origin@, size, expected_sha256),
    {
        StreamingMemberSection {
            origin,
            size,
            padding: padding_to_512_u64(size),
            expected_sha256,
        }
    }
}

/// Lays out the sections of a file.
#[verifier::loop_isolation(false)]
fn member_sections(
    layout: &PrimaryMemberLayout,
    metadata: &PortableFileMetadata,
    primary_size: u64,
) -> (r: Result<Vec<StreamingMemberSection>, FormatError>)
    ensures
        match section_refusal(layout@, metadata@, layout@.auxiliary.len()) {
            Some(e) => r == Err::<Vec<StreamingMemberSection>, FormatError>(e),
            None => r matches Ok(sections) && section_values(sections@) == sections_of(
                layout@,
                metadata@,
                primary_size,
            ),
        },
{
    let ghost expected = sections_of(layout@, metadata@, primary_size);
    let mut sections: Vec<StreamingMemberSection> = Vec::new();
    let mut ordinal: usize = 0;
    while ordinal < layout.auxiliary.len()
        invariant
            ordinal <= layout.auxiliary@.len(),
            sections@.len() == 2 * ordinal,
            section_refusal(layout@, metadata@, ordinal as nat) is None,
            forall|i: int| 0 <= i < 2 * ordinal ==> (#[trigger] sections@[i])@ == expected[i],
        decreases layout.auxiliary.len() - ordinal,
    {
        let ghost before = sections@;
        assert(layout@.auxiliary[ordinal as int] == layout.auxiliary@[ordinal as int]@);
        proof {
            if section_refusal(layout@, metadata@, (ordinal + 1) as nat) is Some {
                first_section_refusal_stays(
                    layout@,
                    metadata@,
                    (ordinal + 1) as nat,
                    layout@.auxiliary.len(),
                );
            }
        }
        sections.push(
            StreamingMemberSection::bytes(to_bytes(layout.auxiliary[ordinal].bytes.as_slice())),
        );
        if ordinal >= metadata.native.auxiliary_records.len() {
            return Err(
                FormatError::WriterInvariant("planned auxiliary source ordinal is missing"),
            );
        }
        let record: &NativeAuxiliaryMetadata = &metadata.native.auxiliary_records[ordinal];
        assert(metadata@.native.auxiliary_records[ordinal as int] == record@);
        let size: u64 = layout.auxiliary[ordinal].stored_size;
        let sha256: Option<[u8; 32]> = Some(layout.auxiliary[ordinal].sha256);
        sections.push(
            if record.is_streamed() {
                StreamingMemberSection::deferred_payload(
                    SectionOrigin::Auxiliary(ordinal),
                    size,
                    sha256,
                )
            } else {
                StreamingMemberSection::payload(
                    to_bytes(record.payload.as_slice()),
                    size,
                    sha256,
                )
            },
        );
        if record.stored_payload_size() != size {
            return Err(
                FormatError::WriterInvariant("auxiliary source declaration changed while opening"),
            );
        }
        proof {
            let i = 2 * ordinal as int;
            assert(i / 2 == ordinal && i % 2 == 0 && (i + 1) / 2 == ordinal && (i + 1) % 2 == 1);
            assert(sections@[i]@ == expected[i]);
            assert(sections@[i + 1]@ == expected[i + 1]);
            assert forall|k: int| 0 <= k < 2 * ordinal implies (#[trigger] sections@[k])@
                == expected[k] by {
                assert(sections@[k] == before[k]);
            }
        }
        ordinal = ordinal + 1;
    }
    let ghost before = sections@;
    sections.push(StreamingMemberSection::bytes(to_bytes(layout.primary.as_slice())));
    sections.push(
        StreamingMemberSection::deferred_payload(SectionOrigin::Primary, primary_size, None),
    );
    proof {
        assert forall|k: int| 0 <= k < before.len() implies (#[trigger] sections@[k])@
            == expected[k] by {
            assert(sections@[k] == before[k]);
        }
        assert(section_values(sections@) =~= expected);
    }
    Ok(sections)
}

// ---------------------------------------------------------------------------------------------
// Reading
// ---------------------------------------------------------------------------------------------

/// Bytes that the sources of a file hand over at most: its data and its streamed payloads.
pub open spec fn declared_source_bytes(
    file_data_size: u64,
    metadata: PortableValue,
    count: nat,
) -> int
    decreases count,
{
    if count == 0 {
        file_data_size as int
    } else {
        let before = declared_source_bytes(file_data_size, metadata, (count - 1) as nat);
        let record = metadata.native.auxiliary_records[count - 1];
        if record.streamed_payload is Some {
            if before + record.stored_size() > u64::MAX {
                u64::MAX as int
            } else {
                before + record.stored_size()
            }
        } else {
            before
        }
    }
}

/// Bytes that a file has in its source: its data, and what its metadata streams. More than fit in
/// a counter count as its largest value.
pub open spec fn source_total<C: MetadataProfile>(
    codec: &C,
    file_data_size: u64,
    sparse_extents: Option<Seq<SparseExtent>>,
    metadata: PortableValue,
) -> int {
    match source_payload_size_outcome(file_data_size, sparse_extents, codec.extent_limit()) {
        Ok(size) => declared_source_bytes(
            size,
            metadata,
            metadata.native.auxiliary_records.len(),
        ),
        Err(_) => 0,
    }
}

pub proof fn declared_source_bytes_grow(
    size: u64,
    file_data_size: u64,
    metadata: PortableValue,
    count: nat,
)
    requires
        size <= file_data_size,
        count <= metadata.native.auxiliary_records.len(),
    ensures
        declared_source_bytes(size, metadata, count) <= declared_source_bytes(
            file_data_size,
            metadata,
            count,
        ) <= u64::MAX,
    decreases count,
{
    if count > 0 {
        declared_source_bytes_grow(size, file_data_size, metadata, (count - 1) as nat);
    }
}

/// The most that progress reports of a file.
pub fn source_byte_limit(file_data_size: u64, metadata: &PortableFileMetadata) -> (r: u64)
    ensures
        r == declared_source_bytes(
            file_data_size,
            metadata@,
            metadata@.native.auxiliary_records.len(),
        ),
{
    let mut total: u64 = file_data_size;
    let mut i: usize = 0;
    while i < metadata.native.auxiliary_records.len()
        invariant
            i <= metadata.native.auxiliary_records@.len(),
            total == declared_source_bytes(file_data_size, metadata@, i as nat),
        decreases metadata.native.auxiliary_records.len() - i,
    {
        let record: &NativeAuxiliaryMetadata = &metadata.native.auxiliary_records[i];
        assert(metadata@.native.auxiliary_records[i as int] == record@);
        if record.is_streamed() {
            total = total.saturating_add(record.stored_payload_size());
        }
        i = i + 1;
    }
    total
}

/// Reads the stream of a file. Bytes that were read too far ahead can be put back.
pub struct StreamingMemberReader<'a, S: RegularFileSource> {
    pub source: &'a S,
    pub source_bytes: u64,
    pub sections: Vec<StreamingMemberSection>,
    pub section_index: usize,
    pub served: u64,
    pub padded: u64,
    pub reader: Option<Box<dyn SourceReader + 'a>>,
    pub hasher: sha2::Sha256,
    pub source_eof_checked: bool,
    pub pushback: Vec<u8>,
    /// The most bytes that are asked of the source at once.
    pub chunk_size: usize,
    pub answers: Ghost<Seq<Answer>>,
    pub delivered: Ghost<Seq<u8>>,
    pub drawn: Ghost<int>,
    /// How often the source was opened.
    pub opened: Ghost<int>,
}

/// How many of the first `count` sections are drawn from sources.
pub open spec fn openings(sections: Seq<SectionValue>, count: nat) -> int
    decreases count,
{
    if count == 0 {
        0
    } else {
        openings(sections, (count - 1) as nat) + if sections[count - 1].origin is Bytes {
            0int
        } else {
            1
        }
    }
}

proof fn openings_grow(sections: Seq<SectionValue>, count: nat, total: nat)
    requires
        count <= total,
    ensures
        openings(sections, count) <= openings(sections, total),
    decreases total,
{
    if count < total {
        openings_grow(sections, count, (total - 1) as nat);
    }
}

/// Bytes of the first `count` sections that are drawn from sources.
pub open spec fn drawn_size(sections: Seq<SectionValue>, count: nat) -> int
    decreases count,
{
    if count == 0 {
        0
    } else {
        drawn_size(sections, (count - 1) as nat) + if sections[count - 1].origin is Bytes {
            0
        } else {
            sections[count - 1].size as int
        }
    }
}

/// The sections of a file draw what the file has in its source.
pub proof fn sections_draw_the_source(
    layout: LayoutValue,
    metadata: PortableValue,
    primary_size: u64,
    count: nat,
)
    requires
        count <= layout.auxiliary.len(),
        layout.auxiliary.len() == metadata.native.auxiliary_records.len(),
        section_refusal(layout, metadata, layout.auxiliary.len()) is None,
        primary_size + drawn_size(sections_of(layout, metadata, primary_size), 2 * count)
            <= u64::MAX,
    ensures
        declared_source_bytes(primary_size, metadata, count) == primary_size + drawn_size(
            sections_of(layout, metadata, primary_size),
            2 * count,
        ),
    decreases count,
{
    if count > 0 {
        let sections = sections_of(layout, metadata, primary_size);
        let k = 2 * (count - 1);
        assert(k % 2 == 0 && k / 2 == count - 1 && (k + 1) % 2 == 1 && (k + 1) / 2 == count - 1);
        assert(sections[k] == fixed_section(layout.auxiliary[count - 1].bytes));
        assert(sections[k + 1] == auxiliary_section(layout, metadata, count - 1));
        reveal_with_fuel(drawn_size, 3);
        if section_refusal(layout, metadata, count) is Some {
            first_section_refusal_stays(layout, metadata, count, layout.auxiliary.len());
        }
        sections_draw_the_source(layout, metadata, primary_size, (count - 1) as nat);
    }
}

proof fn inline_records_open_nothing(
    layout: LayoutValue,
    metadata: PortableValue,
    size: u64,
    count: nat,
)
    requires
        count <= layout.auxiliary.len(),
        forall|i: int|
            0 <= i < layout.auxiliary.len() ==> (
            #[trigger] metadata.native.auxiliary_records[i]).streamed_payload is None,
    ensures
        openings(sections_of(layout, metadata, size), 2 * count) == 0,
    decreases count,
{
    let sections = sections_of(layout, metadata, size);
    if count > 0 {
        inline_records_open_nothing(layout, metadata, size, (count - 1) as nat);
        let k = count - 1;
        assert(2 * count - 1 == 2 * k + 1 && (2 * k + 1) / 2 == k && (2 * k) / 2 == k);
        assert(metadata.native.auxiliary_records[k].streamed_payload is None);
        assert(sections[2 * k + 1].origin is Bytes);
        assert(sections[2 * k].origin is Bytes);
        assert(openings(sections, (2 * count - 1) as nat) == openings(sections, (2 * k) as nat));
    }
}

/// A stream without streamed metadata opens its source once.
pub proof fn plain_streams_open_once(layout: LayoutValue, metadata: PortableValue, size: u64)
    requires
        forall|i: int|
            0 <= i < layout.auxiliary.len() ==> (
            #[trigger] metadata.native.auxiliary_records[i]).streamed_payload is None,
    ensures
        ({
            let sections = sections_of(layout, metadata, size);
            openings(sections, sections.len()) == 1
        }),
{
    let sections = sections_of(layout, metadata, size);
    let n = layout.auxiliary.len();
    inline_records_open_nothing(layout, metadata, size, n);
    assert(sections[(2 * n + 1) as int].origin is Primary);
    assert(sections[(2 * n) as int].origin is Bytes);
    assert(openings(sections, (2 * n + 1) as nat) == openings(sections, 2 * n));
}

/// What is drawn from sources is part of the stream.
pub proof fn drawn_bytes_are_read(sections: Seq<SectionValue>, answers: Seq<Answer>, count: nat, total: nat)
    requires
        count <= total,
    ensures
        0 <= drawn_size(sections, total) - drawn_size(sections, count) <= joined_feed(
            sections,
            answers,
            total,
        ).bytes.len() - joined_feed(sections, answers, count).bytes.len(),
    decreases total,
{
    if count < total {
        drawn_bytes_are_read(sections, answers, count, (total - 1) as nat);
    }
}

/// Whether a section can have been answered with `a`.
pub open spec fn may_answer<S: RegularFileSource>(
    source: &S,
    origin: OriginValue,
    a: Answer,
) -> bool {
    match origin {
        OriginValue::Bytes(bytes) => a == Answer::whole(bytes),
        OriginValue::Auxiliary(k) => source.steady() ==> a == (source.run().auxiliary)(k),
        OriginValue::Primary => source.steady() ==> a == source.run().primary,
    }
}

/// Whether what a section is answered with is known beforehand.
pub open spec fn is_pinned<S: RegularFileSource>(source: &S, origin: OriginValue) -> bool {
    origin is Bytes || source.steady()
}

impl<'a, S: RegularFileSource> StreamingMemberReader<'a, S> {
    pub open spec fn values(&self) -> Seq<SectionValue> {
        section_values(self.sections@)
    }

    /// The sections before the one that is being read.
    pub open spec fn before(&self) -> Feed {
        joined_feed(self.values(), self.answers@, self.section_index as nat)
    }

    /// The section that is being read.
    pub open spec fn here(&self) -> Feed {
        section_feed(
            self.values()[self.section_index as int],
            self.answers@[self.section_index as int],
        )
    }

    /// The whole stream, as far as it is known.
    pub open spec fn feed(&self) -> Feed {
        joined_feed(self.values(), self.answers@, self.sections@.len())
    }

    /// All that was read, put back or not.
    pub open spec fn gross(&self) -> Seq<u8> {
        self.delivered@
    }

    /// Bytes that were read and not put back.
    pub open spec fn taken(&self) -> int {
        self.delivered@.len() - self.pushback@.len()
    }

    /// Bytes that were drawn from sources as far as the stream was read.
    pub open spec fn source_read(&self) -> int {
        drawn_size(self.values(), self.section_index as nat) + if self.section_index
            < self.sections@.len() && !(self.sections@[self.section_index as int]@.origin is Bytes) {
            self.served as int
        } else {
            0
        }
    }

    /// Whether no request is larger than the source takes.
    pub open spec fn asks_within(&self) -> bool {
        &&& 0 < self.chunk_size <= self.source.most()
        &&& self.reader matches Some(reader) ==> reader.most() >= self.chunk_size
    }

    /// How often the source was opened as far as the stream was read: once for each section that
    /// was begun.
    pub open spec fn source_opened(&self) -> int {
        openings(self.values(), self.section_index as nat) + if self.section_index
            < self.sections@.len() && !(self.sections@[self.section_index as int]@.origin is Bytes)
            && (self.reader is Some || self.source_eof_checked) {
            1int
        } else {
            0
        }
    }

    /// Whether the answers are possible.
    pub open spec fn answers_allowed(&self) -> bool {
        &&& self.answers@.len() == self.sections@.len()
        &&& forall|i: int|
            0 <= i < self.sections@.len() ==> may_answer(
                self.source,
                (#[trigger] self.sections@[i])@.origin,
                self.answers@[i],
            )
    }

    /// Whether the source of the section that is being read stands where it was left.
    pub open spec fn source_in_place(&self) -> bool {
        let i = self.section_index as int;
        self.sections@[i]@.origin is Bytes || match self.reader {
            Some(reader) => self.source.steady() ==> reader.steady() && reader.answer()
                == self.answers@[i].after(self.served as int),
            None => self.served == 0,
        }
    }

    /// Whether the section that is being read agrees with what was read of it.
    pub open spec fn section_in_place(&self) -> bool {
        let i = self.section_index as int;
        let section = self.sections@[i]@;
        let read = self.delivered@.skip(self.before().bytes.len() as int);
        &&& self.served <= section.size
        &&& self.padded <= section.padding
        &&& self.delivered@.len() == self.before().bytes.len() + self.served + self.padded
        &&& self.source_eof_checked ==> self.served == section.size && self.here().stop is None
        &&& !self.source_eof_checked ==> {
            &&& self.padded == 0
            &&& self.served <= self.answers@[i].data.len()
            &&& section.expected_sha256 is Some ==> absorbed(self.hasher) == read
            &&& self.source_in_place()
        }
    }

    /// Whether the stream agrees with what was read.
    pub open spec fn placed(&self) -> bool {
        &&& self.section_index <= self.sections@.len()
        &&& self.before().stop is None
        &&& self.before().bytes.len() <= self.delivered@.len()
        &&& self.delivered@.take(self.before().bytes.len() as int) == self.before().bytes
        &&& if self.section_index < self.sections@.len() {
            self.here().begins_with(self.delivered@.skip(self.before().bytes.len() as int))
        } else {
            self.delivered@.len() == self.before().bytes.len()
        }
    }

    pub open spec fn wf(&self) -> bool {
        &&& self.answers_allowed()
        &&& self.pushback@.len() <= self.delivered@.len()
        &&& self.pushback@ == self.delivered@.skip(self.taken())
        &&& self.placed()
        &&& self.section_index < self.sections@.len() ==> self.section_in_place()
        &&& self.drawn@ == self.source_read()
        &&& self.opened@ == self.source_opened()
        &&& self.asks_within()
    }

    /// The source is opened for no more than the sections that are drawn from it.
    pub proof fn sources_are_opened_by_section(&self)
        requires
            self.wf(),
        ensures
            self.opened@ <= openings(self.values(), self.sections@.len()),
    {
        let i = self.section_index as nat;
        if i < self.sections@.len() {
            assert(self.values()[i as int] == self.sections@[i as int]@);
            openings_grow(self.values(), i + 1, self.sections@.len());
        }
    }

    /// A stream whose last section has bytes, and that was read to its end, opened its source once
    /// for each section that is drawn from it.
    pub proof fn whole_streams_are_opened_once(&self)
        requires
            self.wf(),
            self.sections@.len() > 0,
            self.sections@.last()@.size > 0,
            self.gross().len() == self.feed().bytes.len(),
        ensures
            self.opened@ == openings(self.values(), self.sections@.len()),
    {
        let n = self.sections@.len();
        if self.section_index < n {
            let i = self.section_index as nat;
            let sections = self.values();
            joined_feed_grows(sections, self.answers@, i + 1, n);
            assert(sections[i as int] == self.sections@[i as int]@);
            if i + 1 < n {
                joined_feed_grows(sections, self.answers@, i + 1, (n - 1) as nat);
                assert(sections[n - 1] == self.sections@[n - 1]@);
            }
        }
    }

    /// A stream that was read to its end was drawn from its sources to their ends.
    pub proof fn whole_streams_are_drawn(&self)
        requires
            self.wf(),
            self.gross().len() == self.feed().bytes.len(),
        ensures
            self.drawn@ == drawn_size(self.values(), self.sections@.len()),
    {
        if self.section_index < self.sections@.len() {
            let i = self.section_index as nat;
            drawn_bytes_are_read(self.values(), self.answers@, i + 1, self.sections@.len());
            assert(self.values()[i as int] == self.sections@[i as int]@);
        }
    }

    /// Whether the stream breaks off with `e` behind what was read.
    pub open spec fn broken(&self, e: IoError) -> bool {
        &&& self.answers_allowed()
        &&& self.feed().begins_with(self.gross())
        &&& self.feed().stop == Some((self.gross().len() as int, e))
    }

    /// The stream begins with all that was read.
    pub proof fn feed_begins_with_gross(&self)
        requires
            self.placed(),
        ensures
            self.feed().begins_with(self.gross()),
    {
        let n = self.before().bytes.len() as int;
        let total = self.sections@.len();
        if self.section_index < total {
            let i = self.section_index as nat;
            joined_feed_grows(self.values(), self.answers@, i + 1, total);
            let f = joined_feed(self.values(), self.answers@, i + 1);
            let read = self.delivered@.skip(n);
            assert(self.delivered@ =~= self.before().bytes + read);
            assert(f.bytes.take(self.delivered@.len() as int) =~= self.delivered@) by {
                assert(f.bytes =~= self.before().bytes + self.here().bytes);
                assert(self.here().bytes.take(read.len() as int) =~= read);
                assert forall|k: int| 0 <= k < self.delivered@.len() implies f.bytes[k]
                    == self.delivered@[k] by {
                    if k >= n {
                        assert(self.here().bytes.take(read.len() as int)[k - n] == read[k - n]);
                    }
                }
            }
            assert(self.feed().bytes.take(self.delivered@.len() as int) =~= f.bytes.take(
                self.delivered@.len() as int,
            )) by {
                assert(self.feed().bytes.take(f.bytes.len() as int) == f.bytes);
                assert forall|k: int| 0 <= k < self.delivered@.len() implies self.feed().bytes[k]
                    == f.bytes[k] by {
                    assert(self.feed().bytes.take(f.bytes.len() as int)[k] == f.bytes[k]);
                }
            }
        } else {
            assert(self.delivered@ =~= self.before().bytes);
            assert(self.feed().bytes.take(n) =~= self.feed().bytes);
        }
    }

    pub fn new(
        source: &'a S,
        source_bytes: u64,
        sections: Vec<StreamingMemberSection>,
        chunk_size: usize,
    ) -> (r: StreamingMemberReader<'a, S>)
        requires
            0 < chunk_size <= source.most(),
        ensures
            r.wf(),
            r.chunk_size == chunk_size,
            r.opened@ == 0,
            r.source == source,
            r.sections == sections,
            r.source_bytes == source_bytes,
            r.drawn@ == 0,
            r.gross() == Seq::<u8>::empty(),
            r.taken() == 0,
            r.pushback@.len() == 0,
    {
        let ghost answers = Seq::new(
            sections@.len(),
            |i: int|
                match sections@[i]@.origin {
                    OriginValue::Bytes(bytes) => Answer::whole(bytes),
                    OriginValue::Auxiliary(k) => (source.run().auxiliary)(k),
                    OriginValue::Primary => source.run().primary,
                },
        );
        let r = StreamingMemberReader {
            source,
            source_bytes,
            sections,
            section_index: 0,
            served: 0,
            padded: 0,
            reader: None,
            hasher: hasher_new(),
            source_eof_checked: false,
            pushback: Vec::new(),
            chunk_size,
            answers: Ghost(answers),
            delivered: Ghost(Seq::empty()),
            drawn: Ghost(0),
            opened: Ghost(0),
        };
        proof {
            assert(r.delivered@.skip(0) =~= Seq::<u8>::empty());
            assert(r.delivered@.take(0) =~= r.before().bytes);
            if r.sections@.len() > 0 {
                assert(r.here().bytes.take(0) =~= Seq::<u8>::empty());
            }
            assert(r.pushback@ =~= r.delivered@.skip(r.taken()));
        }
        r
    }

    /// The stream of a file that was laid out.
    pub fn from_source(
        source: &'a S,
        source_bytes: u64,
        metadata: &PortableFileMetadata,
        layout: &PrimaryMemberLayout,
        primary_size: u64,
        chunk_size: usize,
    ) -> (r: Result<StreamingMemberReader<'a, S>, FormatError>)
        requires
            0 < chunk_size <= source.most(),
        ensures
            match section_refusal(layout@, metadata@, layout@.auxiliary.len()) {
                Some(e) => r == Err::<StreamingMemberReader<'a, S>, FormatError>(e),
                None => {
                    &&& r matches Ok(reader)
                    &&& reader.wf()
                    &&& reader.source == source
                    &&& reader.source_bytes == source_bytes
                    &&& reader.drawn@ == 0
                    &&& reader.opened@ == 0
                    &&& reader.chunk_size == chunk_size
                    &&& reader.values() == sections_of(layout@, metadata@, primary_size)
                    &&& reader.gross() == Seq::<u8>::empty()
                    &&& reader.taken() == 0
                },
            },
    {
        let sections: Vec<StreamingMemberSection> = member_sections(
            layout,
            metadata,
            primary_size,
        )?;
        Ok(StreamingMemberReader::new(source, source_bytes, sections, chunk_size))
    }

    /// Up to `max` bytes of the source of the section that is being read.
    fn read_source(&mut self, max: usize) -> (r: Result<Vec<u8>, IoError>)
        requires
            old(self).section_index < old(self).sections@.len(),
            old(self).source_in_place(),
            old(self).answers_allowed(),
            old(self).served <= old(self).answers@[old(self).section_index as int].data.len(),
            old(self).asks_within(),
            0 < max <= old(self).chunk_size,
        ensures
            final(self).asks_within(),
            final(self).chunk_size == old(self).chunk_size,
            final(self).opened@ >= old(self).opened@,
            r is Ok ==> final(self).opened@ == old(self).opened@ + if old(self).reader is None && !(
            old(self).sections@[old(self).section_index as int]@.origin is Bytes) {
                1int
            } else {
                0
            },
            old(self).sections@[old(self).section_index as int]@.origin is Bytes
                ==> final(self).reader == old(self).reader,
            final(self).source == old(self).source,
            final(self).source_bytes == old(self).source_bytes,
            final(self).sections == old(self).sections,
            final(self).section_index == old(self).section_index,
            final(self).served == old(self).served,
            final(self).padded == old(self).padded,
            final(self).hasher == old(self).hasher,
            final(self).source_eof_checked == old(self).source_eof_checked,
            final(self).pushback == old(self).pushback,
            final(self).answers == old(self).answers,
            final(self).delivered == old(self).delivered,
            final(self).drawn == old(self).drawn,
            r matches Ok(bytes) ==> bytes@.len() <= max,
            ({
                let i = old(self).section_index as int;
                let origin = old(self).sections@[i]@.origin;
                let left = old(self).answers@[i].after(old(self).served as int);
                &&& r is Ok && !(origin is Bytes) ==> final(self).reader is Some
                &&& is_pinned(old(self).source, origin) ==> match r {
                    Ok(bytes) => {
                        &&& bytes@.len() <= left.data.len()
                        &&& bytes@ == left.data.take(bytes@.len() as int)
                        &&& bytes@.len() == 0 ==> left == Answer::whole(Seq::empty())
                        &&& !(origin is Bytes) ==> final(self).reader->Some_0.steady()
                        &&& !(origin is Bytes) ==> final(self).reader->Some_0.answer()
                            == left.after(bytes@.len() as int)
                    },
                    Err(e) => left == Answer::refused(e),
                }
            }),
    {
        let ghost i = self.section_index as int;
        let ghost left = self.answers@[i].after(self.served as int);
        let ordinal: Option<usize> = match &self.sections[self.section_index].origin {
            SectionOrigin::Bytes(bytes) => {
                assert(self.sections@[i]@.origin == OriginValue::Bytes(bytes@));
                let total: usize = bytes.len();
                let at: usize = if self.served >= total as u64 {
                    total
                } else {
                    self.served as usize
                };
                let count: usize = if max < total - at {
                    max
                } else {
                    total - at
                };
                let out: Vec<u8> = to_bytes(
                    vstd::slice::slice_subrange(bytes.as_slice(), at, at + count),
                );
                proof {
                    assert(left.data =~= bytes@.skip(at as int));
                    assert(out@ =~= left.data.take(count as int));
                    if count == 0 {
                        assert(left.data =~= Seq::<u8>::empty());
                    }
                }
                return Ok(out);
            },
            SectionOrigin::Auxiliary(k) => {
                assert(self.sections@[i]@.origin == OriginValue::Auxiliary(*k as int));
                Some(*k)
            },
            SectionOrigin::Primary => {
                assert(self.sections@[i]@.origin == OriginValue::Primary);
                None
            },
        };
        assert(may_answer(self.source, self.sections@[i]@.origin, self.answers@[i]));
        assert(self.answers@[i].after(0).data =~= self.answers@[i].data);
        if self.reader.is_none() {
            proof {
                self.opened@ = self.opened@ + 1;
            }
            let opened = match ordinal {
                Some(k) => self.source.open_auxiliary(k),
                None => self.source.open(),
            };
            if let Err(error) = &opened {
                return Err(opening_failure(*error));
            }
            self.reader = opened.ok();
        }
        match &mut self.reader {
            Some(reader) => reader.read(max),
            None => Err(IoError::Other("streaming member section has no source")),
        }
    }

    proof fn section_break_is_final(&self, e: IoError)
        requires
            self.placed(),
            self.answers_allowed(),
            self.section_index < self.sections@.len(),
            self.here().stop == Some((self.delivered@.len() - self.before().bytes.len(), e)),
        ensures
            self.broken(e),
    {
        self.feed_begins_with_gross();
        joined_feed_grows(
            self.values(),
            self.answers@,
            (self.section_index + 1) as nat,
            self.sections@.len(),
        );
    }

    /// The next bytes of the stream that lie in one section, up to `max` of them. No bytes mean
    /// that a section came to its end.
    #[verifier::rlimit(60)]
    fn read_section<P: ArchiveWriteProgressSink>(
        &mut self,
        max: usize,
        progress: &mut P,
        ledger: &mut SourceProgressState,
    ) -> (r: Result<Vec<u8>, IoError>)
        requires
            old(self).wf(),
            old(self).section_index < old(self).sections@.len(),
            0 < max <= old(self).chunk_size,
            old(ledger).wf(),
        ensures
            final(self).asks_within(),
            final(self).opened@ >= old(self).opened@,
            final(ledger).opened@ == old(ledger).opened@ + repeated(
                old(self).source.run().described.path,
                final(self).opened@ - old(self).opened@,
            ),
            final(self).chunk_size == old(self).chunk_size,
            final(self).source == old(self).source,
            final(self).source_bytes == old(self).source_bytes,
            final(self).sections == old(self).sections,
            final(self).pushback == old(self).pushback,
            final(ledger).wf(),
            final(ledger).active_phase == old(ledger).active_phase,
            phases_of(final(progress).events()) == phases_of(old(progress).events()),
            final(self).drawn@ >= old(self).drawn@,
            old(self).source.steady() ==> reports(
                old(self).source.run().described.path,
                old(self).source_bytes,
                final(self).drawn@ - old(self).drawn@,
                *old(ledger),
                old(progress).events(),
                *final(ledger),
                final(progress).events(),
            ),
            match r {
                Ok(bytes) => {
                    &&& final(self).drawn@ == final(self).source_read()
                    &&& final(self).opened@ == final(self).source_opened()
                    &&& bytes@.len() <= max
                    &&& final(self).gross() == old(self).gross() + bytes@
                    &&& final(self).answers_allowed()
                    &&& final(self).placed()
                    &&& final(self).section_index < final(self).sections@.len() ==> final(self).section_in_place()
                    &&& bytes@.len() == 0 ==> final(self).section_index == old(self).section_index
                        + 1
                },
                Err(e) => final(self).gross() == old(self).gross() && final(self).broken(e),
            },
    {
        let section_count: usize = self.sections.len();
        let i: usize = self.section_index;
        assert(i < section_count);
        let size: u64 = self.sections[i].size;
        let padding: u64 = self.sections[i].padding;
        let ghost section = self.sections@[i as int]@;
        let ghost before = self.before();
        let ghost read = self.delivered@.skip(before.bytes.len() as int);
        let ghost first_answers = self.answers@;
        let ghost pinned = is_pinned(self.source, section.origin);
        let counted: bool = match &self.sections[i].origin {
            SectionOrigin::Bytes(_) => false,
            _ => true,
        };
        proof {
            nothing_is_opened(ledger.opened@, self.source.run().described.path);
            reports_of_nothing(
                self.source.run().described.path,
                self.source_bytes,
                *ledger,
                progress.events(),
            );
            assert(self.values()[i as int] == section);
            assert(may_answer(self.source, section.origin, self.answers@[i as int]));
            assert(self.delivered@ =~= before.bytes + read);
            assert(read.take(read.len() as int) =~= read);
            if !self.source_eof_checked {
                let a = self.answers@[i as int];
                assert(read =~= a.data.take(self.served as int)) by {
                    assert forall|k: int| 0 <= k < self.served implies read[k] == a.data[k] by {
                        assert(self.here().bytes.take(read.len() as int)[k] == read[k]);
                    }
                }
            }
        }
        if self.served < size {
            let left: u64 = size - self.served;
            let limit: usize = if max as u64 <= left {
                max
            } else {
                left as usize
            };
            let ghost opened_before = self.opened@;
            let r: Result<Vec<u8>, IoError> = self.read_source(limit);
            proof {
                ledger.opened@ = ledger.opened@ + repeated(
                    self.source.run().described.path,
                    self.opened@ - opened_before,
                );
                reports_ignore_openings(
                    self.source.run().described.path,
                    self.source_bytes,
                    0,
                    *old(ledger),
                    progress.events(),
                    *old(ledger),
                    progress.events(),
                    *old(ledger),
                    *ledger,
                );
            }
            let ghost noted = *ledger;
            match r {
                Err(e) => {
                    proof {
                        if !pinned {
                            let a = Answer { data: read, failure: Some(e) };
                            self.answers@ = first_answers.update(i as int, a);
                        }
                        self.note_answer(first_answers, read);
                        self.section_break_is_final(e);
                    }
                    return Err(e);
                },
                Ok(bytes) => {
                    if counted {
                        ledger.record(
                            progress,
                            self.source.archive_path(),
                            bytes.len() as u64,
                            self.source_bytes,
                        );
                        proof {
                            if self.source.steady() {
                                reports_ignore_openings(
                                    self.source.run().described.path,
                                    self.source_bytes,
                                    bytes@.len() as int,
                                    noted,
                                    old(progress).events(),
                                    *ledger,
                                    progress.events(),
                                    *old(ledger),
                                    *ledger,
                                );
                            }
                            self.drawn@ = self.drawn@ + bytes@.len();
                        }
                    }
                    if bytes.len() == 0 {
                        let e: IoError = IoError::UnexpectedEof(
                            "member source ended before its declared size",
                        );
                        proof {
                            if !pinned {
                                self.answers@ = first_answers.update(i as int, Answer::whole(read));
                            }
                            self.note_answer(first_answers, read);
                            self.section_break_is_final(e);
                        }
                        return Err(e);
                    }
                    let ghost now = read + bytes@;
                    proof {
                        if !pinned {
                            self.answers@ = first_answers.update(
                                i as int,
                                Answer::whole(now + zeros(size - now.len())),
                            );
                            assert(self.answers@[i as int].data.take(now.len() as int) =~= now);
                        } else {
                            let a = first_answers[i as int];
                            let left = a.after(self.served as int);
                            assert(a.data.take(now.len() as int) =~= now);
                            assert(left.after(bytes@.len() as int).data =~= a.after(
                                now.len() as int,
                            ).data);
                        }
                    }
                    self.served = self.served + bytes.len() as u64;
                    if self.sections[i].expected_sha256.is_some() {
                        hasher_update(&mut self.hasher, bytes.as_slice());
                    }
                    proof {
                        assert(self.delivered@ + bytes@ =~= before.bytes + now);
                        self.delivered@ = self.delivered@ + bytes@;
                        self.note_answer(first_answers, now);
                    }
                    return Ok(bytes);
                },
            }
        }
        if !self.source_eof_checked {
            let ghost opened_before = self.opened@;
            let r: Result<Vec<u8>, IoError> = self.read_source(1);
            proof {
                ledger.opened@ = ledger.opened@ + repeated(
                    self.source.run().described.path,
                    self.opened@ - opened_before,
                );
                reports_ignore_openings(
                    self.source.run().described.path,
                    self.source_bytes,
                    0,
                    *old(ledger),
                    progress.events(),
                    *old(ledger),
                    progress.events(),
                    *old(ledger),
                    *ledger,
                );
            }
            let ghost noted = *ledger;
            match r {
                Err(e) => {
                    proof {
                        if !pinned {
                            let a = Answer { data: read, failure: Some(e) };
                            self.answers@ = first_answers.update(i as int, a);
                        }
                        self.note_answer(first_answers, read);
                        self.section_break_is_final(e);
                    }
                    return Err(e);
                },
                Ok(extra) => {
                    if counted {
                        ledger.record(
                            progress,
                            self.source.archive_path(),
                            extra.len() as u64,
                            self.source_bytes,
                        );
                        proof {
                            if self.source.steady() {
                                reports_ignore_openings(
                                    self.source.run().described.path,
                                    self.source_bytes,
                                    extra@.len() as int,
                                    noted,
                                    old(progress).events(),
                                    *ledger,
                                    progress.events(),
                                    *old(ledger),
                                    *ledger,
                                );
                            }
                            self.drawn@ = self.drawn@ + extra@.len();
                        }
                    }
                    if extra.len() != 0 {
                        let e: IoError = IoError::InvalidData(
                            "member source exceeded its declared size",
                        );
                        proof {
                            if !pinned {
                                self.answers@ = first_answers.update(
                                    i as int,
                                    Answer::whole(read + extra@),
                                );
                                assert((read + extra@).take(read.len() as int) =~= read);
                            }
                            self.note_answer(first_answers, read);
                            self.section_break_is_final(e);
                        }
                        return Err(e);
                    }
                },
            }
            proof {
                if !pinned {
                    self.answers@ = first_answers.update(i as int, Answer::whole(read));
                } else {
                    assert(first_answers[i as int].data =~= read);
                }
                self.note_answer(first_answers, read);
            }
            if let Some(expected) = self.sections[i].expected_sha256 {
                let mut hasher: sha2::Sha256 = hasher_new();
                core::mem::swap(&mut hasher, &mut self.hasher);
                let actual: [u8; 32] = hasher_finalize(hasher);
                if !same_digest(&actual, &expected) {
                    let e: IoError = IoError::InvalidData(
                        "auxiliary source changed after metadata capture",
                    );
                    proof {
                        self.section_break_is_final(e);
                    }
                    return Err(e);
                }
            }
            self.source_eof_checked = true;
            self.reader = None;
        }
        if self.padded < padding {
            let left: u64 = padding - self.padded;
            let count: usize = if max as u64 <= left {
                max
            } else {
                left as usize
            };
            let out: Vec<u8> = zero_vec(count);
            proof {
                let shown = self.delivered@.skip(before.bytes.len() as int);
                assert(shown =~= read);
                assert((self.delivered@ + out@).skip(before.bytes.len() as int) =~= read + out@);
                assert(self.here().bytes.take((read + out@).len() as int) =~= read + out@) by {
                    assert forall|k: int| 0 <= k < (read + out@).len() implies self.here().bytes[k]
                        == (read + out@)[k] by {
                        if k < read.len() {
                            assert(self.here().bytes.take(read.len() as int)[k] == read[k]);
                        }
                    }
                }
                assert((self.delivered@ + out@).take(before.bytes.len() as int)
                    =~= before.bytes);
                self.delivered@ = self.delivered@ + out@;
            }
            self.padded = self.padded + count as u64;
            return Ok(out);
        }
        let out: Vec<u8> = Vec::new();
        proof {
            assert(self.here().bytes.take(read.len() as int) =~= self.here().bytes);
            assert(self.delivered@ =~= before.bytes + self.here().bytes);
        }
        self.section_index = i + 1;
        self.served = 0;
        self.padded = 0;
        self.source_eof_checked = false;
        self.hasher = hasher_new();
        self.reader = None;
        proof {
            assert(self.before().bytes =~= self.delivered@);
            assert(self.delivered@.take(self.before().bytes.len() as int) =~= self.delivered@);
            let none = self.delivered@.skip(self.before().bytes.len() as int);
            assert(none =~= Seq::<u8>::empty());
            if self.section_index < self.sections@.len() {
                assert(self.here().bytes.take(0) =~= none);
            }
            assert(self.delivered@ + out@ =~= self.delivered@);
        }
        Ok(out)
    }

    /// The next `len` bytes of the stream. The source is asked for no more than a chunk at a time.
    #[verifier::rlimit(30)]
    #[verifier::loop_isolation(false)]
    pub fn read_exact<P: ArchiveWriteProgressSink>(
        &mut self,
        len: usize,
        progress: &mut P,
        ledger: &mut SourceProgressState,
    ) -> (r: Result<Vec<u8>, IoError>)
        requires
            old(self).wf(),
            old(self).taken() + len <= old(self).feed().bytes.len(),
            old(ledger).wf(),
        ensures
            final(self).chunk_size == old(self).chunk_size,
            final(self).opened@ >= old(self).opened@,
            final(ledger).opened@ == old(ledger).opened@ + repeated(
                old(self).source.run().described.path,
                final(self).opened@ - old(self).opened@,
            ),
            final(self).source == old(self).source,
            final(self).source_bytes == old(self).source_bytes,
            final(self).sections == old(self).sections,
            final(self).answers_allowed(),
            final(ledger).wf(),
            final(ledger).active_phase == old(ledger).active_phase,
            phases_of(final(progress).events()) == phases_of(old(progress).events()),
            final(self).drawn@ >= old(self).drawn@,
            old(self).source.steady() ==> reports(
                old(self).source.run().described.path,
                old(self).source_bytes,
                final(self).drawn@ - old(self).drawn@,
                *old(ledger),
                old(progress).events(),
                *final(ledger),
                final(progress).events(),
            ),
            final(self).feed().begins_with(old(self).gross()),
            final(self).feed().bytes.len() == old(self).feed().bytes.len(),
            match r {
                Ok(bytes) => {
                    &&& final(self).wf()
                    &&& final(self).taken() == old(self).taken() + len
                    &&& final(self).gross().len() >= old(self).gross().len()
                    &&& final(self).gross().take(old(self).gross().len() as int) == old(self).gross()
                    &&& bytes@ == final(self).gross().subrange(
                        old(self).taken(),
                        old(self).taken() + len,
                    )
                },
                Err(e) => final(self).feed().reads(old(self).taken() + len) == Err::<
                    Seq<u8>,
                    IoError,
                >(e),
            },
    {
        let ghost start = self.gross();
        let ghost from = self.taken();
        let ghost first_answers = self.answers@;
        let ghost sections = self.values();
        let ghost total = self.feed().bytes.len();
        proof {
            nothing_is_opened(ledger.opened@, self.source.run().described.path);
            reports_of_nothing(
                self.source.run().described.path,
                self.source_bytes,
                *ledger,
                progress.events(),
            );
        }
        let mut out: Vec<u8> = Vec::new();
        if self.pushback.len() > 0 {
            let count: usize = if len < self.pushback.len() {
                len
            } else {
                self.pushback.len()
            };
            append(&mut out, vstd::slice::slice_subrange(self.pushback.as_slice(), 0, count));
            let rest: Vec<u8> = to_bytes(
                vstd::slice::slice_subrange(self.pushback.as_slice(), count, self.pushback.len()),
            );
            proof {
                assert(out@ =~= start.subrange(from, from + count));
                assert(rest@ =~= start.skip(from + count));
            }
            self.pushback = rest;
        } else {
            assert(out@ =~= start.subrange(from, from));
        }
        proof {
            self.feed_begins_with_gross();
            assert(start.take(start.len() as int) =~= start);
            assert(self.gross() == start);
        }
        while out.len() < len && self.section_index < self.sections.len()
            invariant
                self.wf(),
                self.chunk_size == old(self).chunk_size,
                self.opened@ >= old(self).opened@,
                ledger.opened@ == old(ledger).opened@ + repeated(
                    self.source.run().described.path,
                    self.opened@ - old(self).opened@,
                ),
                self.source == old(self).source,
                self.source_bytes == old(self).source_bytes,
                self.sections == old(self).sections,
                sections == self.values(),
                ledger.wf(),
                ledger.active_phase == old(ledger).active_phase,
                phases_of(progress.events()) == phases_of(old(progress).events()),
                self.drawn@ >= old(self).drawn@,
                self.source.steady() ==> reports(
                    self.source.run().described.path,
                    self.source_bytes,
                    self.drawn@ - old(self).drawn@,
                    *old(ledger),
                    old(progress).events(),
                    *ledger,
                    progress.events(),
                ),
                total == joined_feed(sections, first_answers, sections.len()).bytes.len(),
                from + len <= total,
                0 <= from <= start.len(),
                out@.len() <= len,
                start.len() <= self.gross().len(),
                self.gross().take(start.len() as int) == start,
                self.taken() == from + out@.len(),
                out@ == self.gross().subrange(from, from + out@.len()),
                out@.len() < len ==> self.pushback@.len() == 0,
            decreases total - self.gross().len(), self.sections@.len() - self.section_index,
        {
            let ghost was = self.gross();
            let ghost drawn = self.drawn@;
            let ghost opened = self.opened@;
            let ghost noted = *ledger;
            let ghost told = progress.events();
            proof {
                joined_feed_len(sections, self.answers@, first_answers, sections.len());
            }
            let left: usize = len - out.len();
            let count: usize = if left < self.chunk_size {
                left
            } else {
                self.chunk_size
            };
            let part: Result<Vec<u8>, IoError> = self.read_section(count, progress, ledger);
            proof {
                openings_add_up(
                    old(ledger).opened@,
                    self.source.run().described.path,
                    opened - old(self).opened@,
                    self.opened@ - opened,
                );
                if self.source.steady() {
                    reports_join(
                        self.source.run().described.path,
                        self.source_bytes,
                        drawn - old(self).drawn@,
                        self.drawn@ - drawn,
                        *old(ledger),
                        old(progress).events(),
                        noted,
                        told,
                        *ledger,
                        progress.events(),
                    );
                }
                joined_feed_len(sections, self.answers@, first_answers, sections.len());
            }
            match part {
                Err(e) => {
                    proof {
                        assert(self.feed().begins_with(was));
                        assert(self.feed().bytes.take(start.len() as int) =~= start) by {
                            assert(was.take(start.len() as int) == start);
                            assert forall|k: int| 0 <= k < start.len() implies self.feed().bytes[k]
                                == start[k] by {
                                assert(self.feed().bytes.take(was.len() as int)[k] == was[k]);
                                assert(was.take(start.len() as int)[k] == start[k]);
                            }
                        }
                    }
                    return Err(e);
                },
                Ok(bytes) => {
                    proof {
                        self.feed_begins_with_gross();
                        assert(self.gross() == was + bytes@);
                        assert(self.pushback@ =~= self.gross().skip(self.taken()));
                        assert(self.gross().take(start.len() as int) =~= was.take(
                            start.len() as int,
                        ));
                        assert(out@ + bytes@ =~= self.gross().subrange(
                            from,
                            from + (out@ + bytes@).len(),
                        )) by {
                            assert(out@ =~= was.subrange(from, from + out@.len()));
                            assert(was.len() == from + out@.len());
                        }
                    }
                    append(&mut out, bytes.as_slice());
                },
            }
        }
        proof {
            joined_feed_len(sections, self.answers@, first_answers, sections.len());
            self.feed_begins_with_gross();
            assert(self.feed().bytes.take(start.len() as int) =~= start) by {
                assert forall|k: int| 0 <= k < start.len() implies self.feed().bytes[k]
                    == start[k] by {
                    assert(self.feed().bytes.take(self.gross().len() as int)[k]
                        == self.gross()[k]);
                    assert(self.gross().take(start.len() as int)[k] == start[k]);
                }
            }
        }
        Ok(out)
    }

    /// Puts the last bytes that were read back.
    pub fn push_back(&mut self, bytes: Vec<u8>)
        requires
            old(self).wf(),
            bytes@.len() <= old(self).taken(),
            bytes@ == old(self).gross().subrange(
                old(self).taken() - bytes@.len(),
                old(self).taken(),
            ),
        ensures
            final(self).wf(),
            final(self).source == old(self).source,
            final(self).sections == old(self).sections,
            final(self).answers == old(self).answers,
            final(self).source_bytes == old(self).source_bytes,
            final(self).drawn == old(self).drawn,
            final(self).opened == old(self).opened,
            final(self).chunk_size == old(self).chunk_size,
            final(self).gross() == old(self).gross(),
            final(self).taken() == old(self).taken() - bytes@.len(),
    {
        let mut merged: Vec<u8> = bytes;
        append(&mut merged, self.pushback.as_slice());
        let ghost at = self.taken() - bytes@.len();
        assert(merged@ =~= self.gross().skip(at));
        self.pushback = merged;
    }

    /// What the source contributed, if the sections are those of a layout.
    pub open spec fn seen_run(&self, run: SourceRun) -> SourceRun {
        if self.source.steady() {
            self.source.run()
        } else {
            SourceRun {
                described: run.described,
                primary: self.answers@[self.sections@.len() - 1],
                auxiliary: |k: int| self.answers@[2 * k + 1],
            }
        }
    }

    /// The stream is the one that the source contributed.
    pub proof fn feed_is_the_sources(
        &self,
        layout: LayoutValue,
        metadata: PortableValue,
        primary_size: u64,
        run: SourceRun,
    )
        requires
            self.answers_allowed(),
            self.values() == sections_of(layout, metadata, primary_size),
        ensures
            self.feed() == feed_of(self.values(), self.seen_run(run)),
            may_run(self.source, self.seen_run(run)),
            self.source.steady() || self.seen_run(run).described == run.described,
    {
        let sections = self.values();
        let answers = answers_of(sections, self.seen_run(run));
        let n = layout.auxiliary.len() as int;
        assert forall|i: int| 0 <= i < sections.len() implies self.answers@[i] == answers[i] by {
            assert(self.sections@[i]@ == sections[i]);
            assert(may_answer(self.source, self.sections@[i]@.origin, self.answers@[i]));
            if sections[i].origin is Auxiliary {
                assert(i % 2 == 1 && sections[i].origin == OriginValue::Auxiliary(i / 2));
                assert(2 * (i / 2) + 1 == i);
            } else if sections[i].origin is Primary {
                assert(i == 2 * n + 1);
            }
        }
        assert(self.answers@ =~= answers);
    }

    /// What holds of a section whose answer may have been learnt, with `read` read of it.
    proof fn note_answer(&self, first_answers: Seq<Answer>, read: Seq<u8>)
        requires
            self.section_index < self.sections@.len(),
            self.answers@.len() == self.sections@.len(),
            first_answers.len() == self.sections@.len(),
            forall|k: int|
                0 <= k < self.sections@.len() && k != self.section_index ==> self.answers@[k]
                    == first_answers[k],
            forall|k: int|
                0 <= k < self.sections@.len() ==> may_answer(
                    self.source,
                    (#[trigger] self.sections@[k])@.origin,
                    first_answers[k],
                ),
            is_pinned(self.source, self.sections@[self.section_index as int]@.origin)
                ==> self.answers@ == first_answers,
            joined_feed(self.values(), first_answers, self.section_index as nat).stop is None,
            self.delivered@ == joined_feed(
                self.values(),
                first_answers,
                self.section_index as nat,
            ).bytes + read,
            read.len() <= self.sections@[self.section_index as int]@.size,
            read.len() <= self.answers@[self.section_index as int].data.len(),
            self.answers@[self.section_index as int].data.take(read.len() as int) == read,
        ensures
            self.answers_allowed(),
            self.placed(),
            self.before() == joined_feed(
                self.values(),
                first_answers,
                self.section_index as nat,
            ),
            self.delivered@.skip(self.before().bytes.len() as int) == read,
            self.here().begins_with(read),
    {
        joined_feed_is_local(
            self.values(),
            self.answers@,
            first_answers,
            self.section_index as nat,
        );
        assert(self.delivered@.take(self.before().bytes.len() as int) =~= self.before().bytes);
        assert(self.delivered@.skip(self.before().bytes.len() as int) =~= read);
        let a = self.answers@[self.section_index as int];
        assert(self.here().bytes.take(read.len() as int) =~= read) by {
            assert forall|k: int| 0 <= k < read.len() implies self.here().bytes[k] == read[k] by {
                assert(a.data.take(read.len() as int)[k] == read[k]);
            }
        }
    }
}

} // verus!
