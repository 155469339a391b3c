//! Asking a source what its member is, and laying the member out.
use crate::bytes::to_bytes;
use crate::codec::ArchiveCodec;
use crate::errors::FormatError;
use crate::member::{
    auxiliary_size, build_primary_member_layout, group_size, group_size_outcome,
    layout_matches_records, layout_outcome, primary_member_layout_size, source_payload_size,
    source_payload_size_outcome, LayoutValue, PrimaryInput, PrimaryMemberLayout, PrimaryValue,
};
use crate::metadata::{duplicate_extents, ArchiveTimestamp, PortableFileMetadata, SourceEntryKind};
use crate::openings::is_plain_member;
use crate::profile::MetadataProfile;
use crate::rows::{MemberValue, TarMember};
use crate::source::{Answer, Described, RegularFileSource};
use crate::sparse::SparseExtent;
use crate::stream::{
    auxiliary_section, declared_source_bytes, declared_source_bytes_grow, drawn_bytes_are_read,
    drawn_size, fixed_section, joined_feed, openings, plain_streams_open_once, section_feed,
    section_refusal, sections_draw_the_source, sections_of, source_byte_limit, source_total,
    SectionValue, StreamingMemberReader,
};
use vstd::prelude::*;

verus! {

/// What a source said of its member.
#[derive(Debug, Clone)]
pub struct StreamingRegularMember {
    pub archive_path: Vec<u8>,
    pub entry_kind: SourceEntryKind,
    pub link_target: Option<Vec<u8>>,
    pub file_data_size: u64,
    pub sparse_extents: Option<Vec<SparseExtent>>,
    pub mode: u32,
    pub mtime: ArchiveTimestamp,
    pub portable_metadata: PortableFileMetadata,
}

impl View for StreamingRegularMember {
    type V = PrimaryValue;

    open spec fn view(&self) -> PrimaryValue {
        PrimaryValue {
            path: self.archive_path@,
            entry_kind: self.entry_kind,
            link_target: crate::key_wrap::opt_vec(self.link_target),
            file_size: self.file_data_size,
            sparse_extents: crate::metadata::opt_extents(self.sparse_extents),
            mode: self.mode,
            mtime: self.mtime,
            metadata: self.portable_metadata@,
        }
    }
}

/// A described member under the path by which the archive stores it.
pub open spec fn captured<C: ArchiveCodec>(codec: &C, d: Described, max_path_length: u32) -> Result<
    PrimaryValue,
    FormatError,
> {
    match codec.normalized_path(d.path, max_path_length) {
        Err(e) => Err(e),
        Ok(path) => Ok(
            PrimaryValue {
                path,
                entry_kind: d.entry_kind,
                link_target: d.link_target,
                file_size: d.file_data_size,
                sparse_extents: d.sparse_extents,
                mode: d.mode,
                mtime: d.mtime,
                metadata: d.metadata,
            },
        ),
    }
}

/// Whether a source can have described its member so.
pub open spec fn may_describe<S: RegularFileSource>(source: &S, d: Described) -> bool {
    source.steady() ==> d == source.run().described
}

pub fn capture_member<C: ArchiveCodec, S: RegularFileSource>(
    codec: &C,
    source: &S,
    max_path_length: u32,
) -> (r: Result<StreamingRegularMember, FormatError>)
    ensures
        r matches Ok(member) ==> member.portable_metadata.wf(),
        exists|d: Described| #[trigger]
            may_describe(source, d) && match (r, captured(codec, d, max_path_length)) {
                (Ok(member), Ok(value)) => member@ == value,
                (Err(e), Err(f)) => e == f,
                _ => false,
            },
{
    let path: &str = source.archive_path();
    let ghost text = path@;
    let normalized: Result<Vec<u8>, FormatError> = codec.normalize_path(path, max_path_length);
    let archive_path: Vec<u8> = match normalized {
        Ok(archive_path) => archive_path,
        Err(e) => {
            proof {
                let d = Described { path: text, ..source.run().described };
                assert(may_describe(source, d));
            }
            return Err(e);
        },
    };
    let entry_kind: SourceEntryKind = source.entry_kind();
    let link: Option<&[u8]> = source.link_target();
    let link_target: Option<Vec<u8>> = match link {
        Some(target) => Some(to_bytes(target)),
        None => None,
    };
    let file_data_size: u64 = source.file_data_size();
    let extents: Option<&[SparseExtent]> = source.sparse_extents();
    let sparse_extents: Option<Vec<SparseExtent>> = match extents {
        Some(extents) => Some(duplicate_extents(extents)),
        None => None,
    };
    let mode: u32 = source.mode();
    let mtime: ArchiveTimestamp = source.mtime();
    let portable_metadata: PortableFileMetadata = source.portable_metadata();
    portable_metadata.in_order();
    let member = StreamingRegularMember {
        archive_path,
        entry_kind,
        link_target,
        file_data_size,
        sparse_extents,
        mode,
        mtime,
        portable_metadata,
    };
    proof {
        let d = Described {
            path: text,
            entry_kind,
            link_target: crate::options::opt_bytes(link),
            file_data_size,
            sparse_extents: crate::member::opt_extent_slice(extents),
            mode,
            mtime,
            metadata: portable_metadata@,
        };
        assert(may_describe(source, d));
        assert(captured(codec, d, max_path_length) == Ok::<PrimaryValue, FormatError>(member@));
    }
    Ok(member)
}

impl StreamingRegularMember {
    /// The member at its place in the stream of all members.
    pub fn placed_at(self, start: u64, size: u64) -> (r: TarMember)
        ensures
            r@ == (MemberValue {
                primary: self@,
                tar_member_group_start: start,
                tar_member_group_size: size,
            }),
            r.portable_metadata == self.portable_metadata,
    {
        TarMember {
            path: self.archive_path,
            entry_kind: self.entry_kind,
            link_target: self.link_target,
            tar_member_group_start: start,
            tar_member_group_size: size,
            file_data_size: self.file_data_size,
            sparse_extents: self.sparse_extents,
            mode: self.mode,
            mtime: self.mtime,
            portable_metadata: self.portable_metadata,
        }
    }
}

/// A member that is laid out.
pub struct PreparedValue {
    pub primary: PrimaryValue,
    pub sections: Seq<SectionValue>,
    pub group_size: u64,
}

/// Lays a captured member out.
pub open spec fn prepared<C: ArchiveCodec + MetadataProfile>(codec: &C, v: PrimaryValue) -> Result<
    PreparedValue,
    FormatError,
> {
    if v.entry_kind != SourceEntryKind::Regular && v.file_size != 0 {
        Err(FormatError::WriterInvariant("non-regular source has non-zero file data size"))
    } else {
        match source_payload_size_outcome(v.file_size, v.sparse_extents, codec.extent_limit()) {
            Err(e) => Err(e),
            Ok(payload_size) => match layout_outcome(codec, v) {
                Err(e) => Err(e),
                Ok(layout) => match group_size_outcome(layout, payload_size) {
                    Err(e) => Err(e),
                    Ok(size) => match section_refusal(
                        layout,
                        v.metadata,
                        layout.auxiliary.len(),
                    ) {
                        Some(e) => Err(e),
                        None => Ok(
                            PreparedValue {
                                primary: v,
                                sections: sections_of(layout, v.metadata, payload_size),
                                group_size: size,
                            },
                        ),
                    },
                },
            },
        }
    }
}

proof fn auxiliary_sections_len(
    layout: LayoutValue,
    v: PrimaryValue,
    payload_size: u64,
    answers: Seq<Answer>,
    count: nat,
)
    requires
        count <= layout.auxiliary.len(),
        auxiliary_size(layout.auxiliary, layout.auxiliary.len()) <= u64::MAX,
    ensures
        joined_feed(
            sections_of(layout, v.metadata, payload_size),
            answers,
            2 * count,
        ).bytes.len() == auxiliary_size(layout.auxiliary, count),
    decreases count,
{
    if count > 0 {
        let sections = sections_of(layout, v.metadata, payload_size);
        auxiliary_sections_len(layout, v, payload_size, answers, (count - 1) as nat);
        let k = 2 * (count - 1);
        assert(k % 2 == 0 && k / 2 == count - 1 && (k + 1) % 2 == 1 && (k + 1) / 2 == count - 1);
        let member = layout.auxiliary[count - 1];
        assert(sections[k] == fixed_section(member.bytes));
        assert(sections[k + 1] == auxiliary_section(layout, v.metadata, count - 1));
        crate::member::auxiliary_size_grows(layout.auxiliary, count, layout.auxiliary.len());
        crate::member::auxiliary_size_grows(
            layout.auxiliary,
            (count - 1) as nat,
            layout.auxiliary.len(),
        );
        crate::arith::tar_padding_fills_the_last_record(member.stored_size as int);
        reveal_with_fuel(joined_feed, 3);
        assert(joined_feed(sections, answers, (2 * count) as nat) == joined_feed(
            sections,
            answers,
            (2 * count - 1) as nat,
        ).then_feed(section_feed(sections[2 * count - 1], answers[2 * count - 1])));
        assert(joined_feed(sections, answers, (2 * count - 1) as nat) == joined_feed(
            sections,
            answers,
            (2 * count - 2) as nat,
        ).then_feed(section_feed(sections[2 * count - 2], answers[2 * count - 2])));
    }
}

/// The sections of a member make up its group.
pub proof fn sections_make_the_group(
    layout: LayoutValue,
    v: PrimaryValue,
    payload_size: u64,
    answers: Seq<Answer>,
)
    requires
        group_size(layout, payload_size) <= u64::MAX,
    ensures
        joined_feed(
            sections_of(layout, v.metadata, payload_size),
            answers,
            sections_of(layout, v.metadata, payload_size).len(),
        ).bytes.len() == group_size(layout, payload_size),
{
    let sections = sections_of(layout, v.metadata, payload_size);
    let n = layout.auxiliary.len();
    crate::member::auxiliary_size_grows(layout.auxiliary, 0, n);
    crate::arith::tar_padding_fills_the_last_record(payload_size as int);
    auxiliary_sections_len(layout, v, payload_size, answers, n);
    assert(joined_feed(sections, answers, (2 * n + 2) as nat) == joined_feed(
        sections,
        answers,
        (2 * n + 1) as nat,
    ).then_feed(section_feed(sections[2 * n as int + 1], answers[2 * n as int + 1])));
    assert(joined_feed(sections, answers, (2 * n + 1) as nat) == joined_feed(
        sections,
        answers,
        (2 * n) as nat,
    ).then_feed(section_feed(sections[2 * n as int], answers[2 * n as int])));
    assert(sections[2 * n as int] == fixed_section(layout.primary));
}

/// Whether a member draws from its source what it has there, and progress may report all of it.
#[verifier::opaque]
pub open spec fn declares_all<C: MetadataProfile>(
    codec: &C,
    v: PrimaryValue,
    sections: Seq<SectionValue>,
    limit: u64,
) -> bool {
    &&& limit == declared_source_bytes(
        v.file_size,
        v.metadata,
        v.metadata.native.auxiliary_records.len(),
    )
    &&& drawn_size(sections, sections.len()) == source_total(
        codec,
        v.file_size,
        v.sparse_extents,
        v.metadata,
    )
    &&& drawn_size(sections, sections.len()) <= limit
    &&& sections.len() > 0
    &&& is_plain_member(v) ==> openings(sections, sections.len()) == 1 && sections.last().size
        == v.file_size
}

/// A member draws from its source what it has there.
proof fn members_draw_their_sources<C: ArchiveCodec + MetadataProfile>(
    codec: &C,
    layout: LayoutValue,
    v: PrimaryValue,
    payload_size: u64,
    answers: Seq<Answer>,
    limit: u64,
)
    requires
        limit == declared_source_bytes(
            v.file_size,
            v.metadata,
            v.metadata.native.auxiliary_records.len(),
        ),
        group_size(layout, payload_size) <= u64::MAX,
        layout_outcome(codec, v) == Ok::<LayoutValue, FormatError>(layout),
        section_refusal(layout, v.metadata, layout.auxiliary.len()) is None,
        source_payload_size_outcome(v.file_size, v.sparse_extents, codec.extent_limit()) == Ok::<
            u64,
            FormatError,
        >(payload_size),
        payload_size <= v.file_size,
    ensures
        declares_all(codec, v, sections_of(layout, v.metadata, payload_size), limit),
{
    reveal(declares_all);
    let sections = sections_of(layout, v.metadata, payload_size);
    let n = layout.auxiliary.len();
    layout_matches_records(codec, v);
    sections_make_the_group(layout, v, payload_size, answers);
    drawn_bytes_are_read(sections, answers, 0, sections.len());
    assert(sections[2 * n as int] == fixed_section(layout.primary));
    assert(drawn_size(sections, (2 * n + 2) as nat) == drawn_size(sections, (2 * n + 1) as nat)
        + payload_size);
    assert(drawn_size(sections, (2 * n + 1) as nat) == drawn_size(sections, (2 * n) as nat));
    sections_draw_the_source(layout, v.metadata, payload_size, n);
    declared_source_bytes_grow(payload_size, v.file_size, v.metadata, n);
    if is_plain_member(v) {
        plain_streams_open_once(layout, v.metadata, payload_size);
    }
}

/// Lays a captured member out and opens its stream.
#[verifier::rlimit(40)]
#[verifier::spinoff_prover]
pub fn open_member<'a, C: ArchiveCodec + MetadataProfile, S: RegularFileSource>(
    codec: &C,
    source: &'a S,
    member: &StreamingRegularMember,
    chunk_size: u32,
) -> (r: Result<(StreamingMemberReader<'a, S>, u64), FormatError>)
    requires
        member.portable_metadata.wf(),
        0 < chunk_size <= source.most(),
    ensures
        match (r, prepared(codec, member@)) {
            (Ok((reader, size)), Ok(p)) => {
                &&& reader.wf()
                &&& reader.source == source
                &&& reader.values() == p.sections
                &&& reader.taken() == 0
                &&& reader.feed().bytes.len() == size
                &&& size == p.group_size
                &&& reader.drawn@ == 0
                &&& reader.opened@ == 0
                &&& reader.chunk_size == chunk_size
                &&& declares_all(codec, member@, p.sections, reader.source_bytes)
            },
            (Err(e), Err(f)) => e == f,
            _ => false,
        },
{
    if member.entry_kind != SourceEntryKind::Regular && member.file_data_size != 0 {
        return Err(FormatError::WriterInvariant("non-regular source has non-zero file data size"));
    }
    let extents: Option<&[SparseExtent]> = match &member.sparse_extents {
        Some(extents) => Some(extents.as_slice()),
        None => None,
    };
    let link: Option<&[u8]> = match &member.link_target {
        Some(target) => Some(target.as_slice()),
        None => None,
    };
    let payload_size: u64 = source_payload_size(
        member.file_data_size,
        extents,
        codec.max_sparse_extents(),
    )?;
    let input = PrimaryInput {
        path: member.archive_path.as_slice(),
        entry_kind: member.entry_kind,
        link_target: link,
        file_size: member.file_data_size,
        sparse_extents: extents,
        mode: member.mode,
        mtime: member.mtime,
        portable_metadata: &member.portable_metadata,
    };
    assert(input@ == member@);
    let layout: PrimaryMemberLayout = build_primary_member_layout(codec, &input)?;
    let size: u64 = primary_member_layout_size(&layout, payload_size)?;
    let limit: u64 = source_byte_limit(member.file_data_size, &member.portable_metadata);
    let reader = StreamingMemberReader::from_source(
        source,
        limit,
        &member.portable_metadata,
        &layout,
        payload_size,
        chunk_size as usize,
    )?;
    proof {
        sections_make_the_group(layout@, member@, payload_size, reader.answers@);
        members_draw_their_sources(
            codec,
            layout@,
            member@,
            payload_size,
            reader.answers@,
            limit,
        );
    }
    Ok((reader, size))
}

} // verus!
