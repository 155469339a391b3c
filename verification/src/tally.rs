//! How many bytes of its sources the writing of an archive reports.
use crate::metadata::PortableValue;
use crate::profile::MetadataProfile;
use crate::progress::{read_total, reports, ArchiveWritePhase, ProgressEvent, SourceProgressState};
use crate::source::{Described, RegularFileSource};
use crate::stream::{declared_source_bytes, source_total};
use vstd::prelude::*;

verus! {

/// Bytes that a described member has in its source.
pub open spec fn described_total<C: MetadataProfile>(codec: &C, d: Described) -> int {
    source_total(codec, d.file_data_size, d.sparse_extents, d.metadata)
}

/// Bytes that the first `count` sources have.
pub open spec fn sources_total<C: MetadataProfile, S: RegularFileSource>(
    codec: &C,
    files: Seq<S>,
    count: nat,
) -> int
    decreases count,
{
    if count == 0 {
        0
    } else {
        sources_total(codec, files, (count - 1) as nat) + described_total(
            codec,
            files[count - 1].run().described,
        )
    }
}

proof fn inline_metadata_adds_nothing(file_data_size: u64, metadata: PortableValue, count: nat)
    requires
        count <= metadata.native.auxiliary_records.len(),
        forall|i: int|
            0 <= i < count ==> (#[trigger] metadata.native.auxiliary_records[i]).streamed_payload
                is None,
    ensures
        declared_source_bytes(file_data_size, metadata, count) == file_data_size,
    decreases count,
{
    if count > 0 {
        inline_metadata_adds_nothing(file_data_size, metadata, (count - 1) as nat);
    }
}

/// A file without holes that streams no metadata has in its source the bytes of its data.
pub proof fn plain_files_have_their_data<C: MetadataProfile>(codec: &C, d: Described)
    requires
        d.sparse_extents is None,
        forall|i: int|
            0 <= i < d.metadata.native.auxiliary_records.len() ==> (
            #[trigger] d.metadata.native.auxiliary_records[i]).streamed_payload is None,
    ensures
        described_total(codec, d) == d.file_data_size,
{
    inline_metadata_adds_nothing(
        d.file_data_size,
        d.metadata,
        d.metadata.native.auxiliary_records.len(),
    );
}

/// The path by which a steady source is reported.
pub open spec fn path_of<S: RegularFileSource>(source: S) -> Seq<char> {
    source.run().described.path
}

/// Whether sources stay as they are and have paths of their own.
pub open spec fn are_countable<S: RegularFileSource>(files: Seq<S>) -> bool {
    &&& forall|i: int| 0 <= i < files.len() ==> (#[trigger] files[i]).steady()
    &&& forall|i: int, j: int|
        0 <= i < j < files.len() ==> #[trigger] path_of(files[i]) != #[trigger] path_of(files[j])
}

/// Whether a phase has reported nothing of any source.
pub open spec fn is_fresh<S: RegularFileSource>(ledger: SourceProgressState, files: Seq<S>) -> bool {
    forall|i: int| 0 <= i < files.len() ==> ledger.reported_of(#[trigger] path_of(files[i])) == 0
}

/// What `phase` is told of `total` bytes that the running phase reports.
pub open spec fn share(running: Option<ArchiveWritePhase>, phase: ArchiveWritePhase, total: int) -> int {
    if running == Some(phase) {
        total
    } else {
        0
    }
}

/// Whether a member was reported whole.
#[verifier::opaque]
pub open spec fn tells_member<C: MetadataProfile, S: RegularFileSource>(
    codec: &C,
    source: S,
    ledger: SourceProgressState,
    told: Seq<ProgressEvent>,
    new_ledger: SourceProgressState,
    new_told: Seq<ProgressEvent>,
) -> bool {
    source.steady() ==> {
        &&& new_ledger.active_phase == ledger.active_phase
        &&& forall|other: Seq<char>|
            other != path_of(source) ==> #[trigger] new_ledger.reported_of(other)
                == ledger.reported_of(other)
        &&& ledger.reported_of(path_of(source)) == 0 ==> forall|phase: ArchiveWritePhase| #[trigger]
            read_total(new_told, phase) == read_total(told, phase) + share(
                ledger.active_phase,
                phase,
                described_total(codec, source.run().described),
            )
    }
}

/// A member that was drawn whole, within its limit, was reported whole.
pub proof fn drawn_members_are_told<C: MetadataProfile, S: RegularFileSource>(
    codec: &C,
    source: S,
    limit: u64,
    drawn: int,
    ledger: SourceProgressState,
    told: Seq<ProgressEvent>,
    new_ledger: SourceProgressState,
    new_told: Seq<ProgressEvent>,
)
    requires
        source.steady() ==> {
            &&& reports(path_of(source), limit, drawn, ledger, told, new_ledger, new_told)
            &&& drawn == described_total(codec, source.run().described)
            &&& drawn <= limit
        },
    ensures
        tells_member(codec, source, ledger, told, new_ledger, new_told),
{
    reveal(tells_member);
    reveal(reports);
}

/// Whether the first `count` of all sources were reported whole.
#[verifier::opaque]
pub open spec fn tells_members<C: MetadataProfile, S: RegularFileSource>(
    codec: &C,
    files: Seq<S>,
    count: nat,
    ledger: SourceProgressState,
    told: Seq<ProgressEvent>,
    new_ledger: SourceProgressState,
    new_told: Seq<ProgressEvent>,
) -> bool {
    are_countable(files) && is_fresh(ledger, files) ==> {
        &&& new_ledger.active_phase == ledger.active_phase
        &&& forall|i: int|
            count <= i < files.len() ==> new_ledger.reported_of(#[trigger] path_of(files[i])) == 0
        &&& forall|phase: ArchiveWritePhase| #[trigger]
            read_total(new_told, phase) == read_total(told, phase) + share(
                ledger.active_phase,
                phase,
                sources_total(codec, files, count),
            )
    }
}

pub proof fn no_members_are_told<C: MetadataProfile, S: RegularFileSource>(
    codec: &C,
    files: Seq<S>,
    ledger: SourceProgressState,
    told: Seq<ProgressEvent>,
)
    ensures
        tells_members(codec, files, 0, ledger, told, ledger, told),
{
    reveal(tells_members);
}

pub proof fn one_more_is_told<C: MetadataProfile, S: RegularFileSource>(
    codec: &C,
    files: Seq<S>,
    count: nat,
    ledger: SourceProgressState,
    told: Seq<ProgressEvent>,
    mid_ledger: SourceProgressState,
    mid_told: Seq<ProgressEvent>,
    new_ledger: SourceProgressState,
    new_told: Seq<ProgressEvent>,
)
    requires
        count < files.len(),
        tells_members(codec, files, count, ledger, told, mid_ledger, mid_told),
        tells_member(codec, files[count as int], mid_ledger, mid_told, new_ledger, new_told),
    ensures
        tells_members(codec, files, count + 1, ledger, told, new_ledger, new_told),
{
    reveal(tells_members);
    reveal(tells_member);
    if are_countable(files) && is_fresh(ledger, files) {
        let source = files[count as int];
        assert(source.steady());
        assert(mid_ledger.reported_of(path_of(source)) == 0);
        assert forall|i: int| count + 1 <= i < files.len() implies new_ledger.reported_of(
            #[trigger] path_of(files[i]),
        ) == 0 by {
            assert(path_of(files[i]) != path_of(source));
        }
        assert forall|phase: ArchiveWritePhase| #[trigger]
            read_total(new_told, phase) == read_total(told, phase) + share(
                ledger.active_phase,
                phase,
                sources_total(codec, files, count + 1),
            ) by {
            assert(read_total(mid_told, phase) == read_total(told, phase) + share(
                ledger.active_phase,
                phase,
                sources_total(codec, files, count),
            ));
        }
    }
}

/// Whether all sources were reported whole in a phase, and nothing else was.
#[verifier::opaque]
pub open spec fn tells_sources<C: MetadataProfile, S: RegularFileSource>(
    codec: &C,
    files: Seq<S>,
    ledger: SourceProgressState,
    told: Seq<ProgressEvent>,
    new_told: Seq<ProgressEvent>,
) -> bool {
    are_countable(files) && is_fresh(ledger, files) ==> forall|phase: ArchiveWritePhase| #[trigger]
        read_total(new_told, phase) == read_total(told, phase) + share(
            ledger.active_phase,
            phase,
            sources_total(codec, files, files.len()),
        )
}

/// What is told after all sources may add phases, not bytes.
pub proof fn all_members_are_told<C: MetadataProfile, S: RegularFileSource>(
    codec: &C,
    files: Seq<S>,
    ledger: SourceProgressState,
    told: Seq<ProgressEvent>,
    mid_ledger: SourceProgressState,
    mid_told: Seq<ProgressEvent>,
    new_told: Seq<ProgressEvent>,
)
    requires
        tells_members(codec, files, files.len(), ledger, told, mid_ledger, mid_told),
        forall|phase: ArchiveWritePhase| #[trigger]
            read_total(new_told, phase) == read_total(mid_told, phase),
    ensures
        tells_sources(codec, files, ledger, told, new_told),
{
    reveal(tells_members);
    reveal(tells_sources);
}

/// Whether an observer was told of `plannings` readings of all sources for plans and of
/// `writings` for the archive, if the sources stay as they are and have paths of their own.
pub open spec fn counts_readings<C: MetadataProfile, S: RegularFileSource>(
    codec: &C,
    files: Seq<S>,
    plannings: nat,
    writings: nat,
    told: Seq<ProgressEvent>,
    new_told: Seq<ProgressEvent>,
) -> bool {
    are_countable(files) ==> {
        let total = sources_total(codec, files, files.len());
        &&& read_total(new_told, ArchiveWritePhase::PlanningPayload) == read_total(
            told,
            ArchiveWritePhase::PlanningPayload,
        ) + plannings * total
        &&& read_total(new_told, ArchiveWritePhase::EmittingPayload) == read_total(
            told,
            ArchiveWritePhase::EmittingPayload,
        ) + writings * total
        &&& read_total(new_told, ArchiveWritePhase::PlanningMetadata) == read_total(
            told,
            ArchiveWritePhase::PlanningMetadata,
        )
        &&& read_total(new_told, ArchiveWritePhase::EmittingMetadata) == read_total(
            told,
            ArchiveWritePhase::EmittingMetadata,
        )
    }
}

/// One reading of all sources in a phase that was just begun.
pub proof fn one_reading_is_counted<C: MetadataProfile, S: RegularFileSource>(
    codec: &C,
    files: Seq<S>,
    ledger: SourceProgressState,
    told: Seq<ProgressEvent>,
    mid_told: Seq<ProgressEvent>,
    new_told: Seq<ProgressEvent>,
)
    requires
        forall|path: Seq<char>| #[trigger] ledger.reported_of(path) == 0,
        forall|phase: ArchiveWritePhase| #[trigger]
            read_total(mid_told, phase) == read_total(told, phase),
        tells_sources(codec, files, ledger, mid_told, new_told),
    ensures
        ledger.active_phase == Some(ArchiveWritePhase::PlanningPayload) ==> counts_readings(
            codec,
            files,
            1,
            0,
            told,
            new_told,
        ),
        ledger.active_phase == Some(ArchiveWritePhase::EmittingPayload) ==> counts_readings(
            codec,
            files,
            0,
            1,
            told,
            new_told,
        ),
{
    reveal(tells_sources);
    assert(is_fresh(ledger, files));
    assert(forall|phase: ArchiveWritePhase| #[trigger]
        read_total(mid_told, phase) == read_total(told, phase));
    let total = sources_total(codec, files, files.len());
    assert(1 * total == total && 0 * total == 0) by (nonlinear_arith);
}

/// Readings that follow each other are counted together.
pub proof fn readings_add_up<C: MetadataProfile, S: RegularFileSource>(
    codec: &C,
    files: Seq<S>,
    plannings: nat,
    writings: nat,
    more_plannings: nat,
    more_writings: nat,
    told: Seq<ProgressEvent>,
    mid_told: Seq<ProgressEvent>,
    new_told: Seq<ProgressEvent>,
)
    requires
        counts_readings(codec, files, plannings, writings, told, mid_told),
        counts_readings(codec, files, more_plannings, more_writings, mid_told, new_told),
    ensures
        counts_readings(
            codec,
            files,
            plannings + more_plannings,
            writings + more_writings,
            told,
            new_told,
        ),
{
    let total = sources_total(codec, files, files.len());
    assert((plannings + more_plannings) * total == plannings * total + more_plannings * total)
        by (nonlinear_arith);
    assert((writings + more_writings) * total == writings * total + more_writings * total)
        by (nonlinear_arith);
}

} // verus!
