//! Telling how far the writer has come.
use crate::byte_map::ByteMap;
use crate::bytes::to_bytes;
use vstd::pervasive::arbitrary;
use vstd::prelude::*;

verus! {

/// One observable phase of archive creation.
#[derive(Debug, Clone, Copy, PartialEq, Eq, PartialOrd, Ord, Hash, Structural)]
pub enum ArchiveWritePhase {
    /// Reads and compresses source payloads to produce a deterministic archive plan.
    PlanningPayload,
    /// Builds index and other metadata plans after the payload layout is known.
    PlanningMetadata,
    /// Reads, compresses, protects and writes the planned payload blocks.
    EmittingPayload,
    /// Protects and writes indexes, recovery metadata, footers and trailers.
    EmittingMetadata,
}

/// What an observer is told.
pub enum ProgressEvent {
    Started(ArchiveWritePhase),
    Read { phase: ArchiveWritePhase, path: Seq<char>, bytes: u64 },
}

/// Receives phase-native progress while the archive writer consumes file data.
///
/// Multi-pass writers report source bytes separately for planning and emission. Automatic
/// volume-size replanning may start `PlanningPayload` and `PlanningMetadata` more than once. Each
/// call of `phase_started` begins a new phase occurrence; within that occurrence, one archive
/// member reports at most its primary source bytes plus its declared streamed auxiliary payload
/// bytes. An observer outside verified code leaves `events` out, which then stands for what it was
/// told.
pub trait ArchiveWriteProgressSink {
    /// What the observer was told so far.
    closed spec fn events(&self) -> Seq<ProgressEvent> {
        arbitrary()
    }

    /// Reports that the writer entered a new creation phase.
    fn phase_started(&mut self, phase: ArchiveWritePhase)
        ensures
            final(self).events() == old(self).events().push(ProgressEvent::Started(phase)),
    ;

    /// Reports source bytes consumed within one specific writer phase.
    fn source_bytes_read(&mut self, phase: ArchiveWritePhase, archive_path: &str, bytes: u64)
        ensures
            final(self).events() == old(self).events().push(
                ProgressEvent::Read { phase, path: archive_path@, bytes },
            ),
    ;
}

/// The phases among what an observer was told, in order.
pub open spec fn phases_of(events: Seq<ProgressEvent>) -> Seq<ArchiveWritePhase>
    decreases events.len(),
{
    if events.len() == 0 {
        Seq::empty()
    } else {
        let before = phases_of(events.drop_last());
        match events.last() {
            ProgressEvent::Started(phase) => before.push(phase),
            ProgressEvent::Read { .. } => before,
        }
    }
}

/// Source bytes that an observer was told of in a phase.
pub open spec fn read_total(events: Seq<ProgressEvent>, phase: ArchiveWritePhase) -> int
    decreases events.len(),
{
    if events.len() == 0 {
        0
    } else {
        read_total(events.drop_last(), phase) + match events.last() {
            ProgressEvent::Started(_) => 0,
            ProgressEvent::Read { phase: told_in, bytes, .. } => if told_in == phase {
                bytes as int
            } else {
                0
            },
        }
    }
}

/// An observer that passes nothing on.
pub struct Unobserved {
    pub told: Ghost<Seq<ProgressEvent>>,
}

impl Unobserved {
    pub fn new() -> (r: Unobserved)
        ensures
            r.events() == Seq::<ProgressEvent>::empty(),
    {
        Unobserved { told: Ghost(Seq::empty()) }
    }
}

impl ArchiveWriteProgressSink for Unobserved {
    open spec fn events(&self) -> Seq<ProgressEvent> {
        self.told@
    }

    fn phase_started(&mut self, phase: ArchiveWritePhase) {
        self.told = Ghost(self.told@.push(ProgressEvent::Started(phase)));
    }

    fn source_bytes_read(&mut self, phase: ArchiveWritePhase, archive_path: &str, bytes: u64) {
        self.told = Ghost(
            self.told@.push(ProgressEvent::Read { phase, path: archive_path@, bytes }),
        );
    }
}

/// Bytes that a phase has reported of a path.
pub open spec fn reported(map: Map<Seq<u8>, u64>, path: Seq<u8>) -> u64 {
    if map.dom().contains(path) {
        map[path]
    } else {
        0
    }
}

/// What the report of `bytes` adds: no more than what the member has left to report.
pub open spec fn report_delta(so_far: int, bytes: int, file_data_size: int) -> int {
    if so_far + bytes <= file_data_size {
        bytes
    } else if so_far < file_data_size {
        file_data_size - so_far
    } else {
        0
    }
}

/// The running phase, what it has reported of each path, and the paths whose sources were opened so
/// far, in any phase.
pub struct SourceProgressState {
    pub active_phase: Option<ArchiveWritePhase>,
    pub phase_reported_by_path: ByteMap<u64>,
    pub opened: Ghost<Seq<Seq<char>>>,
}

impl SourceProgressState {
    pub open spec fn wf(&self) -> bool {
        self.phase_reported_by_path.wf()
    }

    /// Bytes that the running phase has reported of a path.
    pub open spec fn reported_of(&self, path: Seq<char>) -> u64 {
        reported(self.phase_reported_by_path.contents(), vstd::utf8::encode_utf8(path))
    }

    pub fn new() -> (r: Self)
        ensures
            r.wf(),
            r.active_phase is None,
            r.opened@ == Seq::<Seq<char>>::empty(),
            forall|path: Seq<char>| #[trigger] r.reported_of(path) == 0,
    {
        SourceProgressState {
            active_phase: None,
            phase_reported_by_path: ByteMap::new(),
            opened: Ghost(Seq::empty()),
        }
    }

    /// Begins an occurrence of a phase, of which nothing has been reported.
    pub fn start_phase<P: ArchiveWriteProgressSink>(
        &mut self,
        sink: &mut P,
        phase: ArchiveWritePhase,
    )
        ensures
            final(self).wf(),
            final(self).active_phase == Some(phase),
            final(self).opened == old(self).opened,
            forall|path: Seq<char>| #[trigger] final(self).reported_of(path) == 0,
            final(sink).events() == old(sink).events().push(ProgressEvent::Started(phase)),
            phases_of(final(sink).events()) == phases_of(old(sink).events()).push(phase),
            forall|p: ArchiveWritePhase| #[trigger]
                read_total(final(sink).events(), p) == read_total(old(sink).events(), p),
    {
        self.active_phase = Some(phase);
        self.phase_reported_by_path = ByteMap::new();
        sink.phase_started(phase);
        assert(sink.events().drop_last() =~= old(sink).events());
    }

    /// Reports bytes of a member, as far as the phase has not reported all of it before.
    pub fn record<P: ArchiveWriteProgressSink>(
        &mut self,
        sink: &mut P,
        archive_path: &str,
        bytes: u64,
        file_data_size: u64,
    )
        requires
            old(self).wf(),
        ensures
            final(self).wf(),
            final(self).opened == old(self).opened,
            final(self).active_phase == old(self).active_phase,
            phases_of(final(sink).events()) == phases_of(old(sink).events()),
            ({
                let delta = report_delta(
                    old(self).reported_of(archive_path@) as int,
                    bytes as int,
                    file_data_size as int,
                );
                match old(self).active_phase {
                    Some(phase) if delta > 0 => {
                        &&& final(self).reported_of(archive_path@) == old(self).reported_of(
                            archive_path@,
                        ) + delta
                        &&& final(sink).events() == old(sink).events().push(
                            ProgressEvent::Read {
                                phase,
                                path: archive_path@,
                                bytes: delta as u64,
                            },
                        )
                    },
                    _ => {
                        &&& final(self).reported_of(archive_path@) == old(self).reported_of(
                            archive_path@,
                        )
                        &&& final(sink).events() == old(sink).events()
                    },
                }
            }),
            forall|other: Seq<char>|
                vstd::utf8::encode_utf8(other) != vstd::utf8::encode_utf8(archive_path@)
                    ==> #[trigger] final(self).reported_of(other) == old(self).reported_of(other),
            reports(
                archive_path@,
                file_data_size,
                bytes as int,
                *old(self),
                old(sink).events(),
                *final(self),
                final(sink).events(),
            ),
    {
        proof {
            reveal(reports);
            reports_of_nothing(archive_path@, file_data_size, *self, sink.events());
        }
        if bytes == 0 || file_data_size == 0 {
            return;
        }
        if let Some(phase) = self.active_phase {
            let key: &[u8] = archive_path.as_bytes();
            let phase_reported: u64 = match self.phase_reported_by_path.get(key) {
                Some(value) => *value,
                None => 0,
            };
            let next: u64 = phase_reported.saturating_add(bytes);
            let capped_next: u64 = if next < file_data_size {
                next
            } else {
                file_data_size
            };
            let delta: u64 = capped_next.saturating_sub(phase_reported);
            if delta > 0 {
                self.phase_reported_by_path.insert(to_bytes(key), capped_next);
                sink.source_bytes_read(phase, archive_path, delta);
                assert(sink.events().drop_last() =~= old(sink).events());
                assert forall|other: Seq<char>| other != archive_path@ implies #[trigger] self.reported_of(
                    other,
                ) == old(self).reported_of(other) by {
                    vstd::utf8::encode_utf8_decode_utf8(other);
                    vstd::utf8::encode_utf8_decode_utf8(archive_path@);
                }
            }
        }
    }
}

/// Whether `after` is `before` with reports of bytes of a path in a phase behind it.
pub open spec fn adds_reads(
    before: Seq<ProgressEvent>,
    after: Seq<ProgressEvent>,
    phase: Option<ArchiveWritePhase>,
    path: Seq<char>,
) -> bool {
    &&& before.len() <= after.len()
    &&& forall|k: int| 0 <= k < before.len() ==> #[trigger] after[k] == before[k]
    &&& forall|k: int|
        before.len() <= k < after.len() ==> match #[trigger] after[k] {
            ProgressEvent::Started(_) => false,
            ProgressEvent::Read { phase: told_in, path: of, .. } => phase == Some(told_in) && of
                == path,
        }
}

/// Whether `bytes` that were read of a path were reported: as many of them as the running phase
/// had not reported before, up to a limit for the path.
#[verifier::opaque]
pub open spec fn reports(
    path: Seq<char>,
    limit: u64,
    bytes: int,
    ledger: SourceProgressState,
    told: Seq<ProgressEvent>,
    new_ledger: SourceProgressState,
    new_told: Seq<ProgressEvent>,
) -> bool {
    let delta = if ledger.active_phase is Some {
        report_delta(ledger.reported_of(path) as int, bytes, limit as int)
    } else {
        0
    };
    &&& new_ledger.active_phase == ledger.active_phase
    &&& new_ledger.reported_of(path) == ledger.reported_of(path) + delta
    &&& forall|other: Seq<char>|
        other != path ==> #[trigger] new_ledger.reported_of(other) == ledger.reported_of(other)
    &&& adds_reads(told, new_told, ledger.active_phase, path)
    &&& forall|phase: ArchiveWritePhase| #[trigger]
        read_total(new_told, phase) == read_total(told, phase) + if ledger.active_phase == Some(
            phase,
        ) {
            delta
        } else {
            0
        }
}

pub proof fn reports_of_nothing(
    path: Seq<char>,
    limit: u64,
    ledger: SourceProgressState,
    told: Seq<ProgressEvent>,
)
    ensures
        reports(path, limit, 0, ledger, told, ledger, told),
{
    reveal(reports);
}

/// Which sources were opened has no part in what is reported.
pub proof fn reports_ignore_openings(
    path: Seq<char>,
    limit: u64,
    bytes: int,
    ledger: SourceProgressState,
    told: Seq<ProgressEvent>,
    new_ledger: SourceProgressState,
    new_told: Seq<ProgressEvent>,
    other: SourceProgressState,
    new_other: SourceProgressState,
)
    requires
        reports(path, limit, bytes, ledger, told, new_ledger, new_told),
        other.active_phase == ledger.active_phase,
        other.phase_reported_by_path == ledger.phase_reported_by_path,
        new_other.active_phase == new_ledger.active_phase,
        new_other.phase_reported_by_path == new_ledger.phase_reported_by_path,
    ensures
        reports(path, limit, bytes, other, told, new_other, new_told),
{
    reveal(reports);
    assert forall|p: Seq<char>| #[trigger] other.reported_of(p) == ledger.reported_of(p) by {
    }
    assert forall|p: Seq<char>| p != path implies #[trigger] new_other.reported_of(p)
        == other.reported_of(p) by {
        assert(new_ledger.reported_of(p) == ledger.reported_of(p));
    }
}

/// The reports of two reads are the report of both.
pub proof fn reports_join(
    path: Seq<char>,
    limit: u64,
    first: int,
    second: int,
    a: SourceProgressState,
    told_a: Seq<ProgressEvent>,
    b: SourceProgressState,
    told_b: Seq<ProgressEvent>,
    c: SourceProgressState,
    told_c: Seq<ProgressEvent>,
)
    requires
        first >= 0,
        second >= 0,
        reports(path, limit, first, a, told_a, b, told_b),
        reports(path, limit, second, b, told_b, c, told_c),
    ensures
        reports(path, limit, first + second, a, told_a, c, told_c),
{
    reveal(reports);
    assert forall|k: int| 0 <= k < told_a.len() implies #[trigger] told_c[k] == told_a[k] by {
        assert(told_b[k] == told_a[k]);
    }
    assert forall|k: int| told_a.len() <= k < told_c.len() implies match #[trigger] told_c[k] {
        ProgressEvent::Started(_) => false,
        ProgressEvent::Read { phase: told_in, path: of, .. } => a.active_phase == Some(told_in)
            && of == path,
    } by {
        if k < told_b.len() {
            assert(told_c[k] == told_b[k]);
        }
    }
    assert forall|other: Seq<char>| other != path implies #[trigger] c.reported_of(other)
        == a.reported_of(other) by {
        assert(b.reported_of(other) == a.reported_of(other));
    }
    assert forall|phase: ArchiveWritePhase| #[trigger]
        read_total(told_c, phase) == read_total(told_a, phase) + if a.active_phase == Some(phase) {
            c.reported_of(path) - a.reported_of(path)
        } else {
            0
        } by {
        assert(read_total(told_b, phase) == read_total(told_b, phase));
    }
}

/// However often a path is read in a phase, the phase reports what was read of it, and no more
/// than its declared size.
pub proof fn phases_report_the_lesser_size(
    path: Seq<char>,
    limit: u64,
    bytes: int,
    phase: ArchiveWritePhase,
    ledger: SourceProgressState,
    told: Seq<ProgressEvent>,
    new_ledger: SourceProgressState,
    new_told: Seq<ProgressEvent>,
)
    requires
        bytes >= 0,
        ledger.active_phase == Some(phase),
        ledger.reported_of(path) == 0,
        reports(path, limit, bytes, ledger, told, new_ledger, new_told),
    ensures
        read_total(new_told, phase) - read_total(told, phase) == if bytes <= limit {
            bytes
        } else {
            limit as int
        },
{
    reveal(reports);
}

/// A phase never reports more of a member than the member has.
pub proof fn reports_stay_within_the_member(so_far: int, bytes: int, file_data_size: int)
    requires
        bytes >= 0,
        so_far <= file_data_size,
    ensures
        so_far + report_delta(so_far, bytes, file_data_size) <= file_data_size,
        report_delta(so_far, bytes, file_data_size) >= 0,
{
}

/// Reporting bytes in two parts adds as much as reporting them at once.
pub proof fn reports_add_up(so_far: int, first: int, second: int, file_data_size: int)
    requires
        first >= 0,
        second >= 0,
    ensures
        report_delta(so_far, first + second, file_data_size) == report_delta(
            so_far,
            first,
            file_data_size,
        ) + report_delta(
            so_far + report_delta(so_far, first, file_data_size),
            second,
            file_data_size,
        ),
{
}

} // verus!
