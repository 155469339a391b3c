//! Where an archive is written to.
use crate::bytes::append;
use crate::errors::{ArchiveWriteError, FormatError};
use vstd::pervasive::arbitrary;
use vstd::prelude::*;

verus! {

/// Takes the volumes of an archive and its optional bootstrap sidecar.
///
/// Calls arrive in archive order for each volume, but records are interleaved across volumes
/// according to the stripe layout. A sink may refuse any call; one that is reliable refuses none
/// that names a volume of the archive. How many calls were refused, and whether the last one was,
/// together tell whether anything was asked of a sink after it refused a call. A sink outside
/// verified code leaves the specification functions out: they then stand for what it took and
/// refused, and it is not held to be reliable.
pub trait ArchiveWriteSink {
    /// The bytes of each volume so far.
    closed spec fn volumes(&self) -> Seq<Seq<u8>> {
        arbitrary()
    }

    /// The bytes of the sidecar so far.
    closed spec fn sidecar(&self) -> Seq<u8> {
        arbitrary()
    }

    /// Whether the sink takes everything that belongs to the archive.
    closed spec fn reliable(&self) -> bool {
        false
    }

    /// The error of the last call, if the sink refused it.
    closed spec fn refusal(&self) -> Option<ArchiveWriteError> {
        arbitrary()
    }

    /// How many calls the sink has refused so far.
    closed spec fn refusals(&self) -> nat {
        arbitrary()
    }

    fn begin_archive(&mut self, volume_count: usize) -> (r: Result<(), ArchiveWriteError>)
        ensures
            final(self).refusal() == failure_of(r),
            final(self).refusals() == old(self).refusals() + refusals_in(r),
            r is Ok ==> final(self).volumes() == Seq::new(
                volume_count as nat,
                |i: int| Seq::<u8>::empty(),
            ) && final(self).sidecar() == Seq::<u8>::empty(),
            old(self).reliable() ==> r is Ok && final(self).reliable(),
    ;

    fn write_volume(&mut self, volume_index: usize, bytes: &[u8]) -> (r: Result<
        (),
        ArchiveWriteError,
    >)
        ensures
            final(self).refusal() == failure_of(r),
            final(self).refusals() == old(self).refusals() + refusals_in(r),
            r is Ok ==> {
                &&& volume_index < old(self).volumes().len()
                &&& final(self).volumes() == old(self).volumes().update(
                    volume_index as int,
                    old(self).volumes()[volume_index as int] + bytes@,
                )
                &&& final(self).sidecar() == old(self).sidecar()
            },
            old(self).reliable() ==> final(self).reliable() && (volume_index < old(
                self,
            ).volumes().len() ==> r is Ok),
    ;

    fn write_bootstrap_sidecar(&mut self, bytes: &[u8]) -> (r: Result<(), ArchiveWriteError>)
        ensures
            final(self).refusal() == failure_of(r),
            final(self).refusals() == old(self).refusals() + refusals_in(r),
            r is Ok ==> final(self).volumes() == old(self).volumes() && final(self).sidecar()
                == old(self).sidecar() + bytes@,
            old(self).reliable() ==> r is Ok && final(self).reliable(),
    ;
}

/// The error of a result.
pub open spec fn failure_of<T>(r: Result<T, ArchiveWriteError>) -> Option<ArchiveWriteError> {
    match r {
        Ok(_) => None,
        Err(e) => Some(e),
    }
}

/// How many refusals a result tells of.
pub open spec fn refusals_in<T>(r: Result<T, ArchiveWriteError>) -> nat {
    if r is Err {
        1
    } else {
        0
    }
}

/// What a sink has to do with whether writing succeeds.
pub struct Standing {
    pub reliable: bool,
    pub refusal: Option<ArchiveWriteError>,
    pub refusals: nat,
}

pub open spec fn standing<O: ArchiveWriteSink>(sink: O) -> Standing {
    Standing { reliable: sink.reliable(), refusal: sink.refusal(), refusals: sink.refusals() }
}

impl Standing {
    /// Whether the sink refused nothing up to `now`.
    pub open spec fn undisturbed(self, now: Standing) -> bool {
        self.reliable || now.refusals == self.refusals
    }

    /// Whether writing can go on: nothing was refused.
    pub open spec fn goes_on(self, now: Standing) -> bool {
        &&& self.reliable ==> now.reliable
        &&& now.refusals == self.refusals
    }

    /// Whether what the sink refused was handed on: it refused no more than one call, that call is
    /// the last one asked of it, and the error of that call is the failure. A reliable sink
    /// refuses nothing.
    pub open spec fn hands_on(self, now: Standing, failure: Option<ArchiveWriteError>) -> bool {
        &&& self.reliable ==> self.goes_on(now)
        &&& now.refusals != self.refusals ==> {
            &&& now.refusals == self.refusals + 1
            &&& now.refusal is Some
            &&& failure == now.refusal
        }
    }
}

/// Whether nothing was asked of a sink.
pub open spec fn is_untouched<O: ArchiveWriteSink>(first: O, sink: O) -> bool {
    &&& sink.volumes() == first.volumes()
    &&& sink.sidecar() == first.sidecar()
    &&& standing(sink) == standing(first)
}

/// Keeps an archive in memory.
#[derive(Debug, Clone, PartialEq, Eq)]
pub struct MemoryArchiveSink {
    pub volumes: Vec<Vec<u8>>,
    pub bootstrap_sidecar: Vec<u8>,
    /// The error of the last call, if it was refused.
    pub refused: Option<ArchiveWriteError>,
    /// The errors of all calls that were refused, in order.
    pub refusals: Vec<ArchiveWriteError>,
}

impl Default for MemoryArchiveSink {
    fn default() -> (r: Self)
        ensures
            r.volumes@.len() == 0,
            r.bootstrap_sidecar@.len() == 0,
            r.refused is None,
            r.refusals@.len() == 0,
    {
        MemoryArchiveSink {
            volumes: Vec::new(),
            bootstrap_sidecar: Vec::new(),
            refused: None,
            refusals: Vec::new(),
        }
    }
}

impl ArchiveWriteSink for MemoryArchiveSink {
    open spec fn volumes(&self) -> Seq<Seq<u8>> {
        crate::codec::contents_of(self.volumes@)
    }

    open spec fn sidecar(&self) -> Seq<u8> {
        self.bootstrap_sidecar@
    }

    open spec fn reliable(&self) -> bool {
        true
    }

    open spec fn refusal(&self) -> Option<ArchiveWriteError> {
        self.refused
    }

    open spec fn refusals(&self) -> nat {
        self.refusals@.len()
    }

    fn begin_archive(&mut self, volume_count: usize) -> (r: Result<(), ArchiveWriteError>) {
        let mut volumes: Vec<Vec<u8>> = Vec::new();
        let mut i: usize = 0;
        while i < volume_count
            invariant
                i <= volume_count,
                volumes@.len() == i,
                forall|k: int| 0 <= k < i ==> (#[trigger] volumes@[k])@ == Seq::<u8>::empty(),
            decreases volume_count - i,
        {
            volumes.push(Vec::new());
            i = i + 1;
        }
        self.volumes = volumes;
        self.bootstrap_sidecar = Vec::new();
        self.refused = None;
        assert(self.volumes() =~= Seq::new(volume_count as nat, |i: int| Seq::<u8>::empty()));
        assert(self.sidecar() =~= Seq::<u8>::empty());
        Ok(())
    }

    fn write_volume(&mut self, volume_index: usize, bytes: &[u8]) -> (r: Result<
        (),
        ArchiveWriteError,
    >)
        ensures
            r == (if volume_index < old(self).volumes().len() {
                Ok(())
            } else {
                Err(
                    ArchiveWriteError::Format(
                        FormatError::WriterInvariant("volume sink index is out of bounds"),
                    ),
                )
            }),
    {
        if volume_index >= self.volumes.len() {
            let refusal = ArchiveWriteError::Format(
                FormatError::WriterInvariant("volume sink index is out of bounds"),
            );
            self.refused = Some(refusal);
            self.refusals.push(refusal);
            return Err(refusal);
        }
        let mut volume: Vec<u8> = Vec::new();
        core::mem::swap(&mut volume, &mut self.volumes[volume_index]);
        append(&mut volume, bytes);
        self.volumes[volume_index] = volume;
        self.refused = None;
        assert(self.volumes() =~= old(self).volumes().update(
            volume_index as int,
            old(self).volumes()[volume_index as int] + bytes@,
        ));
        Ok(())
    }

    fn write_bootstrap_sidecar(&mut self, bytes: &[u8]) -> (r: Result<(), ArchiveWriteError>) {
        append(&mut self.bootstrap_sidecar, bytes);
        self.refused = None;
        Ok(())
    }
}

} // verus!
