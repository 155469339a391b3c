//! Failures that planning, laying out or emitting an archive can report.
use crate::format::{AeadAlgo, KdfAlgo};
use vstd::prelude::*;

verus! {

/// Why an archive cannot be planned or laid out.
#[derive(Debug, Clone, Copy, PartialEq, Eq)]
pub enum FormatError {
    /// The request is outside what the writer supports; the text names the limit.
    WriterUnsupported(&'static str),
    /// Two parts of the writer disagree; the text names the broken agreement.
    WriterInvariant(&'static str),
    /// The key-derivation parameters cannot be recorded.
    InvalidKdfParams(&'static str),
    /// A stored structure contradicts itself.
    InvalidArchive(&'static str),
    /// The cipher and the key-derivation scheme cannot be combined.
    InvalidProtectionMode { aead_algo: AeadAlgo, kdf_algo: KdfAlgo },
    /// A reader with the stated cap would refuse the archive.
    ReaderResourceLimitExceeded { field: &'static str, cap: u64, actual: u64 },
}

/// A failed exchange with a source or a sink.
#[derive(Debug, Clone, Copy, PartialEq, Eq)]
pub enum IoError {
    UnexpectedEof(&'static str),
    InvalidData(&'static str),
    Other(&'static str),
}

/// Why writing an archive stopped.
#[derive(Debug, Clone, Copy, PartialEq, Eq)]
pub enum ArchiveWriteError {
    Format(FormatError),
    Io(IoError),
}

/// Whether `r` and `s` are the same outcome, bytes compared by content.
pub open spec fn bytes_agree<E>(r: Result<Vec<u8>, E>, s: Result<Seq<u8>, E>) -> bool {
    match (r, s) {
        (Ok(v), Ok(w)) => v@ == w,
        (Err(e), Err(f)) => e == f,
        _ => false,
    }
}

} // verus!
