//! Where the data of archive members comes from.
use crate::errors::{ArchiveWriteError, FormatError, IoError};
use crate::metadata::{
    ArchiveTimestamp, NativeAuxiliaryMetadata, PortableFileMetadata, PortableValue, SourceEntryKind,
};
use crate::sparse::SparseExtent;
use vstd::pervasive::arbitrary;
use vstd::prelude::*;

verus! {

/// All that a reader hands over: its bytes, then its end or a failure.
pub struct Answer {
    pub data: Seq<u8>,
    pub failure: Option<IoError>,
}

impl Answer {
    /// Bytes that end without a failure.
    pub open spec fn whole(data: Seq<u8>) -> Answer {
        Answer { data, failure: None }
    }

    /// A reader that could not be had.
    pub open spec fn refused(e: IoError) -> Answer {
        Answer { data: Seq::empty(), failure: Some(e) }
    }

    /// What is left after `n` bytes.
    pub open spec fn after(self, n: int) -> Answer {
        Answer { data: self.data.skip(n), failure: self.failure }
    }
}

/// Hands over the bytes of one source, in order.
pub trait SourceReader {
    /// Whether `answer` says what the reader hands over.
    closed spec fn steady(&self) -> bool {
        false
    }

    /// What the reader has still to hand over.
    closed spec fn answer(&self) -> Answer {
        arbitrary()
    }

    /// The most bytes that may be asked for at once. A reader that leaves it out takes requests of
    /// any size.
    open spec fn most(&self) -> nat {
        usize::MAX as nat
    }

    /// The next bytes, at most `max` of them. No bytes mean the end, where some were asked for.
    fn read(&mut self, max: usize) -> (r: Result<Vec<u8>, IoError>)
        requires
            max <= old(self).most(),
        ensures
            final(self).most() == old(self).most(),
            r matches Ok(bytes) ==> bytes@.len() <= max,
            old(self).steady() ==> final(self).steady() && match r {
                Ok(bytes) => {
                    &&& bytes@.len() <= old(self).answer().data.len()
                    &&& bytes@ == old(self).answer().data.take(bytes@.len() as int)
                    &&& final(self).answer() == old(self).answer().after(bytes@.len() as int)
                    &&& max > 0 && bytes@.len() == 0 ==> old(self).answer() == Answer::whole(
                        Seq::empty(),
                    )
                },
                Err(e) => old(self).answer() == Answer::refused(e),
            },
    ;
}

/// What a source says of its member.
pub struct Described {
    pub path: Seq<char>,
    pub entry_kind: SourceEntryKind,
    pub link_target: Option<Seq<u8>>,
    pub file_data_size: u64,
    pub sparse_extents: Option<Seq<SparseExtent>>,
    pub mode: u32,
    pub mtime: ArchiveTimestamp,
    pub metadata: PortableValue,
}

/// All that a source contributes to an archive.
pub struct SourceRun {
    pub described: Described,
    pub primary: Answer,
    /// What the streamed payload of each ordinal hands over.
    pub auxiliary: spec_fn(int) -> Answer,
}

/// The failure that a reader reports for a source that cannot be opened.
pub open spec fn open_failure(e: ArchiveWriteError) -> IoError {
    match e {
        ArchiveWriteError::Io(IoError::UnexpectedEof(text)) => IoError::Other(text),
        ArchiveWriteError::Io(IoError::InvalidData(text)) => IoError::Other(text),
        ArchiveWriteError::Io(IoError::Other(text)) => IoError::Other(text),
        ArchiveWriteError::Format(FormatError::WriterUnsupported(text)) => IoError::Other(text),
        ArchiveWriteError::Format(FormatError::WriterInvariant(text)) => IoError::Other(text),
        ArchiveWriteError::Format(FormatError::InvalidKdfParams(text)) => IoError::Other(text),
        ArchiveWriteError::Format(FormatError::InvalidArchive(text)) => IoError::Other(text),
        ArchiveWriteError::Format(FormatError::InvalidProtectionMode { .. }) => IoError::Other(
            "protection mode",
        ),
        ArchiveWriteError::Format(
            FormatError::ReaderResourceLimitExceeded { field, .. },
        ) => IoError::Other(field),
    }
}

pub fn opening_failure(error: ArchiveWriteError) -> (r: IoError)
    ensures
        r == open_failure(error),
{
    match error {
        ArchiveWriteError::Io(IoError::UnexpectedEof(text)) => IoError::Other(text),
        ArchiveWriteError::Io(IoError::InvalidData(text)) => IoError::Other(text),
        ArchiveWriteError::Io(IoError::Other(text)) => IoError::Other(text),
        ArchiveWriteError::Format(FormatError::WriterUnsupported(text)) => IoError::Other(text),
        ArchiveWriteError::Format(FormatError::WriterInvariant(text)) => IoError::Other(text),
        ArchiveWriteError::Format(FormatError::InvalidKdfParams(text)) => IoError::Other(text),
        ArchiveWriteError::Format(FormatError::InvalidArchive(text)) => IoError::Other(text),
        ArchiveWriteError::Format(FormatError::InvalidProtectionMode { .. }) => IoError::Other(
            "protection mode",
        ),
        ArchiveWriteError::Format(
            FormatError::ReaderResourceLimitExceeded { field, .. },
        ) => IoError::Other(field),
    }
}

/// Whether an attempt to open a reader went as `answer` says.
pub open spec fn opens<'a>(
    r: Result<Box<dyn SourceReader + 'a>, ArchiveWriteError>,
    answer: Answer,
) -> bool {
    match r {
        Ok(reader) => reader.steady() && reader.answer() == answer,
        Err(e) => answer == Answer::refused(open_failure(e)),
    }
}

/// A member to be archived. A steady source says and hands over the same whenever it is asked;
/// of any other one nothing is known before it has answered. A source of a plain file is `Regular`,
/// has neither a link target nor sparse extents, carries `PortableFileMetadata::default()`, and
/// opens what is inline with `open_inline_auxiliary`.
pub trait RegularFileSource {
    closed spec fn steady(&self) -> bool {
        false
    }

    /// What a steady source contributes.
    closed spec fn run(&self) -> SourceRun {
        arbitrary()
    }

    /// The most bytes that may be asked of its readers at once. A source that leaves it out takes
    /// requests of any size.
    open spec fn most(&self) -> nat {
        usize::MAX as nat
    }

    fn archive_path(&self) -> (r: &str)
        ensures
            self.steady() ==> r@ == self.run().described.path,
    ;

    fn entry_kind(&self) -> (r: SourceEntryKind)
        ensures
            self.steady() ==> r == self.run().described.entry_kind,
    ;

    /// Link target bytes for a symbolic-link or hardlink source.
    fn link_target(&self) -> (r: Option<&[u8]>)
        ensures
            self.steady() ==> crate::options::opt_bytes(r) == self.run().described.link_target,
    ;

    fn file_data_size(&self) -> (r: u64)
        ensures
            self.steady() ==> r == self.run().described.file_data_size,
    ;

    /// Canonical allocated extents for a sparse regular file.
    ///
    /// `file_data_size` remains the logical size. Where this returns `Some`, `open` must yield
    /// exactly the concatenated extent bytes in ascending map order. `Some(&[])` stands for a file
    /// that is one hole.
    fn sparse_extents(&self) -> (r: Option<&[SparseExtent]>)
        ensures
            self.steady() ==> crate::member::opt_extent_slice(r)
                == self.run().described.sparse_extents,
    ;

    fn mode(&self) -> (r: u32)
        ensures
            self.steady() ==> r == self.run().described.mode,
    ;

    fn mtime(&self) -> (r: ArchiveTimestamp)
        ensures
            self.steady() ==> r == self.run().described.mtime,
    ;

    fn portable_metadata(&self) -> (r: PortableFileMetadata)
        ensures
            self.steady() ==> r@ == self.run().described.metadata,
    ;

    /// A fresh reader of the data.
    fn open<'a>(&'a self) -> (r: Result<Box<dyn SourceReader + 'a>, ArchiveWriteError>)
        ensures
            self.steady() ==> opens(r, self.run().primary),
            r matches Ok(reader) ==> reader.most() >= self.most(),
    ;

    /// A fresh reader of a streamed auxiliary payload, by its canonical ordinal.
    fn open_auxiliary<'a>(&'a self, ordinal: usize) -> (r: Result<
        Box<dyn SourceReader + 'a>,
        ArchiveWriteError,
    >)
        ensures
            self.steady() ==> opens(r, (self.run().auxiliary)(ordinal as int)),
            r matches Ok(reader) ==> reader.most() >= self.most(),
    ;
}

/// Whether as many bytes may be asked of each source at once.
pub open spec fn take_requests<S: RegularFileSource>(files: Seq<S>, size: int) -> bool {
    forall|i: int| 0 <= i < files.len() ==> (#[trigger] files[i]).most() >= size
}

/// Whether a source can have contributed `run`.
pub open spec fn may_run<S: RegularFileSource>(source: &S, run: SourceRun) -> bool {
    source.steady() ==> run == source.run()
}

// ---------------------------------------------------------------------------------------------
// Files in memory
// ---------------------------------------------------------------------------------------------

/// Reads bytes that are in memory.
pub struct BytesReader<'a> {
    pub bytes: &'a [u8],
    pub position: usize,
}

impl<'a> BytesReader<'a> {
    pub fn new(bytes: &'a [u8]) -> (r: BytesReader<'a>)
        ensures
            r.bytes == bytes,
            r.position == 0,
            r.steady(),
            r.answer() == Answer::whole(bytes@),
    {
        assert(bytes@.skip(0) =~= bytes@);
        BytesReader { bytes, position: 0 }
    }
}

impl<'a> SourceReader for BytesReader<'a> {
    open spec fn steady(&self) -> bool {
        self.position <= self.bytes@.len()
    }

    open spec fn answer(&self) -> Answer {
        Answer::whole(self.bytes@.skip(self.position as int))
    }

    fn read(&mut self, max: usize) -> (r: Result<Vec<u8>, IoError>) {
        if self.position >= self.bytes.len() {
            proof {
                if self.steady() {
                    assert(self.bytes@.skip(self.position as int) =~= Seq::<u8>::empty());
                    assert(self.answer().after(0).data =~= self.answer().data);
                }
            }
            let none: Vec<u8> = Vec::new();
            assert(none@ =~= old(self).answer().data.take(0));
            return Ok(none);
        }
        let left: usize = self.bytes.len() - self.position;
        let count: usize = if max < left {
            max
        } else {
            left
        };
        let end: usize = self.position + count;
        let out: Vec<u8> = crate::bytes::to_bytes(
            vstd::slice::slice_subrange(self.bytes, self.position, end),
        );
        self.position = end;
        proof {
            assert(out@ =~= old(self).answer().data.take(count as int));
            assert(self.answer().data =~= old(self).answer().data.skip(count as int));
            if max > 0 {
                assert(out@.len() > 0);
            }
        }
        Ok(out)
    }
}

/// A regular file whose contents are in memory.
#[derive(Debug, Clone)]
pub struct RegularFile<'a> {
    pub path: &'a str,
    pub contents: &'a [u8],
    pub mode: u32,
    pub mtime: ArchiveTimestamp,
    pub portable_metadata: PortableFileMetadata,
}

/// What the auxiliary records of a file in memory hand over. It has no streamed ones.
pub open spec fn inline_answer(metadata: PortableValue, ordinal: int) -> Answer {
    let records = metadata.native.auxiliary_records;
    if ordinal >= records.len() {
        Answer::refused(IoError::Other("auxiliary source ordinal is missing"))
    } else if records[ordinal].streamed_payload is Some {
        Answer::refused(IoError::Other("streamed auxiliary source did not implement open_auxiliary"))
    } else {
        Answer::whole(records[ordinal].payload)
    }
}

/// Whether a record is there and its payload at hand.
pub open spec fn is_inline(metadata: PortableValue, ordinal: int) -> bool {
    let records = metadata.native.auxiliary_records;
    ordinal < records.len() && records[ordinal].streamed_payload is None
}

/// A fresh reader of an inline auxiliary payload. A missing ordinal and a streamed record are
/// errors.
pub fn open_inline_auxiliary<'a>(metadata: &'a PortableFileMetadata, ordinal: usize) -> (r: Result<
    Box<dyn SourceReader + 'a>,
    ArchiveWriteError,
>)
    ensures
        opens(r, inline_answer(metadata@, ordinal as int)),
        r matches Ok(reader) ==> reader.most() == usize::MAX,
        r is Ok <==> is_inline(metadata@, ordinal as int),
{
    if ordinal >= metadata.native.auxiliary_records.len() {
        return Err(
            ArchiveWriteError::Format(
                FormatError::WriterInvariant("auxiliary source ordinal is missing"),
            ),
        );
    }
    let record: &NativeAuxiliaryMetadata = &metadata.native.auxiliary_records[ordinal];
    assert(metadata@.native.auxiliary_records[ordinal as int] == record@);
    if record.is_streamed() {
        return Err(
            ArchiveWriteError::Format(
                FormatError::WriterUnsupported(
                    "streamed auxiliary source did not implement open_auxiliary",
                ),
            ),
        );
    }
    Ok(Box::new(BytesReader::new(record.payload.as_slice())))
}

impl<'a> RegularFile<'a> {
    /// A file with mode 0644 and the epoch as its time.
    pub fn new(path: &'a str, contents: &'a [u8]) -> (r: RegularFile<'a>)
        ensures
            r.portable_metadata.wf(),
            r.path == path,
            r.contents == contents,
            r.mode == 420,
            r.mtime == (ArchiveTimestamp { seconds: 0, nanoseconds: 0 }),
            r.portable_metadata@ == crate::metadata::unknown_origin(),
    {
        RegularFile {
            path,
            contents,
            mode: 420,
            mtime: ArchiveTimestamp::unix_epoch(),
            portable_metadata: PortableFileMetadata::default(),
        }
    }
}

impl<'a> RegularFileSource for RegularFile<'a> {
    open spec fn steady(&self) -> bool {
        true
    }

    open spec fn run(&self) -> SourceRun {
        SourceRun {
            described: Described {
                path: self.path@,
                entry_kind: SourceEntryKind::Regular,
                link_target: None,
                file_data_size: self.contents@.len() as u64,
                sparse_extents: None,
                mode: self.mode,
                mtime: self.mtime,
                metadata: self.portable_metadata@,
            },
            primary: Answer::whole(self.contents@),
            auxiliary: |k: int| inline_answer(self.portable_metadata@, k),
        }
    }

    fn archive_path(&self) -> (r: &str) {
        self.path
    }

    fn entry_kind(&self) -> (r: SourceEntryKind) {
        SourceEntryKind::Regular
    }

    fn link_target(&self) -> (r: Option<&[u8]>) {
        None
    }

    fn file_data_size(&self) -> (r: u64) {
        self.contents.len() as u64
    }

    fn sparse_extents(&self) -> (r: Option<&[SparseExtent]>) {
        None
    }

    fn mode(&self) -> (r: u32) {
        self.mode
    }

    fn mtime(&self) -> (r: ArchiveTimestamp) {
        self.mtime
    }

    fn portable_metadata(&self) -> (r: PortableFileMetadata) {
        self.portable_metadata.in_order();
        self.portable_metadata.duplicate()
    }

    fn open<'b>(&'b self) -> (r: Result<Box<dyn SourceReader + 'b>, ArchiveWriteError>) {
        Ok(Box::new(BytesReader::new(self.contents)))
    }

    fn open_auxiliary<'b>(&'b self, ordinal: usize) -> (r: Result<
        Box<dyn SourceReader + 'b>,
        ArchiveWriteError,
    >)
        ensures
            r is Ok <==> is_inline(self.portable_metadata@, ordinal as int),
    {
        open_inline_auxiliary(&self.portable_metadata, ordinal)
    }
}

} // verus!
