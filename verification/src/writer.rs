//! Writing archives: to memory, or to a sink, from sources that are read twice or once.
use crate::bytes::to_bytes;
use crate::clock::WriterTimings;
use crate::codec::{contents_of, ArchiveCodec};
use crate::emit::lift;
use crate::errors::{ArchiveWriteError, FormatError};
use crate::format::AeadAlgo;
use crate::key_wrap::{
    answers_alike, recipient_wrap_kdf_params_for_record_count, KEY_WRAP_TABLE_VERSION,
    KeyWrapRecordSource,
};
use crate::keys::{KdfParams, MasterKey, NO_KEY};
use crate::options::{ReaderCaps, WriterOptions};
use crate::ordered::OrderedParallelState;
use crate::probe::{probes_order, write_unordered_probe_archive_to_sink};
use crate::profile::MetadataProfile;
use crate::progress::{
    phases_of, ArchiveWritePhase, ArchiveWriteProgressSink, SourceProgressState, Unobserved,
};
use crate::repeat::{fixed_identities_fix_the_archive, unsealed_archives_need_no_key};
use crate::root_auth::{always_answers, RootAuthSigningRequest, RootAuthWriterConfig};
use crate::single_pass::{
    carries_out_once, write_archive_once, write_single_pass_archive_to_sink, STREAM_CLASS_RULE,
};
use crate::sink::{failure_of, standing, ArchiveWriteSink, MemoryArchiveSink};
use crate::source::{take_requests, RegularFile, RegularFileSource};
use crate::streaming::StreamingArchiveWriter;
use crate::suffix::WrittenArchiveSummary;
use crate::tally::counts_readings;
use crate::two_pass::{carries_out, reports_passes, write_archive_stream_inner, ArchiveOrder};
use crate::wire::RecipientRecordV1;
use vstd::prelude::*;

verus! {

// ---------------------------------------------------------------------------------------------
// To memory
// ---------------------------------------------------------------------------------------------

/// An archive in memory. `bytes` is its first volume.
#[derive(Debug, Clone, PartialEq, Eq)]
pub struct WrittenArchive {
    pub bytes: Vec<u8>,
    pub volumes: Vec<Vec<u8>>,
    pub bootstrap_sidecar: Vec<u8>,
    pub archive_uuid: [u8; 16],
    pub session_id: [u8; 16],
    pub timings: WriterTimings,
}

/// A failure to write to memory. Memory does not fail.
pub open spec fn memory_failure(e: ArchiveWriteError) -> FormatError {
    match e {
        ArchiveWriteError::Format(e) => e,
        ArchiveWriteError::Io(_) => FormatError::WriterInvariant(
            "in-memory archive writer returned I/O",
        ),
    }
}

pub fn format_error_from_archive_write_error(error: ArchiveWriteError) -> (r: FormatError)
    ensures
        r == memory_failure(error),
{
    match error {
        ArchiveWriteError::Format(e) => e,
        ArchiveWriteError::Io(_) => FormatError::WriterInvariant(
            "in-memory archive writer returned I/O",
        ),
    }
}

/// Whether `r` is what a sink in memory holds after writing to it gave `written`.
pub open spec fn is_written_archive(
    sink: MemoryArchiveSink,
    written: Result<WrittenArchiveSummary, ArchiveWriteError>,
    r: Result<WrittenArchive, FormatError>,
) -> bool {
    match written {
        Err(e) => r == Err::<WrittenArchive, FormatError>(memory_failure(e)),
        Ok(summary) => if sink.volumes().len() == 0 {
            r == Err::<WrittenArchive, FormatError>(
                FormatError::WriterInvariant("no volumes emitted"),
            )
        } else {
            r matches Ok(archive) && {
                &&& archive.bytes@ == sink.volumes()[0]
                &&& contents_of(archive.volumes@) == sink.volumes()
                &&& archive.bootstrap_sidecar@ == sink.sidecar()
                &&& archive.archive_uuid == summary.archive_uuid
                &&& archive.session_id == summary.session_id
            }
        },
    }
}

/// Whether an order was carried out in memory as it should.
#[verifier::opaque]
pub open spec fn archives<
    'a,
    C: ArchiveCodec + MetadataProfile,
    F: FnOnce(&RootAuthSigningRequest) -> Result<Vec<u8>, FormatError>,
>(
    codec: &C,
    files: Seq<RegularFile<'a>>,
    order: ArchiveOrder,
    options: WriterOptions,
    authenticator: Option<F>,
    r: Result<WrittenArchive, FormatError>,
) -> bool {
    exists|
        first: MemoryArchiveSink,
        sink: MemoryArchiveSink,
        written: Result<WrittenArchiveSummary, ArchiveWriteError>,
    |
        {
            &&& #[trigger] carries_out(
                codec,
                files,
                order,
                options,
                authenticator,
                first,
                sink,
                written,
            )
            &&& is_written_archive(sink, written, r)
        }
}

/// Carries an order out in memory.
pub fn write_archive_inner<
    'a,
    C: ArchiveCodec + MetadataProfile,
    F: FnOnce(&RootAuthSigningRequest) -> Result<Vec<u8>, FormatError>,
>(
    codec: &C,
    files: &[RegularFile<'a>],
    order: &ArchiveOrder<'_>,
    options: WriterOptions,
    authenticator: Option<F>,
) -> (r: Result<WrittenArchive, FormatError>)
    requires
        authenticator matches Some(signer) ==> always_answers(signer),
    ensures
        archives(codec, files@, *order, options, authenticator, r),
{
    reveal(archives);
    let mut sink: MemoryArchiveSink = MemoryArchiveSink::default();
    let ghost first = sink;
    let mut progress: Unobserved = Unobserved::new();
    let written: Result<WrittenArchiveSummary, ArchiveWriteError> = write_archive_stream_inner(
        codec,
        files,
        order,
        options,
        authenticator,
        &mut sink,
        &mut progress,
    );
    assert(carries_out(codec, files@, *order, options, authenticator, first, sink, written));
    match written {
        Err(e) => Err(format_error_from_archive_write_error(e)),
        Ok(summary) => {
            if sink.volumes.len() == 0 {
                return Err(FormatError::WriterInvariant("no volumes emitted"));
            }
            let bytes: Vec<u8> = to_bytes(sink.volumes[0].as_slice());
            assert(contents_of(sink.volumes@)[0] == sink.volumes@[0]@);
            Ok(
                WrittenArchive {
                    bytes,
                    volumes: sink.volumes,
                    bootstrap_sidecar: sink.bootstrap_sidecar,
                    archive_uuid: summary.archive_uuid,
                    session_id: summary.session_id,
                    timings: summary.timings,
                },
            )
        },
    }
}

/// Signs nothing.
pub fn no_signer(request: &RootAuthSigningRequest) -> (r: Result<Vec<u8>, FormatError>)
    ensures
        r == Err::<Vec<u8>, FormatError>(
            FormatError::WriterInvariant("missing root-auth authenticator"),
        ),
{
    Err(FormatError::WriterInvariant("missing root-auth authenticator"))
}

/// The place of a signer like this one, left empty.
pub open spec fn nobody<F>(signer: F) -> Option<F> {
    None
}

pub fn leave_out<F>(signer: F) -> (r: Option<F>)
    ensures
        r == nobody(signer),
{
    None
}

/// Writes an archive under a raw key.
pub fn write_archive<'a, C: ArchiveCodec + MetadataProfile>(
    codec: &C,
    files: &[RegularFile<'a>],
    master_key: &MasterKey,
    options: WriterOptions,
    caps: &ReaderCaps,
) -> (r: Result<WrittenArchive, FormatError>)
    ensures
        archives(
            codec,
            files@,
            kdf_order(*master_key, &KdfParams::Raw, *caps),
            options,
            nobody(no_signer),
            r,
        ),
{
    let order = ArchiveOrder {
        master_key: *master_key,
        dictionary: None,
        kdf_params: &KdfParams::Raw,
        root_auth: None,
        key_wrap_records: None,
        caps: *caps,
    };
    write_archive_inner(codec, files, &order, options, leave_out(no_signer))
}

/// The parameters of a key that is wrapped for `count` recipients.
pub open spec fn wrap_kdf(count: nat) -> KdfParams {
    KdfParams::RecipientWrap {
        key_wrap_table_length: 0,
        key_wrap_table_record_count: count as u32,
        key_wrap_table_version: KEY_WRAP_TABLE_VERSION,
        key_wrap_table_digest: NO_KEY,
    }
}

pub open spec fn too_many_records() -> FormatError {
    FormatError::WriterUnsupported("KeyWrapTableV1 recipient_record_count")
}

/// Where the key of an archive comes from if nothing else is said.
pub open spec fn key_origin(aead_algo: AeadAlgo) -> KdfParams {
    if aead_algo.spec_is_encrypted() {
        KdfParams::Raw
    } else {
        KdfParams::NoKey
    }
}

/// Writes an archive that nothing in is sealed.
pub fn write_archive_unencrypted<'a, C: ArchiveCodec + MetadataProfile>(
    codec: &C,
    files: &[RegularFile<'a>],
    options: WriterOptions,
    caps: &ReaderCaps,
) -> (r: Result<WrittenArchive, FormatError>)
    ensures
        archives(
            codec,
            files@,
            kdf_order(MasterKey(NO_KEY), &KdfParams::NoKey, *caps),
            (WriterOptions { aead_algo: AeadAlgo::Unsealed, ..options }),
            nobody(no_signer),
            r,
        ),
{
    let mut options: WriterOptions = options;
    options.aead_algo = AeadAlgo::Unsealed;
    let placeholder: MasterKey = MasterKey::from_raw_key(&NO_KEY)?;
    let order = ArchiveOrder {
        master_key: placeholder,
        dictionary: None,
        kdf_params: &KdfParams::NoKey,
        root_auth: None,
        key_wrap_records: None,
        caps: *caps,
    };
    write_archive_inner(codec, files, &order, options, leave_out(no_signer))
}

/// Writes an archive under a key that comes from given parameters.
pub fn write_archive_with_kdf<'a, C: ArchiveCodec + MetadataProfile>(
    codec: &C,
    files: &[RegularFile<'a>],
    master_key: &MasterKey,
    options: WriterOptions,
    kdf_params: &KdfParams,
    caps: &ReaderCaps,
) -> (r: Result<WrittenArchive, FormatError>)
    ensures
        archives(
            codec,
            files@,
            kdf_order(*master_key, kdf_params, *caps),
            options,
            nobody(no_signer),
            r,
        ),
{
    let order = ArchiveOrder {
        master_key: *master_key,
        dictionary: None,
        kdf_params: kdf_params,
        root_auth: None,
        key_wrap_records: None,
        caps: *caps,
    };
    write_archive_inner(codec, files, &order, options, leave_out(no_signer))
}

/// Writes an archive whose key is wrapped for recipients.
pub fn write_archive_with_recipient_wrap_records<'a, C: ArchiveCodec + MetadataProfile>(
    codec: &C,
    files: &[RegularFile<'a>],
    master_key: &MasterKey,
    options: WriterOptions,
    records: Vec<RecipientRecordV1>,
    caps: &ReaderCaps,
) -> (r: Result<WrittenArchive, FormatError>)
    ensures
        if records@.len() > u32::MAX {
            r == Err::<WrittenArchive, FormatError>(too_many_records())
        } else {
            archives(
                codec,
                files@,
                (ArchiveOrder {
                    master_key: *master_key,
                    dictionary: None,
                    kdf_params: &wrap_kdf(records@.len()),
                    root_auth: None,
                    key_wrap_records: Some(&KeyWrapRecordSource::Fixed(records)),
                    caps: *caps,
                }),
                options,
                nobody(no_signer),
                r,
            )
        },
{
    let kdf_params: KdfParams = recipient_wrap_kdf_params_for_record_count(records.len())?;
    let key_wrap_records: KeyWrapRecordSource = KeyWrapRecordSource::fixed(records);
    let order = ArchiveOrder {
        master_key: *master_key,
        dictionary: None,
        kdf_params: &kdf_params,
        root_auth: None,
        key_wrap_records: Some(&key_wrap_records),
        caps: *caps,
    };
    write_archive_inner(codec, files, &order, options, leave_out(no_signer))
}

/// Writes a signed archive whose key is wrapped for recipients.
pub fn write_archive_with_root_auth_and_recipient_wrap_records<
    'a,
    C: ArchiveCodec + MetadataProfile,
    F: FnOnce(&RootAuthSigningRequest) -> Result<Vec<u8>, FormatError>,
>(
    codec: &C,
    files: &[RegularFile<'a>],
    master_key: &MasterKey,
    options: WriterOptions,
    records: Vec<RecipientRecordV1>,
    root_auth: RootAuthWriterConfig<'_>,
    authenticator: F,
    caps: &ReaderCaps,
) -> (r: Result<WrittenArchive, FormatError>)
    requires
        always_answers(authenticator),
    ensures
        if records@.len() > u32::MAX {
            r == Err::<WrittenArchive, FormatError>(too_many_records())
        } else {
            archives(
                codec,
                files@,
                (ArchiveOrder {
                    master_key: *master_key,
                    dictionary: None,
                    kdf_params: &wrap_kdf(records@.len()),
                    root_auth: Some(root_auth),
                    key_wrap_records: Some(&KeyWrapRecordSource::Fixed(records)),
                    caps: *caps,
                }),
                options,
                Some(authenticator),
                r,
            )
        },
{
    let kdf_params: KdfParams = recipient_wrap_kdf_params_for_record_count(records.len())?;
    let key_wrap_records: KeyWrapRecordSource = KeyWrapRecordSource::fixed(records);
    let order = ArchiveOrder {
        master_key: *master_key,
        dictionary: None,
        kdf_params: &kdf_params,
        root_auth: Some(root_auth),
        key_wrap_records: Some(&key_wrap_records),
        caps: *caps,
    };
    write_archive_inner(codec, files, &order, options, Some(authenticator))
}

/// Writes a signed archive.
pub fn write_archive_with_root_auth<
    'a,
    C: ArchiveCodec + MetadataProfile,
    F: FnOnce(&RootAuthSigningRequest) -> Result<Vec<u8>, FormatError>,
>(
    codec: &C,
    files: &[RegularFile<'a>],
    master_key: &MasterKey,
    options: WriterOptions,
    root_auth: RootAuthWriterConfig<'_>,
    authenticator: F,
    caps: &ReaderCaps,
) -> (r: Result<WrittenArchive, FormatError>)
    requires
        always_answers(authenticator),
    ensures
        archives(
            codec,
            files@,
            (ArchiveOrder {
                master_key: *master_key,
                dictionary: None,
                kdf_params: &key_origin(options.aead_algo),
                root_auth: Some(root_auth),
                key_wrap_records: None,
                caps: *caps,
            }),
            options,
            Some(authenticator),
            r,
        ),
{
    let kdf_params: KdfParams = if options.aead_algo.is_encrypted() {
        KdfParams::Raw
    } else {
        KdfParams::NoKey
    };
    let order = ArchiveOrder {
        master_key: *master_key,
        dictionary: None,
        kdf_params: &kdf_params,
        root_auth: Some(root_auth),
        key_wrap_records: None,
        caps: *caps,
    };
    write_archive_inner(codec, files, &order, options, Some(authenticator))
}

/// Writes a signed archive under a key that comes from given parameters.
pub fn write_archive_with_root_auth_and_kdf<
    'a,
    C: ArchiveCodec + MetadataProfile,
    F: FnOnce(&RootAuthSigningRequest) -> Result<Vec<u8>, FormatError>,
>(
    codec: &C,
    files: &[RegularFile<'a>],
    master_key: &MasterKey,
    options: WriterOptions,
    kdf_params: &KdfParams,
    root_auth: RootAuthWriterConfig<'_>,
    authenticator: F,
    caps: &ReaderCaps,
) -> (r: Result<WrittenArchive, FormatError>)
    requires
        always_answers(authenticator),
    ensures
        archives(
            codec,
            files@,
            (ArchiveOrder {
                master_key: *master_key,
                dictionary: None,
                kdf_params: kdf_params,
                root_auth: Some(root_auth),
                key_wrap_records: None,
                caps: *caps,
            }),
            options,
            Some(authenticator),
            r,
        ),
{
    let order = ArchiveOrder {
        master_key: *master_key,
        dictionary: None,
        kdf_params: kdf_params,
        root_auth: Some(root_auth),
        key_wrap_records: None,
        caps: *caps,
    };
    write_archive_inner(codec, files, &order, options, Some(authenticator))
}

/// Writes a signed archive whose frames are compressed with a dictionary.
pub fn write_archive_with_dictionary_and_root_auth<
    'a,
    C: ArchiveCodec + MetadataProfile,
    F: FnOnce(&RootAuthSigningRequest) -> Result<Vec<u8>, FormatError>,
>(
    codec: &C,
    files: &[RegularFile<'a>],
    master_key: &MasterKey,
    options: WriterOptions,
    dictionary: &[u8],
    root_auth: RootAuthWriterConfig<'_>,
    authenticator: F,
    caps: &ReaderCaps,
) -> (r: Result<WrittenArchive, FormatError>)
    requires
        always_answers(authenticator),
    ensures
        archives(
            codec,
            files@,
            (ArchiveOrder {
                master_key: *master_key,
                dictionary: Some(dictionary),
                kdf_params: &KdfParams::Raw,
                root_auth: Some(root_auth),
                key_wrap_records: None,
                caps: *caps,
            }),
            options,
            Some(authenticator),
            r,
        ),
{
    let order = ArchiveOrder {
        master_key: *master_key,
        dictionary: Some(dictionary),
        kdf_params: &KdfParams::Raw,
        root_auth: Some(root_auth),
        key_wrap_records: None,
        caps: *caps,
    };
    write_archive_inner(codec, files, &order, options, Some(authenticator))
}

/// Writes a signed archive with a dictionary, under a key that comes from given parameters.
pub fn write_archive_with_dictionary_kdf_and_root_auth<
    'a,
    C: ArchiveCodec + MetadataProfile,
    F: FnOnce(&RootAuthSigningRequest) -> Result<Vec<u8>, FormatError>,
>(
    codec: &C,
    files: &[RegularFile<'a>],
    master_key: &MasterKey,
    options: WriterOptions,
    dictionary: &[u8],
    kdf_params: &KdfParams,
    root_auth: RootAuthWriterConfig<'_>,
    authenticator: F,
    caps: &ReaderCaps,
) -> (r: Result<WrittenArchive, FormatError>)
    requires
        always_answers(authenticator),
    ensures
        archives(
            codec,
            files@,
            (ArchiveOrder {
                master_key: *master_key,
                dictionary: Some(dictionary),
                kdf_params: kdf_params,
                root_auth: Some(root_auth),
                key_wrap_records: None,
                caps: *caps,
            }),
            options,
            Some(authenticator),
            r,
        ),
{
    let order = ArchiveOrder {
        master_key: *master_key,
        dictionary: Some(dictionary),
        kdf_params: kdf_params,
        root_auth: Some(root_auth),
        key_wrap_records: None,
        caps: *caps,
    };
    write_archive_inner(codec, files, &order, options, Some(authenticator))
}

/// Writes an archive whose frames are compressed with a dictionary.
pub fn write_archive_with_dictionary<'a, C: ArchiveCodec + MetadataProfile>(
    codec: &C,
    files: &[RegularFile<'a>],
    master_key: &MasterKey,
    options: WriterOptions,
    dictionary: &[u8],
    caps: &ReaderCaps,
) -> (r: Result<WrittenArchive, FormatError>)
    ensures
        archives(
            codec,
            files@,
            (ArchiveOrder {
                master_key: *master_key,
                dictionary: Some(dictionary),
                kdf_params: &KdfParams::Raw,
                root_auth: None,
                key_wrap_records: None,
                caps: *caps,
            }),
            options,
            nobody(no_signer),
            r,
        ),
{
    let order = ArchiveOrder {
        master_key: *master_key,
        dictionary: Some(dictionary),
        kdf_params: &KdfParams::Raw,
        root_auth: None,
        key_wrap_records: None,
        caps: *caps,
    };
    write_archive_inner(codec, files, &order, options, leave_out(no_signer))
}

/// Writes an archive with a dictionary, under a key that comes from given parameters.
pub fn write_archive_with_dictionary_and_kdf<'a, C: ArchiveCodec + MetadataProfile>(
    codec: &C,
    files: &[RegularFile<'a>],
    master_key: &MasterKey,
    options: WriterOptions,
    dictionary: &[u8],
    kdf_params: &KdfParams,
    caps: &ReaderCaps,
) -> (r: Result<WrittenArchive, FormatError>)
    ensures
        archives(
            codec,
            files@,
            (ArchiveOrder {
                master_key: *master_key,
                dictionary: Some(dictionary),
                kdf_params: kdf_params,
                root_auth: None,
                key_wrap_records: None,
                caps: *caps,
            }),
            options,
            nobody(no_signer),
            r,
        ),
{
    let order = ArchiveOrder {
        master_key: *master_key,
        dictionary: Some(dictionary),
        kdf_params: kdf_params,
        root_auth: None,
        key_wrap_records: None,
        caps: *caps,
    };
    write_archive_inner(codec, files, &order, options, leave_out(no_signer))
}

/// Writes an archive without members.
pub fn write_empty_archive<C: ArchiveCodec + MetadataProfile>(
    codec: &C,
    master_key: &MasterKey,
    jobs: usize,
    caps: &ReaderCaps,
) -> (r: Result<WrittenArchive, FormatError>)
    ensures
        archives(
            codec,
            Seq::<RegularFile<'static>>::empty(),
            (ArchiveOrder {
                master_key: *master_key,
                dictionary: None,
                kdf_params: &KdfParams::Raw,
                root_auth: None,
                key_wrap_records: None,
                caps: *caps,
            }),
            WriterOptions::spec_with_jobs(jobs),
            nobody(no_signer),
            r,
        ),
{
    let files: [RegularFile<'static>; 0] = [];
    assert(files@ =~= Seq::empty());
    write_archive(codec, files.as_slice(), master_key, WriterOptions::with_jobs(jobs), caps)
}

// ---------------------------------------------------------------------------------------------
// To a sink
// ---------------------------------------------------------------------------------------------

/// Writes an archive from sources that are read twice, and never asked for more than a chunk at a
/// time.
pub fn write_archive_sources_to_sink<
    C: ArchiveCodec + MetadataProfile,
    S: RegularFileSource,
    O: ArchiveWriteSink,
    F: FnOnce(&RootAuthSigningRequest) -> Result<Vec<u8>, FormatError>,
>(
    codec: &C,
    files: &[S],
    master_key: &MasterKey,
    options: WriterOptions,
    dictionary: Option<&[u8]>,
    kdf_params: &KdfParams,
    root_auth: Option<RootAuthWriterConfig<'_>>,
    authenticator: Option<F>,
    caps: &ReaderCaps,
    sink: &mut O,
) -> (r: Result<WrittenArchiveSummary, ArchiveWriteError>)
    requires
        take_requests(files@, options.chunk_size as int),
        authenticator matches Some(signer) ==> always_answers(signer),
    ensures
        standing(*old(sink)).hands_on(standing(*final(sink)), failure_of(r)),
        carries_out(
            codec,
            files@,
            (ArchiveOrder {
                master_key: *master_key,
                dictionary: dictionary,
                kdf_params: kdf_params,
                root_auth: root_auth,
                key_wrap_records: None,
                caps: *caps,
            }),
            options,
            authenticator,
            *old(sink),
            *final(sink),
            r,
        ),
{
    let mut progress: Unobserved = Unobserved::new();
    let order = ArchiveOrder {
        master_key: *master_key,
        dictionary: dictionary,
        kdf_params: kdf_params,
        root_auth: root_auth,
        key_wrap_records: None,
        caps: *caps,
    };
    write_archive_stream_inner(codec, files, &order, options, authenticator, sink, &mut progress)
}

/// Writes an archive from sources that are read twice, and reports how far it came.
pub fn write_archive_sources_to_sink_with_progress<
    C: ArchiveCodec + MetadataProfile,
    S: RegularFileSource,
    O: ArchiveWriteSink,
    P: ArchiveWriteProgressSink,
    F: FnOnce(&RootAuthSigningRequest) -> Result<Vec<u8>, FormatError>,
>(
    codec: &C,
    files: &[S],
    master_key: &MasterKey,
    options: WriterOptions,
    dictionary: Option<&[u8]>,
    kdf_params: &KdfParams,
    root_auth: Option<RootAuthWriterConfig<'_>>,
    authenticator: Option<F>,
    caps: &ReaderCaps,
    sink: &mut O,
    progress: &mut P,
) -> (r: Result<WrittenArchiveSummary, ArchiveWriteError>)
    requires
        take_requests(files@, options.chunk_size as int),
        authenticator matches Some(signer) ==> always_answers(signer),
    ensures
        standing(*old(sink)).hands_on(standing(*final(sink)), failure_of(r)),
        r is Ok ==> exists|passes: nat| #[trigger]
            reports_passes(
                codec,
                files@,
                options.target_volume_size,
                old(progress).events(),
                final(progress).events(),
                passes,
            ),
        carries_out(
            codec,
            files@,
            (ArchiveOrder {
                master_key: *master_key,
                dictionary: dictionary,
                kdf_params: kdf_params,
                root_auth: root_auth,
                key_wrap_records: None,
                caps: *caps,
            }),
            options,
            authenticator,
            *old(sink),
            *final(sink),
            r,
        ),
{
    let order = ArchiveOrder {
        master_key: *master_key,
        dictionary: dictionary,
        kdf_params: kdf_params,
        root_auth: root_auth,
        key_wrap_records: None,
        caps: *caps,
    };
    write_archive_stream_inner(codec, files, &order, options, authenticator, sink, progress)
}

/// Writes an archive while its sources are read. Each source is opened once, if it has data, and
/// never asked for more than a chunk at a time.
pub fn write_archive_sources_to_sink_single_pass<
    C: ArchiveCodec + MetadataProfile,
    S: RegularFileSource,
    O: ArchiveWriteSink,
    F: FnOnce(&RootAuthSigningRequest) -> Result<Vec<u8>, FormatError>,
>(
    codec: &C,
    files: &[S],
    master_key: &MasterKey,
    options: WriterOptions,
    kdf_params: &KdfParams,
    root_auth: Option<RootAuthWriterConfig<'_>>,
    authenticator: Option<F>,
    caps: &ReaderCaps,
    sink: &mut O,
) -> (r: Result<WrittenArchiveSummary, ArchiveWriteError>)
    requires
        take_requests(files@, options.chunk_size as int),
        authenticator matches Some(signer) ==> always_answers(signer),
    ensures
        standing(*old(sink)).hands_on(standing(*final(sink)), failure_of(r)),
        carries_out_once::<C, O, S, StreamingArchiveWriter, F>(
            codec,
            files@,
            (ArchiveOrder {
                master_key: *master_key,
                dictionary: None,
                kdf_params: kdf_params,
                root_auth: root_auth,
                key_wrap_records: None,
                caps: *caps,
            }),
            options,
            STREAM_CLASS_RULE,
            authenticator,
            *old(sink),
            *final(sink),
            r,
        ),
{
    let mut progress: Unobserved = Unobserved::new();
    let order = ArchiveOrder {
        master_key: *master_key,
        dictionary: None,
        kdf_params: kdf_params,
        root_auth: root_auth,
        key_wrap_records: None,
        caps: *caps,
    };
    let mut ledger: SourceProgressState = SourceProgressState::new();
    write_single_pass_archive_to_sink(
        codec,
        files,
        &order,
        options,
        authenticator,
        sink,
        &mut progress,
        &mut ledger,
    )
}

/// Writes an archive while its sources are read, under a key that is wrapped for recipients.
pub fn write_archive_sources_to_sink_single_pass_with_recipient_wrap_records<
    C: ArchiveCodec + MetadataProfile,
    S: RegularFileSource,
    O: ArchiveWriteSink,
    F: FnOnce(&RootAuthSigningRequest) -> Result<Vec<u8>, FormatError>,
>(
    codec: &C,
    files: &[S],
    master_key: &MasterKey,
    options: WriterOptions,
    records: Vec<RecipientRecordV1>,
    root_auth: Option<RootAuthWriterConfig<'_>>,
    authenticator: Option<F>,
    caps: &ReaderCaps,
    sink: &mut O,
) -> (r: Result<WrittenArchiveSummary, ArchiveWriteError>)
    requires
        take_requests(files@, options.chunk_size as int),
        authenticator matches Some(signer) ==> always_answers(signer),
    ensures
        standing(*old(sink)).hands_on(standing(*final(sink)), failure_of(r)),
        if records@.len() > u32::MAX {
            r == Err::<WrittenArchiveSummary, ArchiveWriteError>(
                ArchiveWriteError::Format(too_many_records()),
            )
        } else {
            carries_out_once::<C, O, S, StreamingArchiveWriter, F>(
                codec,
                files@,
                (ArchiveOrder {
                    master_key: *master_key,
                    dictionary: None,
                    kdf_params: &wrap_kdf(records@.len()),
                    root_auth: root_auth,
                    key_wrap_records: Some(&KeyWrapRecordSource::Fixed(records)),
                    caps: *caps,
                }),
                options,
                STREAM_CLASS_RULE,
                authenticator,
                *old(sink),
                *final(sink),
                r,
            )
        },
{
    let kdf_params: KdfParams = lift(
        recipient_wrap_kdf_params_for_record_count(records.len()),
    )?;
    let key_wrap_records: KeyWrapRecordSource = KeyWrapRecordSource::fixed(records);
    let mut progress: Unobserved = Unobserved::new();
    let order = ArchiveOrder {
        master_key: *master_key,
        dictionary: None,
        kdf_params: &kdf_params,
        root_auth: root_auth,
        key_wrap_records: Some(&key_wrap_records),
        caps: *caps,
    };
    let mut ledger: SourceProgressState = SourceProgressState::new();
    write_single_pass_archive_to_sink(
        codec,
        files,
        &order,
        options,
        authenticator,
        sink,
        &mut progress,
        &mut ledger,
    )
}

/// Writes an archive while its sources are read, and reports how far it came.
pub fn write_archive_sources_to_sink_single_pass_with_progress<
    C: ArchiveCodec + MetadataProfile,
    S: RegularFileSource,
    O: ArchiveWriteSink,
    P: ArchiveWriteProgressSink,
    F: FnOnce(&RootAuthSigningRequest) -> Result<Vec<u8>, FormatError>,
>(
    codec: &C,
    files: &[S],
    master_key: &MasterKey,
    options: WriterOptions,
    kdf_params: &KdfParams,
    root_auth: Option<RootAuthWriterConfig<'_>>,
    authenticator: Option<F>,
    caps: &ReaderCaps,
    sink: &mut O,
    progress: &mut P,
) -> (r: Result<WrittenArchiveSummary, ArchiveWriteError>)
    requires
        take_requests(files@, options.chunk_size as int),
        authenticator matches Some(signer) ==> always_answers(signer),
    ensures
        standing(*old(sink)).hands_on(standing(*final(sink)), failure_of(r)),
        r is Ok ==> phases_of(final(progress).events()) == phases_of(old(progress).events())
            + seq![ArchiveWritePhase::EmittingPayload, ArchiveWritePhase::EmittingMetadata],
        r is Ok ==> counts_readings(
            codec,
            files@,
            0,
            1,
            old(progress).events(),
            final(progress).events(),
        ),
        carries_out_once::<C, O, S, StreamingArchiveWriter, F>(
            codec,
            files@,
            (ArchiveOrder {
                master_key: *master_key,
                dictionary: None,
                kdf_params: kdf_params,
                root_auth: root_auth,
                key_wrap_records: None,
                caps: *caps,
            }),
            options,
            STREAM_CLASS_RULE,
            authenticator,
            *old(sink),
            *final(sink),
            r,
        ),
{
    let order = ArchiveOrder {
        master_key: *master_key,
        dictionary: None,
        kdf_params: kdf_params,
        root_auth: root_auth,
        key_wrap_records: None,
        caps: *caps,
    };
    let mut ledger: SourceProgressState = SourceProgressState::new();
    write_single_pass_archive_to_sink(
        codec,
        files,
        &order,
        options,
        authenticator,
        sink,
        progress,
        &mut ledger,
    )
}

/// Broken where the metadata of an archive in numbered pieces does not fit its headers.
pub const ORDERED_CLASS_RULE: &'static str =
    "ordered parallel metadata exceeded the predeclared header class";

/// Writes the archive of an order in numbered pieces, which are made one after the other here.
pub fn write_ordered_parallel_archive_to_sink<
    C: ArchiveCodec + MetadataProfile,
    O: ArchiveWriteSink,
    S: RegularFileSource,
    P: ArchiveWriteProgressSink,
    F: FnOnce(&RootAuthSigningRequest) -> Result<Vec<u8>, FormatError>,
>(
    codec: &C,
    files: &[S],
    order: &ArchiveOrder<'_>,
    options: WriterOptions,
    authenticator: Option<F>,
    sink: &mut O,
    progress: &mut P,
) -> (r: Result<WrittenArchiveSummary, ArchiveWriteError>)
    requires
        take_requests(files@, options.chunk_size as int),
        authenticator matches Some(signer) ==> always_answers(signer),
    ensures
        standing(*old(sink)).hands_on(standing(*final(sink)), failure_of(r)),
        r is Ok ==> phases_of(final(progress).events()) == phases_of(old(progress).events())
            + seq![ArchiveWritePhase::EmittingPayload, ArchiveWritePhase::EmittingMetadata],
        r is Ok ==> counts_readings(
            codec,
            files@,
            0,
            1,
            old(progress).events(),
            final(progress).events(),
        ),
        carries_out_once::<C, O, S, OrderedParallelState, F>(
            codec,
            files@,
            *order,
            options,
            ORDERED_CLASS_RULE,
            authenticator,
            *old(sink),
            *final(sink),
            r,
        ),
{
    let mut ledger: SourceProgressState = SourceProgressState::new();
    write_archive_once::<C, O, S, P, OrderedParallelState, F>(
        codec,
        files,
        order,
        options,
        ORDERED_CLASS_RULE,
        authenticator,
        sink,
        progress,
        &mut ledger,
    )
}

/// Writes an archive in numbered pieces while its sources are read.
pub fn write_archive_sources_to_sink_ordered_parallel<
    C: ArchiveCodec + MetadataProfile,
    S: RegularFileSource,
    O: ArchiveWriteSink,
    F: FnOnce(&RootAuthSigningRequest) -> Result<Vec<u8>, FormatError>,
>(
    codec: &C,
    files: &[S],
    master_key: &MasterKey,
    options: WriterOptions,
    kdf_params: &KdfParams,
    root_auth: Option<RootAuthWriterConfig<'_>>,
    authenticator: Option<F>,
    caps: &ReaderCaps,
    sink: &mut O,
) -> (r: Result<WrittenArchiveSummary, ArchiveWriteError>)
    requires
        take_requests(files@, options.chunk_size as int),
        authenticator matches Some(signer) ==> always_answers(signer),
    ensures
        standing(*old(sink)).hands_on(standing(*final(sink)), failure_of(r)),
        carries_out_once::<C, O, S, OrderedParallelState, F>(
            codec,
            files@,
            (ArchiveOrder {
                master_key: *master_key,
                dictionary: None,
                kdf_params: kdf_params,
                root_auth: root_auth,
                key_wrap_records: None,
                caps: *caps,
            }),
            options,
            ORDERED_CLASS_RULE,
            authenticator,
            *old(sink),
            *final(sink),
            r,
        ),
{
    let mut progress: Unobserved = Unobserved::new();
    let order = ArchiveOrder {
        master_key: *master_key,
        dictionary: None,
        kdf_params: kdf_params,
        root_auth: root_auth,
        key_wrap_records: None,
        caps: *caps,
    };
    write_ordered_parallel_archive_to_sink(
        codec,
        files,
        &order,
        options,
        authenticator,
        sink,
        &mut progress,
    )
}

/// Writes an archive in numbered pieces, under a key that is wrapped for recipients.
pub fn write_archive_sources_to_sink_ordered_parallel_with_recipient_wrap_records<
    C: ArchiveCodec + MetadataProfile,
    S: RegularFileSource,
    O: ArchiveWriteSink,
    F: FnOnce(&RootAuthSigningRequest) -> Result<Vec<u8>, FormatError>,
>(
    codec: &C,
    files: &[S],
    master_key: &MasterKey,
    options: WriterOptions,
    records: Vec<RecipientRecordV1>,
    root_auth: Option<RootAuthWriterConfig<'_>>,
    authenticator: Option<F>,
    caps: &ReaderCaps,
    sink: &mut O,
) -> (r: Result<WrittenArchiveSummary, ArchiveWriteError>)
    requires
        take_requests(files@, options.chunk_size as int),
        authenticator matches Some(signer) ==> always_answers(signer),
    ensures
        standing(*old(sink)).hands_on(standing(*final(sink)), failure_of(r)),
        if records@.len() > u32::MAX {
            r == Err::<WrittenArchiveSummary, ArchiveWriteError>(
                ArchiveWriteError::Format(too_many_records()),
            )
        } else {
            carries_out_once::<C, O, S, OrderedParallelState, F>(
                codec,
                files@,
                (ArchiveOrder {
                    master_key: *master_key,
                    dictionary: None,
                    kdf_params: &wrap_kdf(records@.len()),
                    root_auth: root_auth,
                    key_wrap_records: Some(&KeyWrapRecordSource::Fixed(records)),
                    caps: *caps,
                }),
                options,
                ORDERED_CLASS_RULE,
                authenticator,
                *old(sink),
                *final(sink),
                r,
            )
        },
{
    let kdf_params: KdfParams = lift(
        recipient_wrap_kdf_params_for_record_count(records.len()),
    )?;
    let key_wrap_records: KeyWrapRecordSource = KeyWrapRecordSource::fixed(records);
    let mut progress: Unobserved = Unobserved::new();
    let order = ArchiveOrder {
        master_key: *master_key,
        dictionary: None,
        kdf_params: &kdf_params,
        root_auth: root_auth,
        key_wrap_records: Some(&key_wrap_records),
        caps: *caps,
    };
    write_ordered_parallel_archive_to_sink(
        codec,
        files,
        &order,
        options,
        authenticator,
        sink,
        &mut progress,
    )
}

/// Writes an archive in numbered pieces, under a key that is wrapped for recipients, and reports
/// how far it came.
pub fn write_archive_sources_to_sink_ordered_parallel_with_recipient_wrap_records_and_progress<
    C: ArchiveCodec + MetadataProfile,
    S: RegularFileSource,
    O: ArchiveWriteSink,
    P: ArchiveWriteProgressSink,
    F: FnOnce(&RootAuthSigningRequest) -> Result<Vec<u8>, FormatError>,
>(
    codec: &C,
    files: &[S],
    master_key: &MasterKey,
    options: WriterOptions,
    records: Vec<RecipientRecordV1>,
    root_auth: Option<RootAuthWriterConfig<'_>>,
    authenticator: Option<F>,
    caps: &ReaderCaps,
    sink: &mut O,
    progress: &mut P,
) -> (r: Result<WrittenArchiveSummary, ArchiveWriteError>)
    requires
        take_requests(files@, options.chunk_size as int),
        authenticator matches Some(signer) ==> always_answers(signer),
    ensures
        standing(*old(sink)).hands_on(standing(*final(sink)), failure_of(r)),
        r is Ok ==> phases_of(final(progress).events()) == phases_of(old(progress).events())
            + seq![ArchiveWritePhase::EmittingPayload, ArchiveWritePhase::EmittingMetadata],
        r is Ok ==> counts_readings(
            codec,
            files@,
            0,
            1,
            old(progress).events(),
            final(progress).events(),
        ),
        if records@.len() > u32::MAX {
            r == Err::<WrittenArchiveSummary, ArchiveWriteError>(
                ArchiveWriteError::Format(too_many_records()),
            )
        } else {
            carries_out_once::<C, O, S, OrderedParallelState, F>(
                codec,
                files@,
                (ArchiveOrder {
                    master_key: *master_key,
                    dictionary: None,
                    kdf_params: &wrap_kdf(records@.len()),
                    root_auth: root_auth,
                    key_wrap_records: Some(&KeyWrapRecordSource::Fixed(records)),
                    caps: *caps,
                }),
                options,
                ORDERED_CLASS_RULE,
                authenticator,
                *old(sink),
                *final(sink),
                r,
            )
        },
{
    let kdf_params: KdfParams = lift(
        recipient_wrap_kdf_params_for_record_count(records.len()),
    )?;
    let key_wrap_records: KeyWrapRecordSource = KeyWrapRecordSource::fixed(records);
    let order = ArchiveOrder {
        master_key: *master_key,
        dictionary: None,
        kdf_params: &kdf_params,
        root_auth: root_auth,
        key_wrap_records: Some(&key_wrap_records),
        caps: *caps,
    };
    write_ordered_parallel_archive_to_sink(
        codec,
        files,
        &order,
        options,
        authenticator,
        sink,
        progress,
    )
}

/// Writes an archive in numbered pieces, and reports how far it came.
pub fn write_archive_sources_to_sink_ordered_parallel_with_progress<
    C: ArchiveCodec + MetadataProfile,
    S: RegularFileSource,
    O: ArchiveWriteSink,
    P: ArchiveWriteProgressSink,
    F: FnOnce(&RootAuthSigningRequest) -> Result<Vec<u8>, FormatError>,
>(
    codec: &C,
    files: &[S],
    master_key: &MasterKey,
    options: WriterOptions,
    kdf_params: &KdfParams,
    root_auth: Option<RootAuthWriterConfig<'_>>,
    authenticator: Option<F>,
    caps: &ReaderCaps,
    sink: &mut O,
    progress: &mut P,
) -> (r: Result<WrittenArchiveSummary, ArchiveWriteError>)
    requires
        take_requests(files@, options.chunk_size as int),
        authenticator matches Some(signer) ==> always_answers(signer),
    ensures
        standing(*old(sink)).hands_on(standing(*final(sink)), failure_of(r)),
        r is Ok ==> phases_of(final(progress).events()) == phases_of(old(progress).events())
            + seq![ArchiveWritePhase::EmittingPayload, ArchiveWritePhase::EmittingMetadata],
        r is Ok ==> counts_readings(
            codec,
            files@,
            0,
            1,
            old(progress).events(),
            final(progress).events(),
        ),
        carries_out_once::<C, O, S, OrderedParallelState, F>(
            codec,
            files@,
            (ArchiveOrder {
                master_key: *master_key,
                dictionary: None,
                kdf_params: kdf_params,
                root_auth: root_auth,
                key_wrap_records: None,
                caps: *caps,
            }),
            options,
            ORDERED_CLASS_RULE,
            authenticator,
            *old(sink),
            *final(sink),
            r,
        ),
{
    let order = ArchiveOrder {
        master_key: *master_key,
        dictionary: None,
        kdf_params: kdf_params,
        root_auth: root_auth,
        key_wrap_records: None,
        caps: *caps,
    };
    write_ordered_parallel_archive_to_sink(
        codec,
        files,
        &order,
        options,
        authenticator,
        sink,
        progress,
    )
}

/// Writes an archive in numbered pieces, to see how fast that goes.
pub fn write_archive_sources_to_sink_ordered_parallel_probe<
    C: ArchiveCodec + MetadataProfile,
    S: RegularFileSource,
    O: ArchiveWriteSink,
    F: FnOnce(&RootAuthSigningRequest) -> Result<Vec<u8>, FormatError>,
>(
    codec: &C,
    files: &[S],
    master_key: &MasterKey,
    options: WriterOptions,
    kdf_params: &KdfParams,
    root_auth: Option<RootAuthWriterConfig<'_>>,
    authenticator: Option<F>,
    caps: &ReaderCaps,
    sink: &mut O,
) -> (r: Result<WrittenArchiveSummary, ArchiveWriteError>)
    requires
        take_requests(files@, options.chunk_size as int),
        authenticator matches Some(signer) ==> always_answers(signer),
    ensures
        standing(*old(sink)).hands_on(standing(*final(sink)), failure_of(r)),
        carries_out_once::<C, O, S, OrderedParallelState, F>(
            codec,
            files@,
            (ArchiveOrder {
                master_key: *master_key,
                dictionary: None,
                kdf_params: kdf_params,
                root_auth: root_auth,
                key_wrap_records: None,
                caps: *caps,
            }),
            options,
            ORDERED_CLASS_RULE,
            authenticator,
            *old(sink),
            *final(sink),
            r,
        ),
{
    let mut progress: Unobserved = Unobserved::new();
    let order = ArchiveOrder {
        master_key: *master_key,
        dictionary: None,
        kdf_params: kdf_params,
        root_auth: root_auth,
        key_wrap_records: None,
        caps: *caps,
    };
    write_ordered_parallel_archive_to_sink(
        codec,
        files,
        &order,
        options,
        authenticator,
        sink,
        &mut progress,
    )
}

/// Writes a payload in batches, to see how fast that goes.
pub fn write_archive_sources_to_sink_unordered_probe<
    C: ArchiveCodec + MetadataProfile,
    S: RegularFileSource,
    O: ArchiveWriteSink,
>(
    codec: &C,
    files: &[S],
    master_key: &MasterKey,
    options: WriterOptions,
    kdf_params: &KdfParams,
    caps: &ReaderCaps,
    sink: &mut O,
) -> (r: Result<WrittenArchiveSummary, ArchiveWriteError>)
    requires
        take_requests(files@, options.chunk_size as int),
    ensures
        standing(*old(sink)).hands_on(standing(*final(sink)), failure_of(r)),
        probes_order(
            codec,
            files@,
            (ArchiveOrder {
                master_key: *master_key,
                dictionary: None,
                kdf_params: kdf_params,
                root_auth: None,
                key_wrap_records: None,
                caps: *caps,
            }),
            options,
            *old(sink),
            *final(sink),
            r,
        ),
{
    let order = ArchiveOrder {
        master_key: *master_key,
        dictionary: None,
        kdf_params: kdf_params,
        root_auth: None,
        key_wrap_records: None,
        caps: *caps,
    };
    write_unordered_probe_archive_to_sink(codec, files, &order, options, sink)
}

// ---------------------------------------------------------------------------------------------
// Laws
// ---------------------------------------------------------------------------------------------

/// Whether two attempts to write to memory came to the same, whatever time they took.
pub open spec fn same_in_memory(
    a: Result<WrittenArchive, FormatError>,
    b: Result<WrittenArchive, FormatError>,
) -> bool {
    match (a, b) {
        (Ok(x), Ok(y)) => {
            &&& x.bytes@ == y.bytes@
            &&& contents_of(x.volumes@) == contents_of(y.volumes@)
            &&& x.bootstrap_sidecar@ == y.bootstrap_sidecar@
            &&& x.archive_uuid == y.archive_uuid
            &&& x.session_id == y.session_id
        },
        (Err(e), Err(f)) => e == f,
        _ => false,
    }
}

/// With fixed identities, for recipients that stay as they are, and without a signature, an order
/// leads to one archive in memory, whichever function it came through.
pub proof fn archives_in_memory_repeat<
    'a,
    C: ArchiveCodec + MetadataProfile,
    F: FnOnce(&RootAuthSigningRequest) -> Result<Vec<u8>, FormatError>,
>(
    codec: &C,
    files: Seq<RegularFile<'a>>,
    order: ArchiveOrder,
    options: WriterOptions,
    authenticator: Option<F>,
    a: Result<WrittenArchive, FormatError>,
    b: Result<WrittenArchive, FormatError>,
)
    requires
        files.len() <= usize::MAX,
        options.archive_uuid is Some,
        options.session_id is Some,
        answers_alike(order.key_wrap_records),
        order.root_auth is None,
        archives(codec, files, order, options, authenticator, a),
        archives(codec, files, order, options, authenticator, b),
    ensures
        same_in_memory(a, b),
{
    reveal(archives);
    let (first, sink, written) = choose|
        first: MemoryArchiveSink,
        sink: MemoryArchiveSink,
        written: Result<WrittenArchiveSummary, ArchiveWriteError>,
    |
        {
            &&& #[trigger] carries_out(
                codec,
                files,
                order,
                options,
                authenticator,
                first,
                sink,
                written,
            )
            &&& is_written_archive(sink, written, a)
        };
    let (other_first, other, again) = choose|
        first: MemoryArchiveSink,
        sink: MemoryArchiveSink,
        written: Result<WrittenArchiveSummary, ArchiveWriteError>,
    |
        {
            &&& #[trigger] carries_out(
                codec,
                files,
                order,
                options,
                authenticator,
                first,
                sink,
                written,
            )
            &&& is_written_archive(sink, written, b)
        };
    fixed_identities_fix_the_archive(
        codec,
        files,
        order,
        options,
        authenticator,
        first,
        other_first,
        sink,
        other,
        written,
        again,
    );
}

/// The order of `write_archive_with_kdf`; `write_archive` carries it out with raw parameters, and
/// `write_archive_unencrypted` with those of no key.
pub open spec fn kdf_order<'a>(
    master_key: MasterKey,
    kdf_params: &'a KdfParams,
    caps: ReaderCaps,
) -> ArchiveOrder<'a> {
    ArchiveOrder {
        master_key,
        dictionary: None,
        kdf_params,
        root_auth: None,
        key_wrap_records: None,
        caps,
    }
}

/// With fixed identities, an archive that nothing in is sealed is the one that the parameters of
/// no key give, under whatever key.
pub proof fn unencrypted_archives_have_no_key<'a, C: ArchiveCodec + MetadataProfile>(
    codec: &C,
    files: Seq<RegularFile<'a>>,
    master_key: MasterKey,
    options: WriterOptions,
    caps: ReaderCaps,
    unencrypted: Result<WrittenArchive, FormatError>,
    keyless: Result<WrittenArchive, FormatError>,
)
    requires
        files.len() <= usize::MAX,
        options.archive_uuid is Some,
        options.session_id is Some,
        options.aead_algo == AeadAlgo::Unsealed,
        archives(
            codec,
            files,
            kdf_order(MasterKey(NO_KEY), &KdfParams::NoKey, caps),
            options,
            nobody(no_signer),
            unencrypted,
        ),
        archives(
            codec,
            files,
            kdf_order(master_key, &KdfParams::NoKey, caps),
            options,
            nobody(no_signer),
            keyless,
        ),
    ensures
        same_in_memory(unencrypted, keyless),
{
    let order = kdf_order(master_key, &KdfParams::NoKey, caps);
    let placeholder = kdf_order(MasterKey(NO_KEY), &KdfParams::NoKey, caps);
    assert(archives(codec, files, placeholder, options, nobody(no_signer), keyless)) by {
        reveal(archives);
        let (first, sink, written) = choose|
            first: MemoryArchiveSink,
            sink: MemoryArchiveSink,
            written: Result<WrittenArchiveSummary, ArchiveWriteError>,
        |
            {
                &&& #[trigger] carries_out(
                    codec,
                    files,
                    order,
                    options,
                    nobody(no_signer),
                    first,
                    sink,
                    written,
                )
                &&& is_written_archive(sink, written, keyless)
            };
        unsealed_archives_need_no_key(
            codec,
            files,
            order,
            MasterKey(NO_KEY),
            options,
            nobody(no_signer),
            first,
            sink,
            written,
        );
    }
    archives_in_memory_repeat(
        codec,
        files,
        placeholder,
        options,
        nobody(no_signer),
        unencrypted,
        keyless,
    );
}

/// With fixed identities, an archive under a raw key is the one that raw parameters give.
pub proof fn raw_parameters_are_the_plain_ones<'a, C: ArchiveCodec + MetadataProfile>(
    codec: &C,
    files: Seq<RegularFile<'a>>,
    master_key: MasterKey,
    options: WriterOptions,
    caps: ReaderCaps,
    plain: Result<WrittenArchive, FormatError>,
    with_kdf: Result<WrittenArchive, FormatError>,
)
    requires
        files.len() <= usize::MAX,
        options.archive_uuid is Some,
        options.session_id is Some,
        archives(
            codec,
            files,
            kdf_order(master_key, &KdfParams::Raw, caps),
            options,
            nobody(no_signer),
            plain,
        ),
        archives(
            codec,
            files,
            kdf_order(master_key, &KdfParams::Raw, caps),
            options,
            nobody(no_signer),
            with_kdf,
        ),
    ensures
        same_in_memory(plain, with_kdf),
{
    archives_in_memory_repeat(
        codec,
        files,
        kdf_order(master_key, &KdfParams::Raw, caps),
        options,
        nobody(no_signer),
        plain,
        with_kdf,
    );
}

} // verus!
