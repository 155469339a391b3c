//! What holds of the writer as a whole, on archives of the plain codec.
use tzap_writer::codec::{ArchiveCodec, ObjectDomain, WireLayout};
use tzap_writer::emit::{begin_writer_emission_state, emit_block_records};
use tzap_writer::errors::{ArchiveWriteError, FormatError, IoError};
use tzap_writer::format::{AeadAlgo, BlockKind, VOLUME_FORMAT_REV_45};
use tzap_writer::key_wrap::{KeyWrapRecordSource, RecipientRecords};
use tzap_writer::keys::{KdfParams, MasterKey};
use tzap_writer::metadata::{NativeAuxiliaryMetadata, PortableFileMetadata, RestoreClass};
use tzap_writer::object_plan::{plan_encrypted_object, ObjectExtent};
use tzap_writer::objects::ArchiveSeal;
use tzap_writer::options::{
    compute_parity, max_single_pass_index_root_data_shards, plan_writer_options, ReaderCaps,
    WriterOptions,
};
use tzap_writer::plain::PlainCodec;
use tzap_writer::progress::{
    ArchiveWritePhase, ArchiveWriteProgressSink, SourceProgressState, Unobserved,
};
use tzap_writer::root_auth::{RootAuthSigningRequest, RootAuthWriterConfig};
use tzap_writer::seal::{encrypt_object, serialize_zero_parity_encrypted_object};
use tzap_writer::sink::{ArchiveWriteSink, MemoryArchiveSink};
use tzap_writer::source::{RegularFile, RegularFileSource};
use tzap_writer::wire::RecipientRecordV1;
use tzap_writer::writer::{
    write_archive, write_archive_sources_to_sink, write_archive_sources_to_sink_ordered_parallel,
    write_archive_sources_to_sink_ordered_parallel_with_progress,
    write_archive_sources_to_sink_single_pass,
    write_archive_sources_to_sink_single_pass_with_recipient_wrap_records,
    write_archive_sources_to_sink_single_pass_with_progress,
    write_archive_sources_to_sink_with_progress, write_archive_unencrypted,
    write_archive_with_kdf, write_archive_with_root_auth,
};

const LAYOUT: WireLayout = WireLayout {
    format_version: 1,
    kdf_no_key: 0,
    kdf_raw: 1,
    kdf_argon2id: 2,
    kdf_recipient_wrap: 3,
    volume_header: 64,
    crypto_header_fixed: 80,
    block_record_framing: 18,
    manifest_footer: 136,
    volume_trailer: 128,
    recovery_locator: 168,
    recovery_header: 104,
    sidecar_header: 128,
    root_auth_footer_fixed: 320,
    index_shard_header: 64,
    file_entry: 192,
    frame_entry: 48,
    envelope_entry: 48,
    hint_table_header: 64,
    hint_entry: 32,
};

const CAPS: ReaderCaps = ReaderCaps {
    max_stripe_width: 1024,
    max_block_size: 16 * 1024 * 1024,
    max_chunk_size: 64 * 1024 * 1024,
    max_path_length: 65_536,
    max_fec_class_shards: 4096,
    max_index_root_fec_class_shards: 65_535,
    max_root_auth_signer_identity_len: 65_536,
    max_root_auth_authenticator_value_len: 131_072,
    max_root_auth_footer_len: 512 * 1024,
    max_cmra_parity_pct: 100,
};

type Signer = fn(&RootAuthSigningRequest) -> Result<Vec<u8>, FormatError>;

const NO_SIGNER: Option<Signer> = None;

fn codec() -> PlainCodec {
    PlainCodec::new(LAYOUT).unwrap()
}

fn key() -> MasterKey {
    MasterKey::from_raw_key(&[7u8; 32]).unwrap()
}

fn fixed_options() -> WriterOptions {
    WriterOptions {
        block_size: 4096,
        chunk_size: 16 * 1024,
        envelope_target_size: 64 * 1024,
        stripe_width: 1,
        volume_loss_tolerance: 0,
        archive_uuid: Some([0x61; 16]),
        session_id: Some([0x62; 16]),
        ..WriterOptions::with_jobs(1)
    }
}

const REFUSAL: ArchiveWriteError = ArchiveWriteError::Io(IoError::Other("no space left"));

/// Refuses the call with this number, and counts all calls.
struct RefusingSink {
    refused_call: usize,
    calls: usize,
}

impl RefusingSink {
    fn call(&mut self) -> Result<(), ArchiveWriteError> {
        self.calls += 1;
        if self.calls == self.refused_call {
            return Err(REFUSAL);
        }
        Ok(())
    }
}

impl ArchiveWriteSink for RefusingSink {
    fn begin_archive(&mut self, _volume_count: usize) -> Result<(), ArchiveWriteError> {
        self.call()
    }

    fn write_volume(&mut self, _volume_index: usize, _bytes: &[u8]) -> Result<(), ArchiveWriteError> {
        self.call()
    }

    fn write_bootstrap_sidecar(&mut self, _bytes: &[u8]) -> Result<(), ArchiveWriteError> {
        self.call()
    }
}

#[derive(Default)]
struct Told {
    phases: Vec<ArchiveWritePhase>,
    reads: Vec<(ArchiveWritePhase, String, u64)>,
}

impl Told {
    fn total(&self, phase: ArchiveWritePhase) -> u64 {
        self.reads.iter().filter(|read| read.0 == phase).map(|read| read.2).sum()
    }
}

impl ArchiveWriteProgressSink for Told {
    fn phase_started(&mut self, phase: ArchiveWritePhase) {
        self.phases.push(phase);
    }

    fn source_bytes_read(&mut self, phase: ArchiveWritePhase, archive_path: &str, bytes: u64) {
        self.reads.push((phase, archive_path.to_string(), bytes));
    }
}

fn two_passes<O: ArchiveWriteSink>(options: WriterOptions, sink: &mut O) -> Result<(), ArchiveWriteError> {
    let files = [RegularFile::new("a.txt", b"first"), RegularFile::new("b.txt", b"second")];
    write_archive_sources_to_sink(
        &codec(),
        &files,
        &key(),
        options,
        None,
        &KdfParams::Raw,
        None,
        NO_SIGNER,
        &CAPS,
        sink,
    )
    .map(|_| ())
}

fn one_pass<O: ArchiveWriteSink>(options: WriterOptions, sink: &mut O) -> Result<(), ArchiveWriteError> {
    let files = [RegularFile::new("a.txt", b"first"), RegularFile::new("b.txt", b"second")];
    write_archive_sources_to_sink_single_pass(
        &codec(),
        &files,
        &key(),
        options,
        &KdfParams::Raw,
        None,
        NO_SIGNER,
        &CAPS,
        sink,
    )
    .map(|_| ())
}

fn in_order<O: ArchiveWriteSink>(options: WriterOptions, sink: &mut O) -> Result<(), ArchiveWriteError> {
    let files = [RegularFile::new("a.txt", b"first"), RegularFile::new("b.txt", b"second")];
    write_archive_sources_to_sink_ordered_parallel(
        &codec(),
        &files,
        &key(),
        options,
        &KdfParams::Raw,
        None,
        NO_SIGNER,
        &CAPS,
        sink,
    )
    .map(|_| ())
}

#[test]
fn a_refused_call_is_the_last_one_and_its_error_is_returned() {
    let writers: [fn(WriterOptions, &mut RefusingSink) -> Result<(), ArchiveWriteError>; 3] =
        [two_passes, one_pass, in_order];
    for write in writers {
        let mut counting = RefusingSink { refused_call: 0, calls: 0 };
        write(fixed_options(), &mut counting).unwrap();
        assert!(counting.calls > 5);
        for refused_call in 1..=counting.calls {
            let mut sink = RefusingSink { refused_call, calls: 0 };
            assert_eq!(write(fixed_options(), &mut sink).unwrap_err(), REFUSAL);
            assert_eq!(sink.calls, refused_call);
        }
    }
}

#[test]
fn a_sink_counts_what_it_refused() {
    let refusal = ArchiveWriteError::Format(FormatError::WriterInvariant(
        "volume sink index is out of bounds",
    ));
    let mut sink = MemoryArchiveSink::default();
    sink.begin_archive(1).unwrap();
    assert_eq!(sink.write_volume(1, b"a"), Err(refusal));
    assert_eq!(sink.refused, Some(refusal));
    assert_eq!(sink.refusals, vec![refusal]);
    sink.write_volume(0, b"a").unwrap();
    assert_eq!(sink.refused, None);
    assert_eq!(sink.refusals, vec![refusal]);
    assert_eq!(sink.volumes, vec![b"a".to_vec()]);
}

#[test]
fn a_refused_order_leaves_the_sink_alone() {
    let writers: [fn(WriterOptions, &mut RefusingSink) -> Result<(), ArchiveWriteError>; 3] =
        [two_passes, one_pass, in_order];
    for write in writers {
        for options in [
            WriterOptions { jobs: 0, ..fixed_options() },
            WriterOptions { block_size: 4095, ..fixed_options() },
            WriterOptions { max_path_length: 1_000_000, ..fixed_options() },
        ] {
            let mut sink = RefusingSink { refused_call: 0, calls: 0 };
            assert!(matches!(write(options, &mut sink), Err(ArchiveWriteError::Format(_))));
            assert_eq!(sink.calls, 0);
        }
    }
    let mut sink = RefusingSink { refused_call: 0, calls: 0 };
    let lossy = WriterOptions { stripe_width: 2, volume_loss_tolerance: 1, ..fixed_options() };
    assert!(one_pass(lossy, &mut sink).is_err());
    assert_eq!(sink.calls, 0);
}

#[test]
fn a_failed_plan_leaves_the_sink_alone() {
    let mut sink = RefusingSink { refused_call: 0, calls: 0 };
    let tight = WriterOptions { target_volume_size: Some(1), ..fixed_options() };
    assert!(two_passes(tight, &mut sink).is_err());
    assert_eq!(sink.calls, 0);
}

#[test]
fn every_pass_reports_all_bytes_of_the_sources() {
    let large = vec![5u8; 100_000];
    let files = [
        RegularFile::new("a.bin", &large),
        RegularFile::new("b.bin", b"second"),
        RegularFile::new("empty.bin", b""),
    ];
    let total = 100_006;
    let mut told = Told::default();
    let mut sink = MemoryArchiveSink::default();
    write_archive_sources_to_sink_with_progress(
        &codec(),
        &files,
        &key(),
        fixed_options(),
        None,
        &KdfParams::Raw,
        None,
        NO_SIGNER,
        &CAPS,
        &mut sink,
        &mut told,
    )
    .unwrap();
    assert_eq!(
        told.phases,
        [
            ArchiveWritePhase::PlanningPayload,
            ArchiveWritePhase::PlanningMetadata,
            ArchiveWritePhase::EmittingPayload,
            ArchiveWritePhase::EmittingMetadata,
        ]
    );
    assert_eq!(told.total(ArchiveWritePhase::PlanningPayload), total);
    assert_eq!(told.total(ArchiveWritePhase::EmittingPayload), total);
    assert_eq!(told.total(ArchiveWritePhase::PlanningMetadata), 0);
    assert_eq!(told.total(ArchiveWritePhase::EmittingMetadata), 0);
    let of_the_first: u64 = told
        .reads
        .iter()
        .filter(|read| read.0 == ArchiveWritePhase::EmittingPayload && read.1 == "a.bin")
        .map(|read| read.2)
        .sum();
    assert_eq!(of_the_first, 100_000);

    let mut told = Told::default();
    let mut sink = MemoryArchiveSink::default();
    let sized = WriterOptions { target_volume_size: Some(40_000), ..fixed_options() };
    write_archive_sources_to_sink_with_progress(
        &codec(),
        &files,
        &key(),
        sized,
        None,
        &KdfParams::Raw,
        None,
        NO_SIGNER,
        &CAPS,
        &mut sink,
        &mut told,
    )
    .unwrap();
    let passes =
        told.phases.iter().filter(|phase| **phase == ArchiveWritePhase::PlanningPayload).count() as u64;
    assert!(passes > 1);
    assert_eq!(told.total(ArchiveWritePhase::PlanningPayload), passes * total);
    assert_eq!(told.total(ArchiveWritePhase::EmittingPayload), total);

    let mut told = Told::default();
    write_archive_sources_to_sink_single_pass_with_progress(
        &codec(),
        &files,
        &key(),
        fixed_options(),
        &KdfParams::Raw,
        None,
        NO_SIGNER,
        &CAPS,
        &mut MemoryArchiveSink::default(),
        &mut told,
    )
    .unwrap();
    assert_eq!(told.total(ArchiveWritePhase::PlanningPayload), 0);
    assert_eq!(told.total(ArchiveWritePhase::EmittingPayload), total);

    let mut told = Told::default();
    write_archive_sources_to_sink_ordered_parallel_with_progress(
        &codec(),
        &files,
        &key(),
        fixed_options(),
        &KdfParams::Raw,
        None,
        NO_SIGNER,
        &CAPS,
        &mut MemoryArchiveSink::default(),
        &mut told,
    )
    .unwrap();
    assert_eq!(told.total(ArchiveWritePhase::PlanningPayload), 0);
    assert_eq!(told.total(ArchiveWritePhase::EmittingPayload), total);
}

#[test]
fn a_phase_reports_no_more_than_the_declared_size() {
    let mut told = Told::default();
    let mut ledger = SourceProgressState::new();
    ledger.record(&mut told, "a", 5, 10);
    assert!(told.reads.is_empty());
    ledger.start_phase(&mut told, ArchiveWritePhase::PlanningPayload);
    for _ in 0..4 {
        ledger.record(&mut told, "a", 3, 10);
    }
    ledger.record(&mut told, "b", 2, 10);
    assert_eq!(told.total(ArchiveWritePhase::PlanningPayload), 12);
    ledger.start_phase(&mut told, ArchiveWritePhase::EmittingPayload);
    ledger.record(&mut told, "a", 4, 10);
    assert_eq!(told.total(ArchiveWritePhase::EmittingPayload), 4);
    let mut nobody = Unobserved::new();
    ledger.record(&mut nobody, "a", 4, 10);
}

#[test]
fn fixed_identities_fix_the_archive() {
    let files = [RegularFile::new("x", b"x"), RegularFile::new("dir/y", b"yy")];
    let wide = WriterOptions { stripe_width: 3, volume_loss_tolerance: 1, ..fixed_options() };
    for options in [fixed_options(), wide] {
        let first = write_archive(&codec(), &files, &key(), options, &CAPS).unwrap();
        let again = write_archive(&codec(), &files, &key(), options, &CAPS).unwrap();
        let raw = write_archive_with_kdf(&codec(), &files, &key(), options, &KdfParams::Raw, &CAPS).unwrap();
        assert_eq!(first.volumes, again.volumes);
        assert_eq!(first.volumes, raw.volumes);
        assert_eq!(first.bootstrap_sidecar, raw.bootstrap_sidecar);
        assert_eq!(first.bytes, raw.volumes[0]);
    }
}

#[test]
fn an_unencrypted_archive_is_that_of_no_key() {
    let files = [RegularFile::new("x", b"not sealed")];
    let options = WriterOptions { aead_algo: AeadAlgo::Unsealed, ..fixed_options() };
    let plain = write_archive_unencrypted(&codec(), &files, fixed_options(), &CAPS).unwrap();
    for raw in [[1u8; 32], [9u8; 32]] {
        let master = MasterKey::from_raw_key(&raw).unwrap();
        let keyless =
            write_archive_with_kdf(&codec(), &files, &master, options, &KdfParams::NoKey, &CAPS).unwrap();
        assert_eq!(plain.volumes, keyless.volumes);
        assert_eq!(plain.bootstrap_sidecar, keyless.bootstrap_sidecar);
    }
}

#[test]
fn the_signers_error_is_returned() {
    let files = [RegularFile::new("signed.txt", b"payload")];
    let config = RootAuthWriterConfig {
        authenticator_id: 1,
        signer_identity_type: 1,
        signer_identity: b"signer",
        authenticator_value_length: 32,
    };
    let sign = |answer: Result<Vec<u8>, FormatError>| {
        write_archive_with_root_auth(
            &codec(),
            &files,
            &key(),
            fixed_options(),
            config,
            |_: &RootAuthSigningRequest| answer,
            &CAPS,
        )
    };
    assert!(sign(Ok(vec![1; 32])).is_ok());
    assert_eq!(
        sign(Err(FormatError::WriterUnsupported("locked"))).unwrap_err(),
        FormatError::WriterUnsupported("locked")
    );
    for length in [0, 31, 33] {
        assert_eq!(
            sign(Ok(vec![1; length])).unwrap_err(),
            FormatError::WriterUnsupported("root-auth authenticator length mismatch")
        );
    }
}

#[test]
fn the_signers_error_is_returned_under_fresh_identities_and_to_recipients() {
    let files = [RegularFile::new("signed.txt", b"payload")];
    let config = RootAuthWriterConfig {
        authenticator_id: 1,
        signer_identity_type: 1,
        signer_identity: b"signer",
        authenticator_value_length: 32,
    };
    let record = RecipientRecordV1 {
        record_length: 64,
        profile_id: 1,
        recipient_identity_type: 1,
        flags: 0,
        recipient_identity_length: 9,
        profile_payload_length: 7,
        recipient_identity_digest: [0; 32],
        recipient_identity_bytes: b"recipient".to_vec(),
        profile_payload_bytes: b"wrapped".to_vec(),
    };
    let options = WriterOptions { archive_uuid: None, session_id: None, ..fixed_options() };
    let sign = |answer: Result<Vec<u8>, FormatError>| {
        let mut sink = MemoryArchiveSink::default();
        write_archive_sources_to_sink_single_pass_with_recipient_wrap_records(
            &codec(),
            &files,
            &key(),
            options,
            vec![record.duplicate()],
            Some(config),
            Some(|_: &RootAuthSigningRequest| answer),
            &CAPS,
            &mut sink,
        )
        .map(|summary| summary.volume_count)
    };
    let plain = |answer: Result<Vec<u8>, FormatError>| {
        write_archive_with_root_auth(
            &codec(),
            &files,
            &key(),
            options,
            config,
            |_: &RootAuthSigningRequest| answer,
            &CAPS,
        )
        .map(|archive| archive.volumes.len())
    };
    let locked = FormatError::WriterUnsupported("locked");
    let mismatch = FormatError::WriterUnsupported("root-auth authenticator length mismatch");
    assert_eq!(plain(Ok(vec![1; 32])), Ok(1));
    assert_eq!(plain(Err(locked)), Err(locked));
    assert_eq!(plain(Ok(vec![1; 31])), Err(mismatch));
    assert_eq!(sign(Ok(vec![1; 32])), Ok(1));
    assert_eq!(sign(Err(locked)), Err(ArchiveWriteError::Format(locked)));
    assert_eq!(sign(Ok(vec![1; 33])), Err(ArchiveWriteError::Format(mismatch)));
}

#[test]
fn plain_blocks_tell_what_they_are() {
    let framing = LAYOUT.block_record_framing as usize;
    let record = codec().encode_block(0x0102_0304_0506_0708, BlockKind::IndexRootData, 3, b"payload");
    assert_eq!(&record[..10], &[8, 7, 6, 5, 4, 3, 2, 1, 8, 3]);
    assert!(record[10..framing].iter().all(|byte| *byte == 0));
    assert_eq!(&record[framing..], b"payload");
    let narrow = PlainCodec::new(WireLayout { block_record_framing: 4, ..LAYOUT }).unwrap();
    assert_eq!(narrow.encode_block(1, BlockKind::PayloadData, 0, b"x"), [1, 0, 0, 0, b'x']);
}

#[test]
fn plain_padding_and_frames_can_be_undone() {
    let padded = codec().pad(b"ends in zeros\0\0", 16, 32).unwrap();
    assert_eq!(padded.len() + 16, 32);
    assert_eq!(padded, b"ends in zeros\0\0\x01");
    assert_eq!(codec().pad(b"", 0, 4), Ok(vec![1, 0, 0, 0]));
    assert_eq!(codec().pad(b"full", 0, 4), Ok(b"full\x01\0\0\0".to_vec()));
    assert_eq!(codec().compress(b"", 3, None, 1), Ok(vec![0]));
    assert_eq!(codec().compress(b"ab", 3, None, 1), Ok(vec![0, b'a', b'b']));
}

/// Reads the payload blocks of a plain archive in one volume, from the first one on.
fn read_plain_payload(volume: &[u8], block_size: usize) -> Vec<u8> {
    let framing = LAYOUT.block_record_framing as usize;
    let first = (0..volume.len())
        .find(|at| {
            let head = |number: u64| {
                let mut head = number.to_le_bytes().to_vec();
                head.resize(framing, 0);
                head
            };
            volume[*at..].starts_with(&head(0))
                && volume[*at + framing..].first() == Some(&0)
                && volume[*at + framing + block_size..].starts_with(&head(1)[..8])
        })
        .unwrap();
    let mut payload = Vec::new();
    let mut at = first;
    while volume[at + 8] == 0 {
        payload.extend_from_slice(&volume[at + framing..at + framing + block_size]);
        at += framing + block_size;
    }
    payload
}

#[test]
fn files_are_read_from_the_volumes_that_hold_them() {
    let contents: Vec<u8> = (0..6000u32).map(|i| (i % 251) as u8).collect();
    let files = [RegularFile::new("data.bin", &contents)];
    let options = WriterOptions { aead_algo: AeadAlgo::Unsealed, bit_rot_buffer_pct: 0, ..fixed_options() };
    let archive = write_archive_unencrypted(&codec(), &files, options, &CAPS).unwrap();
    assert_eq!(archive.volumes.len(), 1);
    assert_eq!(archive.bytes, archive.volumes[0]);
    assert_eq!(archive.archive_uuid, [0x61; 16]);
    let payload = read_plain_payload(&archive.bytes, options.block_size as usize);
    let end = payload.iter().rposition(|byte| *byte != 0).unwrap();
    assert_eq!(payload[end], 1);
    let group = &payload[1..end];
    assert_eq!(group.len() % 512, 0);
    let padding = 512 - contents.len() % 512;
    assert_eq!(&group[group.len() - padding - contents.len()..group.len() - padding], &contents[..]);
}

struct NoRecipients;

impl RecipientRecords for NoRecipients {
    fn records(&self) -> Result<Vec<RecipientRecordV1>, FormatError> {
        Err(FormatError::WriterUnsupported("no recipient known"))
    }
}

#[test]
fn a_callback_that_fails_answers_with_its_error() {
    let source = KeyWrapRecordSource::callback(Box::new(NoRecipients));
    assert_eq!(source.resolve().unwrap_err(), FormatError::WriterUnsupported("no recipient known"));
}

#[test]
fn inline_auxiliary_payloads_open_and_no_others() {
    let mut metadata = PortableFileMetadata::default();
    metadata.native.auxiliary_records.push(NativeAuxiliaryMetadata::new(
        "xattr".to_string(),
        "portable-v1".to_string(),
        RestoreClass::Portable,
        b"inline payload".to_vec(),
    ));
    let mut file = RegularFile::new("a", b"data");
    file.portable_metadata = metadata;
    let mut reader = file.open_auxiliary(0).unwrap();
    assert_eq!(reader.read(100).unwrap(), b"inline payload");
    assert_eq!(reader.read(100).unwrap(), b"");
    assert!(file.open_auxiliary(1).is_err());
}

#[test]
fn sealed_objects_have_their_planned_size() {
    let options = plan_writer_options(
        WriterOptions { bit_rot_buffer_pct: 0, aead_algo: AeadAlgo::Unsealed, ..fixed_options() },
        &CAPS,
    )
    .unwrap();
    let codec = codec();
    let seal = ArchiveSeal {
        subkeys: codec.derive_subkeys(&key(), &[0x61; 16], &[0x62; 16]).unwrap(),
        archive_uuid: [0x61; 16],
        session_id: [0x62; 16],
    };
    let context = seal.context(ObjectDomain::Envelope, 0, options);
    for length in [0usize, 1, 4095, 4096, 4097, 10_000] {
        let payload = vec![3u8; length];
        let planned = plan_encrypted_object(
            length,
            context.data_shard_max,
            context.class_parity_shard_max,
            options,
        )
        .unwrap();
        let mut next = 11;
        let object = encrypt_object(&codec, &payload, &context, &mut next, options).unwrap();
        assert_eq!(next, 11 + planned.data_block_count as u64);
        assert_eq!(object.data_block_count, planned.data_block_count);
        assert_eq!(object.parity_block_count, planned.parity_block_count);
        assert_eq!(object.encrypted_size, planned.encrypted_size);
        let extent = ObjectExtent {
            first_block_index: 11,
            data_block_count: planned.data_block_count,
            parity_block_count: 0,
            encrypted_size: planned.encrypted_size,
        };
        let direct =
            serialize_zero_parity_encrypted_object(&codec, &payload, &context, extent, options).unwrap();
        assert_eq!(direct.len(), object.records.len());
        for (written, record) in direct.iter().zip(&object.records) {
            assert_eq!(written.block_index, record.block_index);
            assert_eq!(
                written.bytes,
                codec.encode_block(record.block_index, record.kind, record.flags, &record.payload)
            );
        }
    }
}

#[test]
fn leaves_are_collected_block_by_block() {
    let options = plan_writer_options(
        WriterOptions { bit_rot_buffer_pct: 0, aead_algo: AeadAlgo::Unsealed, ..fixed_options() },
        &CAPS,
    )
    .unwrap();
    let codec = codec();
    let seal = ArchiveSeal {
        subkeys: codec.derive_subkeys(&key(), &[0x61; 16], &[0x62; 16]).unwrap(),
        archive_uuid: [0x61; 16],
        session_id: [0x62; 16],
    };
    let context = seal.context(ObjectDomain::Envelope, 0, options);
    let mut next = 0;
    let object = encrypt_object(&codec, &[1u8; 9000], &context, &mut next, options).unwrap();
    let mut sink = MemoryArchiveSink::default();
    let mut state = begin_writer_emission_state(
        &codec,
        &mut sink,
        options,
        &[0u8; 200],
        None,
        [0x61; 16],
        [0x62; 16],
        VOLUME_FORMAT_REV_45,
        true,
    )
    .unwrap();
    emit_block_records(&codec, &mut sink, options, &mut state, &object.records).unwrap();
    let leaves = state.data_leaf_hashes.unwrap();
    assert_eq!(leaves.iter().map(|leaf| leaf.block_index).collect::<Vec<u64>>(), [0, 1, 2]);
    assert_eq!(state.record_counts, [3]);
}

#[test]
fn the_single_pass_root_class_is_the_largest_that_fits() {
    let caps = ReaderCaps { max_index_root_fec_class_shards: 500, ..CAPS };
    for percent in [0u8, 5, 50] {
        let options = WriterOptions { bit_rot_buffer_pct: percent, ..fixed_options() };
        let chosen = max_single_pass_index_root_data_shards(options, &caps).unwrap() as u64;
        let fits = |data: u64| data + compute_parity(data, options).unwrap() as u64 <= 500;
        assert!(fits(chosen));
        assert!((chosen + 1..600).all(|data| !fits(data)));
    }
}

#[test]
fn signed_volumes_stay_within_their_target() {
    let data = vec![9u8; 300_000];
    let files = [RegularFile::new("sized.bin", &data)];
    let config = RootAuthWriterConfig {
        authenticator_id: 1,
        signer_identity_type: 1,
        signer_identity: b"signer",
        authenticator_value_length: 64,
    };
    for target in [200_000u64, 100_000, 60_000] {
        let options =
            WriterOptions { target_volume_size: Some(target), bit_rot_buffer_pct: 0, ..fixed_options() };
        let archive = write_archive_with_root_auth(
            &codec(),
            &files,
            &key(),
            options,
            config,
            |_: &RootAuthSigningRequest| Ok(vec![1; 64]),
            &CAPS,
        )
        .unwrap();
        assert!(archive.volumes.len() > 1);
        assert!(archive.volumes.iter().all(|volume| volume.len() as u64 <= target));
    }
}
