//! The parts of the writer by themselves, on given values.
use tzap_writer::arith::{
    ceil_div, checked_u64_add, checked_u64_mul, checked_usize_add, padding_to_512,
    padding_to_512_u64, table_offset, to_usize_writer, u32_len,
};
use tzap_writer::byte_map::ByteMap;
use tzap_writer::bytes::{append_le, be_vec, decimal_digits, order_bytes, Order};
use tzap_writer::clock::WriterTimings;
use tzap_writer::cmra::cmra_min_parity_shards;
use tzap_writer::digest::sha256_bytes;
use tzap_writer::errors::{ArchiveWriteError, FormatError, IoError};
use tzap_writer::ids::choose_id;
use tzap_writer::key_wrap::recipient_wrap_kdf_params_for_record_count;
use tzap_writer::keys::KdfParams;
use tzap_writer::metadata::{NativeAuxiliaryMetadata, RestoreClass};
use tzap_writer::object_plan::striped_block_count;
use tzap_writer::options::{
    compute_parity, plan_single_pass_writer_options, plan_writer_options,
    validate_dictionary_inputs, validate_single_pass_writer_options, ReaderCaps, WriterOptions,
};
use tzap_writer::progress::{
    ArchiveWritePhase, ArchiveWriteProgressSink, SourceProgressState,
};
use tzap_writer::reorder::ReorderBuffer;
use tzap_writer::source::opening_failure;
use tzap_writer::sparse::{encode_v45_sparse_map, sparse_extent_bytes, SparseExtent};
use tzap_writer::stream::{SectionOrigin, StreamingMemberSection};
use tzap_writer::tar::{
    build_pax_record, build_plain_member_group, build_ustar_header, path_requires_pax,
    pax_ustar_fallback_path, tar_octal_fits, write_tar_octal,
};
use tzap_writer::text::{any_token_of, parse_number};
use tzap_writer::writer::format_error_from_archive_write_error;

const CAPS: ReaderCaps = ReaderCaps {
    max_stripe_width: 64,
    max_block_size: 1 << 20,
    max_chunk_size: 1 << 24,
    max_path_length: 8192,
    max_fec_class_shards: 4096,
    max_index_root_fec_class_shards: 8192,
    max_root_auth_signer_identity_len: 1024,
    max_root_auth_authenticator_value_len: 1024,
    max_root_auth_footer_len: 4096,
    max_cmra_parity_pct: 50,
};

#[test]
fn sums_and_products_name_the_field_that_overflows() {
    assert_eq!(checked_u64_add(2, 3, "sum"), Ok(5));
    assert_eq!(checked_u64_add(u64::MAX, 1, "sum"), Err(FormatError::WriterUnsupported("sum")));
    assert_eq!(checked_u64_mul(6, 7, "product"), Ok(42));
    assert_eq!(checked_u64_mul(1 << 40, 1 << 40, "product"), Err(FormatError::WriterUnsupported("product")));
    assert_eq!(checked_usize_add(usize::MAX, 1, "len"), Err(FormatError::WriterUnsupported("len")));
    assert_eq!(u32_len(1 << 33, "wide"), Err(FormatError::WriterUnsupported("wide")));
    assert_eq!(u32_len(77, "wide"), Ok(77));
    assert_eq!(to_usize_writer(9, "size"), Ok(9));
}

#[test]
fn quotients_are_rounded_up() {
    assert_eq!(ceil_div(0, 7), Ok(0));
    assert_eq!(ceil_div(14, 7), Ok(2));
    assert_eq!(ceil_div(15, 7), Ok(3));
    assert!(ceil_div(15, 0).is_err());
}

#[test]
fn padding_completes_a_record() {
    assert_eq!(padding_to_512(0), 0);
    assert_eq!(padding_to_512(1), 511);
    assert_eq!(padding_to_512(512), 0);
    assert_eq!(padding_to_512_u64(513), 511);
    assert_eq!(table_offset(0, 900), Ok(0));
    assert_eq!(table_offset(1, 900), Ok(900));
}

#[test]
fn numbers_are_written_in_full() {
    let mut out = vec![9u8];
    append_le(&mut out, 0x0102_0304, 4);
    assert_eq!(out, [9, 4, 3, 2, 1]);
    assert_eq!(be_vec(0x0102, 4), [0, 0, 1, 2]);
    assert_eq!(decimal_digits(1_020), b"1020");
    assert_eq!(parse_number(b"00ff", 16, u64::MAX), Some(255));
    assert_eq!(parse_number(b"+12", 10, 12), Some(12));
    assert_eq!(parse_number(b"13", 10, 12), None);
    assert_eq!(parse_number(b"", 10, 12), None);
    assert_eq!(parse_number(b"1x", 10, 12), None);
}

#[test]
fn byte_strings_are_ordered_by_their_first_difference() {
    assert_eq!(order_bytes(b"ab", b"abc"), Order::Before);
    assert_eq!(order_bytes(b"b", b"abc"), Order::After);
    assert_eq!(order_bytes(b"abc", b"abc"), Order::Same);
}

#[test]
fn byte_maps_keep_one_value_for_each_key_in_order() {
    let mut map = ByteMap::new();
    assert_eq!(map.insert(b"b".to_vec(), 1), None);
    assert_eq!(map.insert(b"a".to_vec(), 2), None);
    assert_eq!(map.insert(b"b".to_vec(), 3), Some(1));
    assert_eq!(map.get(b"b"), Some(&3));
    assert!(!map.contains_key(b"c"));
    assert_eq!(*map.entries(), [(b"a".to_vec(), 2), (b"b".to_vec(), 3)]);
    assert_eq!(map.clone(), map);
    assert_eq!(ByteMap::from_entries(vec![(b"a".to_vec(), 2), (b"b".to_vec(), 3)]), map);
}

#[test]
fn tokens_are_separated_by_commas() {
    assert!(any_token_of(b"nodump,uchg", &["uchg", "schg"]));
    assert!(!any_token_of(b"nodump,uchgx", &["uchg", "schg"]));
}

#[test]
fn the_digest_is_sha_256() {
    let expected = [
        0xba, 0x78, 0x16, 0xbf, 0x8f, 0x01, 0xcf, 0xea, 0x41, 0x41, 0x40, 0xde, 0x5d, 0xae, 0x22, 0x23, 0xb0, 0x03,
        0x61, 0xa3, 0x96, 0x17, 0x7a, 0x9c, 0xb4, 0x10, 0xff, 0x61, 0xf2, 0x00, 0x15, 0xad,
    ];
    assert_eq!(sha256_bytes(b"abc"), expected);
}

#[test]
fn octal_fields_end_in_a_zero_byte() {
    let mut header = vec![0xffu8; 12];
    assert_eq!(write_tar_octal(&mut header, 2, 8, 0o644), Ok(()));
    assert_eq!(header, b"\xff\xff0000644\0\xff\xff");
    assert_eq!(
        write_tar_octal(&mut header, 2, 4, 0o7777),
        Err(FormatError::WriterUnsupported("tar octal field overflow"))
    );
    assert!(tar_octal_fits(8, 0o7777777));
    assert!(!tar_octal_fits(8, 0o10000000));
}

#[test]
fn a_tar_header_carries_the_sum_of_its_bytes() {
    let header = build_ustar_header(b"name.txt", 10, 0o600, 7, b'0').unwrap();
    assert_eq!(header.len(), 512);
    assert_eq!(&header[..9], b"name.txt\0");
    assert_eq!(&header[124..136], b"00000000012\0");
    let sum: u32 = header
        .iter()
        .enumerate()
        .map(|(at, byte)| if (148..156).contains(&at) { 32 } else { u32::from(*byte) })
        .sum();
    assert_eq!(&header[148..156], format!("{sum:06o}\0 ").as_bytes());
}

#[test]
fn a_pax_record_counts_its_own_length() {
    assert_eq!(build_pax_record(b"path", b"a").unwrap(), b"9 path=a\n");
    assert_eq!(build_pax_record(b"path", b"abc").unwrap(), b"12 path=abc\n");
    let two_digits = build_pax_record(b"path", &[b'x'; 90]).unwrap();
    assert!(two_digits.starts_with(b"99 path="));
    assert_eq!(two_digits.len(), 99);
    let three_digits = build_pax_record(b"path", &[b'x'; 91]).unwrap();
    assert!(three_digits.starts_with(b"101 path="));
    assert_eq!(three_digits.len(), 101);
}

#[test]
fn long_and_non_ascii_paths_need_an_extended_header() {
    assert!(!path_requires_pax(&[b'a'; 100]));
    assert!(path_requires_pax(&[b'a'; 101]));
    assert_eq!(pax_ustar_fallback_path("dir/é".as_bytes()), b"pax-file");
    assert_eq!(pax_ustar_fallback_path("é/name".as_bytes()), b"name");
    assert_eq!(build_plain_member_group("é".as_bytes(), b"", 0o644, 1).unwrap()[156], b'x');
    let group = build_plain_member_group(b"short", b"0123456789", 0o644, 1).unwrap();
    assert_eq!(group.len(), 1024);
    assert_eq!(&group[512..522], b"0123456789");
    assert!(group[522..].iter().all(|byte| *byte == 0));
    let long = build_plain_member_group(&[b'a'; 101], b"", 0o644, 1).unwrap();
    assert_eq!(long[156], b'x');
    assert_eq!(long.len(), 3 * 512);
}

#[test]
fn a_sparse_map_lists_its_extents_in_whole_records() {
    let extents = [SparseExtent { offset: 4, length: 3 }, SparseExtent { offset: 16, length: 2 }];
    let map = encode_v45_sparse_map(&extents, 32, 10).unwrap();
    assert_eq!(map.len(), 512);
    assert!(map.starts_with(b"2\n4\n3\n16\n2\n\0"));
    assert_eq!(sparse_extent_bytes(&extents, 32, 10), Ok(5));
    assert!(sparse_extent_bytes(&extents, 32, 1).is_err());
    assert!(sparse_extent_bytes(&extents, 17, 10).is_err());
}

#[test]
fn blocks_are_striped_evenly() {
    let counts: Vec<u64> = (0..3).map(|volume| striped_block_count(10, 3, volume)).collect();
    assert_eq!(counts, [4, 3, 3]);
}

#[test]
fn planned_options_plan_to_themselves() {
    let planned = plan_writer_options(WriterOptions::with_jobs(1), &CAPS).unwrap();
    assert_eq!(plan_writer_options(planned, &CAPS), Ok(planned));
    assert_eq!(planned.fec_parity_shards as u32, compute_parity(224, planned).unwrap());
    let more = compute_parity(225, planned).unwrap();
    assert!(more >= planned.fec_parity_shards as u32);
}

#[test]
fn one_pass_refuses_what_it_cannot_know_ahead() {
    let plain = WriterOptions { volume_loss_tolerance: 0, ..WriterOptions::with_jobs(1) };
    assert_eq!(validate_single_pass_writer_options(plain), Ok(()));
    assert_eq!(
        validate_single_pass_writer_options(WriterOptions { volume_loss_tolerance: 1, ..plain }),
        Err(FormatError::WriterUnsupported("streaming create cannot tolerate volume loss"))
    );
    assert_eq!(
        validate_single_pass_writer_options(WriterOptions { target_volume_size: Some(1 << 20), ..plain }),
        Err(FormatError::WriterUnsupported("streaming create does not support target volume sizing"))
    );
    let planned = plan_single_pass_writer_options(plain, &CAPS).unwrap();
    let total = planned.index_root_fec_data_shards as u32 + planned.index_root_fec_parity_shards as u32;
    assert!(total <= CAPS.max_index_root_fec_class_shards);
}

#[test]
fn an_empty_archive_takes_no_dictionary() {
    assert!(validate_dictionary_inputs(false, Some(b"words")).is_ok());
    assert!(validate_dictionary_inputs(true, None).is_ok());
    assert!(validate_dictionary_inputs(true, Some(b"words")).is_err());
    assert!(validate_dictionary_inputs(false, Some(b"")).is_err());
}

#[test]
fn recovery_areas_have_at_least_two_parity_shards() {
    assert_eq!(cmra_min_parity_shards(1, 10), Ok(2));
    assert_eq!(cmra_min_parity_shards(100, 10), Ok(10));
    assert_eq!(cmra_min_parity_shards(101, 10), Ok(11));
}

#[test]
fn recipient_parameters_count_their_records() {
    assert!(matches!(
        recipient_wrap_kdf_params_for_record_count(3),
        Ok(KdfParams::RecipientWrap { key_wrap_table_record_count: 3, .. })
    ));
}

#[test]
fn a_given_identity_is_kept() {
    assert_eq!(choose_id(Some([7; 16])), [7; 16]);
    let random = choose_id(None);
    assert_eq!(random[6] >> 4, 4);
    assert_eq!(random[8] >> 6, 2);
}

#[test]
fn results_leave_the_buffer_in_order() {
    let mut buffer = ReorderBuffer::new();
    assert_eq!(buffer.arrive(2, 'c'), []);
    assert_eq!(buffer.arrive(1, 'b'), []);
    assert_eq!(buffer.arrive(0, 'a'), ['a', 'b', 'c']);
    assert_eq!(buffer.arrive(3, 'd'), ['d']);
}

#[test]
fn timings_add_up_and_stay_at_the_largest_value() {
    let mut timings = WriterTimings { total: u64::MAX, plan_payload: 1, ..WriterTimings::default() };
    timings.add_assign(WriterTimings { total: 5, plan_payload: 2, ..WriterTimings::default() });
    assert_eq!(timings.total, u64::MAX);
    assert_eq!(timings.plan_payload, 3);
}

#[test]
fn the_memory_writer_reports_format_failures() {
    let format = FormatError::WriterUnsupported("limit");
    assert_eq!(format_error_from_archive_write_error(ArchiveWriteError::Format(format)), format);
    assert_eq!(
        format_error_from_archive_write_error(ArchiveWriteError::Io(IoError::Other("disk"))),
        FormatError::WriterInvariant("in-memory archive writer returned I/O")
    );
    assert_eq!(opening_failure(ArchiveWriteError::Format(format)), IoError::Other("limit"));
}

#[derive(Default)]
struct Heard {
    events: Vec<(ArchiveWritePhase, Option<u64>)>,
}

impl ArchiveWriteProgressSink for Heard {
    fn phase_started(&mut self, phase: ArchiveWritePhase) {
        self.events.push((phase, None));
    }

    fn source_bytes_read(&mut self, phase: ArchiveWritePhase, _archive_path: &str, bytes: u64) {
        self.events.push((phase, Some(bytes)));
    }
}

#[test]
fn a_member_reports_no_more_than_its_size_in_a_phase() {
    let mut heard = Heard::default();
    let mut ledger = SourceProgressState::new();
    ledger.start_phase(&mut heard, ArchiveWritePhase::PlanningPayload);
    ledger.record(&mut heard, "a", 6, 10);
    ledger.record(&mut heard, "a", 6, 10);
    ledger.record(&mut heard, "a", 6, 10);
    ledger.start_phase(&mut heard, ArchiveWritePhase::EmittingPayload);
    ledger.record(&mut heard, "a", 6, 10);
    assert_eq!(
        heard.events,
        [
            (ArchiveWritePhase::PlanningPayload, None),
            (ArchiveWritePhase::PlanningPayload, Some(6)),
            (ArchiveWritePhase::PlanningPayload, Some(4)),
            (ArchiveWritePhase::EmittingPayload, None),
            (ArchiveWritePhase::EmittingPayload, Some(6)),
        ]
    );
}

#[test]
fn sections_fill_their_payload_up_to_whole_records() {
    let fixed = StreamingMemberSection::bytes(vec![1; 700]);
    assert_eq!((fixed.size, fixed.padding, fixed.expected_sha256), (700, 0, None));
    let inline = StreamingMemberSection::payload(vec![2; 700], 700, Some([3; 32]));
    assert_eq!((inline.size, inline.padding, inline.expected_sha256), (700, 324, Some([3; 32])));
    let deferred = StreamingMemberSection::deferred_payload(SectionOrigin::Primary, 1024, None);
    assert_eq!((deferred.size, deferred.padding, deferred.expected_sha256), (1024, 0, None));
}

#[test]
fn streamed_payloads_know_their_extents() {
    let extents = vec![SparseExtent { offset: 10, length: 20 }, SparseExtent { offset: 100, length: 5 }];
    let sparse = NativeAuxiliaryMetadata::new_streamed_sparse(
        "x.kind".to_string(),
        "portable-v1".to_string(),
        RestoreClass::Portable,
        200,
        extents.clone(),
        [4; 32],
        1 << 20,
    )
    .unwrap();
    assert_eq!(sparse.streamed_sparse_extents(), Some(extents.as_slice()));
    assert_eq!(sparse.stored_payload_size(), 512 + 25);
    let whole = NativeAuxiliaryMetadata::new_streamed(
        "x.kind".to_string(),
        "portable-v1".to_string(),
        RestoreClass::Portable,
        200,
        [4; 32],
    );
    assert_eq!(whole.streamed_sparse_extents(), None);
    assert_eq!(whole.stored_payload_size(), 200);
}
