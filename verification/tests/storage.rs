use download_manager_engine::integrity::ExpectedSha256;
use download_manager_engine::storage::{is_managed_partial_filename, part_filename, 
    ChecksumRun, FileRange, IoErrorKind, IoFailure, MAX_FILENAME_UTF16_UNITS, Promotion, StorageError,
    StorageOperation, WriteLedger, WritePhase, storage_io_error,
    classify_io, classify_io_error, has_exact_coverage, insert_completed, numbered_filename, sanitize_filename,
    validate_recovered_coverage,
};
use std::io;

fn range(start: u64, end: u64) -> FileRange {
    FileRange::new(start, end).expect("valid test range")
}

#[test]
fn sanitizer_blocks_windows_paths_devices_and_trailing_aliases() {
    let cases = [
        (r"..\..\secret.txt", ".._.._secret.txt"),
        ("../../secret.txt", ".._.._secret.txt"),
        (r"C:\temp\payload.exe", "C_temp_payload.exe"),
        (r"name:stream", "name_stream"),
        ("CON.txt", "_CON.txt"),
        ("com1", "_com1"),
        ("LPT².log", "_LPT².log"),
        ("report. ", "report"),
        ("...", "download"),
        ("\0bad\u{0001}name", "_bad_name"),
    ];

    for (input, expected) in cases {
        assert_eq!(
            sanitize_filename(input).as_str(),
            expected,
            "input {input:?}"
        );
    }
}

#[test]
fn sanitizer_bounds_utf16_without_splitting_unicode() {
    let sanitized = sanitize_filename(&"🦀".repeat(200));
    assert!(sanitized.as_str().encode_utf16().count() <= MAX_FILENAME_UTF16_UNITS);
    assert!(!sanitized.as_str().ends_with(char::REPLACEMENT_CHARACTER));
}

#[test]
fn numbered_names_preserve_normal_extensions_and_remain_bounded() {
    assert_eq!(numbered_filename("archive.tar.gz", 3), "archive.tar (3).gz");
    let long = sanitize_filename(&format!("{}.bin", "x".repeat(176)));
    let candidate = numbered_filename(long.as_str(), 9999);
    assert!(candidate.encode_utf16().count() <= MAX_FILENAME_UTF16_UNITS);
    assert!(candidate.ends_with(" (9999).bin"));
}

#[test]
fn numbered_names_edge_cases() {
    assert_eq!(numbered_filename("plain", 0), "plain");
    assert_eq!(numbered_filename("plain", 12), "plain (12)");
    assert_eq!(numbered_filename(".hidden", 1), ".hidden (1)");
    let long_extension = format!("a.{}", "e".repeat(175));
    let candidate = numbered_filename(&long_extension, 2);
    assert!(candidate.ends_with(" (2)"));
    assert_eq!(candidate.encode_utf16().count(), MAX_FILENAME_UTF16_UNITS);
}

#[test]
fn sanitizer_collapses_replacement_runs_and_trims() {
    assert_eq!(sanitize_filename("a<>b").as_str(), "a_b");
    assert_eq!(sanitize_filename("  padded  ").as_str(), "padded");
    assert_eq!(sanitize_filename("").as_str(), "download");
    assert_eq!(sanitize_filename("..").as_str(), "download");
    assert_eq!(sanitize_filename("nul .txt").as_str(), "_nul .txt");
    assert_eq!(sanitize_filename("CLOCK$").as_str(), "_CLOCK$");
    assert_eq!(sanitize_filename("COM10").as_str(), "COM10");
}

#[test]
fn file_ranges_are_non_empty() {
    assert_eq!(
        FileRange::new(5, 5),
        Err(StorageError::InvalidRange { start: 5, end: 5 })
    );
    let r = range(3, 8);
    assert_eq!(r.len(), 5);
    assert!(!r.is_empty());
    assert_eq!((r.start(), r.end()), (3, 8));
}

#[test]
fn recovered_coverage_must_be_canonical() {
    assert_eq!(validate_recovered_coverage(&[range(0, 5), range(6, 8)], 8), Ok(()));
    assert_eq!(
        validate_recovered_coverage(&[range(0, 5), range(5, 8)], 8),
        Err(StorageError::InvalidCompletedCoverage)
    );
    assert_eq!(
        validate_recovered_coverage(&[range(0, 9)], 8),
        Err(StorageError::InvalidCompletedCoverage)
    );
    assert_eq!(validate_recovered_coverage(&[], 0), Ok(()));
}

#[test]
fn completed_insertion_merges_adjacent_ranges() {
    let mut completed = vec![range(0, 5), range(10, 15)];
    insert_completed(&mut completed, range(5, 10));
    assert_eq!(completed, vec![range(0, 15)]);
    insert_completed(&mut completed, range(20, 25));
    assert_eq!(completed, vec![range(0, 15), range(20, 25)]);
    insert_completed(&mut completed, range(16, 18));
    assert_eq!(completed, vec![range(0, 15), range(16, 18), range(20, 25)]);
    assert!(has_exact_coverage(&[range(0, 4)], 4));
    assert!(!has_exact_coverage(&[range(0, 4)], 5));
    assert!(has_exact_coverage(&[], 0));
}

#[test]
fn io_classification_is_stable_and_path_free() {
    assert_eq!(
        classify_io_error(&io::Error::from(io::ErrorKind::StorageFull), false),
        IoFailure::DiskFull
    );
    assert_eq!(
        classify_io_error(&io::Error::from(io::ErrorKind::PermissionDenied), false),
        IoFailure::AccessDenied
    );
    assert_eq!(
        classify_io_error(&io::Error::from(io::ErrorKind::Unsupported), false),
        IoFailure::Unsupported
    );
}

#[test]
fn windows_sharing_violations_are_reported_as_file_locks() {
    assert_eq!(classify_io_error(&io::Error::from_raw_os_error(32), true), IoFailure::FileLocked);
    assert_eq!(classify_io_error(&io::Error::from_raw_os_error(33), true), IoFailure::FileLocked);
    assert_eq!(classify_io_error(&io::Error::from_raw_os_error(112), true), IoFailure::DiskFull);
    assert_eq!(classify_io_error(&io::Error::from_raw_os_error(50), true), IoFailure::Unsupported);
}

#[test]
fn io_classification_by_kind_and_code() {
    assert_eq!(classify_io(IoErrorKind::QuotaExceeded, None, false), IoFailure::DiskFull);
    assert_eq!(classify_io(IoErrorKind::ReadOnlyFilesystem, None, false), IoFailure::AccessDenied);
    assert_eq!(classify_io(IoErrorKind::AlreadyExists, None, false), IoFailure::AlreadyExists);
    assert_eq!(classify_io(IoErrorKind::NotFound, None, false), IoFailure::NotFound);
    assert_eq!(classify_io(IoErrorKind::CrossesDevices, None, false), IoFailure::Unsupported);
    assert_eq!(classify_io(IoErrorKind::Other, None, false), IoFailure::Other);
    assert_eq!(classify_io(IoErrorKind::Other, Some(183), true), IoFailure::AlreadyExists);
    assert_eq!(classify_io(IoErrorKind::Other, Some(39), true), IoFailure::DiskFull);
    assert_eq!(classify_io(IoErrorKind::Other, Some(17), true), IoFailure::Unsupported);
    assert_eq!(classify_io(IoErrorKind::NotFound, Some(32), false), IoFailure::NotFound);
    assert_eq!(classify_io(IoErrorKind::NotFound, Some(2), true), IoFailure::NotFound);
}

#[test]
fn ledger_assigns_disjoint_ranges_and_tracks_completion() {
    let mut ledger = WriteLedger::new(Some(100), vec![]).expect("ledger");
    let first = ledger.assign(range(0, 50)).expect("first");
    let second = ledger.assign(range(50, 100)).expect("second");
    assert_ne!(first, second);
    assert_eq!(
        ledger.assign(range(40, 60)),
        Err(StorageError::OverlappingAssignment { range: range(40, 60) })
    );
    assert_eq!(
        ledger.assign(range(90, 101)),
        Err(StorageError::RangeOutOfBounds { range: range(90, 101), expected_len: 100 })
    );
    assert_eq!(ledger.plan_segment_write(first, range(0, 50), 30), Ok(0));
    ledger.record_segment_write(first, 30);
    assert_eq!(
        ledger.finish_segment(first),
        Err(StorageError::IncompleteAssignment { expected: 50, written: 30 })
    );
    assert_eq!(ledger.plan_segment_write(first, range(0, 50), 20), Ok(30));
    assert_eq!(
        ledger.plan_segment_write(first, range(0, 50), 21),
        Err(StorageError::WriteOutOfBounds { range: range(0, 50), offset: 30, bytes: 21 })
    );
    ledger.record_segment_write(first, 50);
    assert_eq!(ledger.finish_segment(first), Ok(()));
    assert_eq!(ledger.completed_view(), &[range(0, 50)]);
    assert_eq!(ledger.begin_validation(), Err(StorageError::ActiveAssignments { count: 1 }));
    ledger.record_segment_write(second, 100);
    assert_eq!(ledger.finish_segment(second), Ok(()));
    assert_eq!(ledger.completed_view(), &[range(0, 100)]);
    assert_eq!(ledger.begin_publication(), Err(StorageError::NotActive));
    assert_eq!(ledger.begin_validation(), Ok(100));
    assert_eq!(ledger.phase(), WritePhase::Validating);
}

#[test]
fn checksum_runs_hash_exactly_the_expected_bytes() {
    let abc = ExpectedSha256::parse("ba7816bf8f01cfea414140de5dae2223b00361a396177a9cb410ff61f20015ad").expect("digest");
    let mut run = ChecksumRun::new(3);
    assert_eq!(run.absorb(b"ab"), Ok(()));
    assert_eq!(run.absorb(b"c"), Ok(()));
    assert_eq!(run.finish(&abc), Ok(()));

    let mut wrong = ChecksumRun::new(3);
    assert_eq!(wrong.absorb(b"abd"), Ok(()));
    assert_eq!(wrong.finish(&abc), Err(StorageError::ChecksumMismatch));

    let mut short = ChecksumRun::new(3);
    assert_eq!(short.absorb(b"ab"), Ok(()));
    assert_eq!(short.finish(&abc), Err(StorageError::FileLengthChanged { expected: 3, actual: 2 }));

    let mut long = ChecksumRun::new(3);
    assert_eq!(long.absorb(b"abcd"), Err(StorageError::FileLengthChanged { expected: 3, actual: 4 }));
}

#[test]
fn promotion_cleanup_keeps_the_link_until_it_is_removed() {
    let mut promotion = Promotion::published("C:/downloads/file.bin".to_owned(), "C:/downloads/file.bin.part".to_owned());
    assert_eq!(promotion.final_path(), "C:/downloads/file.bin");
    assert_eq!(promotion.partial_path(), Some("C:/downloads/file.bin.part"));
    assert_eq!(promotion.partial_cleanup_failure(), None);

    assert_eq!(promotion.record_cleanup(Ok(false), Ok(())), Err(StorageError::InvalidDestination));
    assert!(promotion.partial_path().is_some());

    let denied = promotion.record_cleanup(Ok(true), Err((IoFailure::AccessDenied, Some(5))));
    assert_eq!(
        denied,
        Err(StorageError::Io {
            operation: StorageOperation::CleanupPartial,
            failure: IoFailure::AccessDenied,
            os_code: Some(5),
        })
    );
    assert_eq!(promotion.partial_cleanup_failure(), Some(IoFailure::AccessDenied));
    assert!(promotion.partial_path().is_some());

    assert_eq!(promotion.record_cleanup(Ok(true), Ok(())), Ok(()));
    assert_eq!(promotion.partial_path(), None);
    assert_eq!(promotion.partial_cleanup_failure(), None);
    assert_eq!(promotion.record_cleanup(Err((IoFailure::Other, None)), Ok(())), Ok(()));
    assert_eq!(promotion.final_path(), "C:/downloads/file.bin");
}

#[test]
fn storage_errors_carry_operation_failure_and_os_code() {
    let error = io::Error::from_raw_os_error(28);
    match storage_io_error(StorageOperation::Write, &error, false) {
        StorageError::Io { operation, failure, os_code } => {
            assert_eq!(operation, StorageOperation::Write);
            assert_eq!(os_code, Some(28));
            assert_eq!(failure, IoFailure::DiskFull);
        }
        other => panic!("unexpected {other:?}"),
    }
}

#[test]
fn partial_names_are_unique_managed_and_bounded() {
    let name = part_filename("report.pdf", 0x0123_4567_89ab_cdef_0011_2233_4455_6677, 3);
    assert_eq!(name, "report.pdf.dm-0123456789abcdef0011223344556677-03.part");
    assert!(is_managed_partial_filename(&name));
    let wide = part_filename("report.pdf", 1, 0x1ff);
    assert_eq!(wide, "report.pdf.dm-00000000000000000000000000000001-1ff.part");
    assert!(!is_managed_partial_filename(&wide));
    let long = "a".repeat(300);
    let bounded = part_filename(&long, 7, 0);
    assert_eq!(bounded.chars().count(), 180);
    assert!(bounded.starts_with(&"a".repeat(136)));
    assert!(is_managed_partial_filename(&bounded));

    assert!(!is_managed_partial_filename(".dm-0123456789abcdef0011223344556677-03.part"));
    assert!(!is_managed_partial_filename("x.dm-0123456789ABCDEF0011223344556677-03.part"));
    assert!(!is_managed_partial_filename("x.dm-0123456789abcdef0011223344556677-03.tmp"));
    assert!(!is_managed_partial_filename("x.dm-0123456789abcdef001122334455667-003.part"));
    assert!(is_managed_partial_filename("x.dm-y.dm-0123456789abcdef0011223344556677-0a.part"));
}

#[test]
fn sanitizing_a_sanitized_name_changes_nothing() {
    let long_dotted = format!("{}.txt.", "b".repeat(200));
    for input in ["con", "CON .txt", " a:b/c? ", "...", "", "lpt\u{b9}.log", "report.pdf", long_dotted.as_str()] {
        let once = sanitize_filename(input);
        let twice = sanitize_filename(once.as_str());
        assert_eq!(twice.as_str(), once.as_str(), "input {input:?}");
    }
}
