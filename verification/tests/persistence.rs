use download_manager_engine::clock::Duration;
use download_manager_engine::network::{EntityTag, Validators};
use download_manager_engine::persistence::{
    PathKind, check_confined_name, check_path_text,
    CheckpointPolicy, FileObservation, LoadFailureReason, PersistenceError, PersistenceOperation, ResourceIdentity,
    StateValidationError, TaskId, TaskState, TimestampMillis, TaskListing, ListedEntry, LoadFailure,
    MAX_TASK_FILES, MAX_DIRECTORY_ENTRIES, TransferMode, bump_revision, check_state_consistency,
    is_temporary_suffix, normalize_url, persisted_ranges, plan_transition, recovery_verdict, require_canonical_url,
    validate_completed_ranges, validate_validators, validate_worker_count,
};
use download_manager_engine::storage::{FileRange, IoFailure};

fn range(start: u64, end: u64) -> FileRange {
    FileRange::new(start, end).expect("range")
}

#[test]
fn lifecycle_graph_is_explicit() {
    assert!(TaskState::Queued.allows(TaskState::Probing));
    assert!(TaskState::Downloading.allows(TaskState::Validating));
    assert!(TaskState::Promoting.allows(TaskState::Completed));
    assert!(TaskState::Failed.allows(TaskState::Queued));
    assert!(!TaskState::Completed.allows(TaskState::Queued));
    assert!(!TaskState::Promoting.allows(TaskState::Cancelled));
    assert!(!TaskState::Queued.allows(TaskState::Downloading));
    assert!(TaskState::Cancelled.is_terminal() && TaskState::Failed.is_terminal());
    assert!(!TaskState::Paused.is_terminal());
}

#[test]
fn timestamps_and_revisions_are_bounded() {
    assert!(TimestampMillis::new(253_402_300_799_999).is_ok());
    assert_eq!(TimestampMillis::new(253_402_300_800_000), Err(StateValidationError::InvalidTimestamp));
    let early = TimestampMillis::new(10).expect("time");
    let late = TimestampMillis::new(20).expect("time");
    assert_eq!(bump_revision(1, late, early), Err(StateValidationError::InvalidTimestamp));
    assert_eq!(bump_revision(u64::MAX, early, late), Err(StateValidationError::InvalidRevision));
    assert_eq!(bump_revision(4, early, late), Ok(5));
    assert_eq!(plan_transition(TaskState::Completed, TaskState::Queued, 4, early, late), Err(StateValidationError::InvalidTransition));
    assert_eq!(plan_transition(TaskState::Queued, TaskState::Probing, 4, early, late), Ok(5));
    assert!(TimestampMillis::now().is_ok());
}

#[test]
fn worker_counts_ranges_and_urls_are_validated() {
    assert!(validate_worker_count(8).is_ok());
    assert_eq!(validate_worker_count(3), Err(StateValidationError::InvalidWorkerCount));
    assert!(validate_completed_ranges(&[range(0, 5), range(6, 9)], Some(9)).is_ok());
    assert_eq!(
        validate_completed_ranges(&[range(0, 5), range(5, 9)], Some(9)),
        Err(StateValidationError::InvalidCompletedRanges)
    );
    assert_eq!(
        validate_completed_ranges(&[range(0, 10)], Some(9)),
        Err(StateValidationError::InvalidCompletedRanges)
    );
    assert!(validate_completed_ranges(&[range(0, 10)], None).is_ok());
    assert_eq!(persisted_ranges(&[(0, 5), (5, 5)]), Err(StateValidationError::InvalidCompletedRanges));
    assert_eq!(persisted_ranges(&[(0, 5)]), Ok(vec![range(0, 5)]));
    assert_eq!(normalize_url("https://example.test/a#frag").as_deref(), Ok("https://example.test/a"));
    assert_eq!(normalize_url("ftp://example.test/a"), Err(StateValidationError::InvalidUrl));
    assert_eq!(normalize_url("https://user:pw@example.test/a"), Err(StateValidationError::InvalidUrl));
    assert_eq!(require_canonical_url("https://example.test/a#frag"), Err(StateValidationError::InvalidUrl));
    assert!(require_canonical_url("https://example.test/a").is_ok());
}

#[test]
fn resource_identities_are_consistent() {
    let validators = Validators {
        etag: Some(EntityTag::parse("\"v1\"").expect("tag")),
        last_modified: Some("Mon, 01 Jan 2024 00:00:00 GMT".to_owned()),
    };
    assert!(validate_validators(&validators).is_ok());
    let identity = ResourceIdentity::new("https://example.test/f#x", Some(10), validators.clone(), TransferMode::Segmented)
        .expect("identity");
    assert_eq!(identity.final_url(), "https://example.test/f");
    assert_eq!(identity.expected_size(), Some(10));
    assert_eq!(identity.transfer_mode(), TransferMode::Segmented);
    assert_eq!(
        ResourceIdentity::new("https://example.test/f", None, Validators::default(), TransferMode::Segmented).err(),
        Some(StateValidationError::InvalidResource)
    );
    assert_eq!(
        ResourceIdentity::new("https://example.test/f", Some(1), Validators::default(), TransferMode::Pending).err(),
        Some(StateValidationError::InvalidResource)
    );
    let bad_date = Validators { etag: None, last_modified: Some("not a date".to_owned()) };
    assert_eq!(validate_validators(&bad_date), Err(StateValidationError::InvalidValidator));
}

#[test]
fn lifecycle_state_must_match_files() {
    let whole = [range(0, 10)];
    assert!(check_state_consistency(TaskState::Completed, Some((Some(10), TransferMode::Segmented)), false, true, &whole).is_ok());
    assert_eq!(
        check_state_consistency(TaskState::Completed, Some((Some(10), TransferMode::Segmented)), true, false, &whole),
        Err(StateValidationError::InconsistentState)
    );
    assert_eq!(
        check_state_consistency(TaskState::Downloading, None, false, false, &[]),
        Err(StateValidationError::InconsistentState)
    );
    assert!(check_state_consistency(TaskState::Queued, None, false, false, &[]).is_ok());
    assert_eq!(
        check_state_consistency(TaskState::Validating, Some((Some(10), TransferMode::Segmented)), true, false, &[range(0, 9)]),
        Err(StateValidationError::InconsistentState)
    );
    assert_eq!(
        check_state_consistency(TaskState::Paused, Some((Some(10), TransferMode::Segmented)), true, true, &[]),
        Err(StateValidationError::InconsistentState)
    );
}

#[test]
fn recovery_requires_the_recorded_files() {
    assert_eq!(
        recovery_verdict(TaskState::Paused, Some(10), false, None, None, None),
        Err(LoadFailureReason::DestinationUnavailable)
    );
    assert_eq!(
        recovery_verdict(TaskState::Paused, Some(10), true, Some(FileObservation::Missing), None, None),
        Err(LoadFailureReason::PartialMissing)
    );
    assert_eq!(
        recovery_verdict(TaskState::Cancelled, Some(10), true, Some(FileObservation::Missing), None, None),
        Ok(())
    );
    assert_eq!(
        recovery_verdict(TaskState::Paused, Some(10), true, Some(FileObservation::File { len: 9 }), None, None),
        Err(LoadFailureReason::PartialLengthMismatch { expected: 10, actual: 9 })
    );
    assert_eq!(
        recovery_verdict(
            TaskState::Promoting,
            Some(10),
            true,
            Some(FileObservation::File { len: 10 }),
            Some(FileObservation::File { len: 10 }),
            Some(Ok(false))
        ),
        Err(LoadFailureReason::PublicationIdentityMismatch)
    );
    assert_eq!(
        recovery_verdict(TaskState::Completed, Some(10), true, None, Some(FileObservation::Failed(IoFailure::AccessDenied)), None),
        Err(LoadFailureReason::FinalInspectionFailed(IoFailure::AccessDenied))
    );
}

#[test]
fn checkpoint_policy_and_temporary_names() {
    assert!(CheckpointPolicy::new(Duration::from_millis(100)).is_ok());
    assert_eq!(CheckpointPolicy::new(Duration::from_millis(99)), Err(PersistenceError::InvalidCheckpointPolicy));
    assert_eq!(CheckpointPolicy::new(Duration::from_secs(61)), Err(PersistenceError::InvalidCheckpointPolicy));
    assert_eq!(CheckpointPolicy::default().minimum_interval(), Duration::from_secs(1));
    assert_eq!(PersistenceOperation::ReplaceState.describe(), "replace task state");
    assert!(is_temporary_suffix("1a2b-0123456789abcdef-0f"));
    assert!(!is_temporary_suffix("1A2B-0123456789abcdef-0f"));
    assert!(!is_temporary_suffix("1a2b-0123456789abcdef-0f-1"));
    assert!(!is_temporary_suffix("-0123456789abcdef-0f"));
    assert!(!is_temporary_suffix("123456789-0123456789abcdef-0f"));
    assert!(!is_temporary_suffix(""));
}

#[test]
fn task_ids_are_canonical_lowercase_v4_uuids() {
    let text = "550e8400-e29b-41d4-a716-446655440000";
    let id = TaskId::parse(text).expect("canonical");
    assert_eq!(id.to_text(), text);
    assert_eq!(id.value(), 0x550e8400_e29b_41d4_a716_446655440000);
    for rejected in [
        "550E8400-E29B-41D4-A716-446655440000",
        "550e8400e29b41d4a716446655440000",
        "{550e8400-e29b-41d4-a716-446655440000}",
        "550e8400-e29b-11d4-a716-446655440000",
        "550e8400-e29b-41d4-c716-446655440000",
        "not-a-uuid",
    ] {
        assert_eq!(TaskId::parse(rejected), Err(StateValidationError::InvalidTaskId), "{rejected}");
    }
    assert_eq!(
        TaskId::from_parsed(text, Some(0x550e8400_e29b_41d4_a716_446655440001)),
        Err(StateValidationError::InvalidTaskId)
    );
    assert_eq!(TaskId::from_parsed(text, None), Err(StateValidationError::InvalidTaskId));
}

#[test]
fn fresh_task_ids_round_trip_through_their_text() {
    let first = TaskId::new();
    let second = TaskId::default();
    assert_ne!(first, second);
    assert_eq!(TaskId::parse(&first.to_text()), Ok(first));
    assert_eq!((first.value() >> 76) & 0xf, 4);
    assert_eq!((first.value() >> 62) & 0x3, 2);
}

#[test]
fn task_listing_classifies_entries_and_stays_bounded() {
    let id = "550e8400-e29b-41d4-a716-446655440000";
    let name = format!("{id}.task.json");
    let mut listing = TaskListing::new();
    assert_eq!(listing.observe(None, Ok((true, false))), Ok(ListedEntry::Skip));
    assert_eq!(listing.observe(Some("notes.txt"), Ok((true, false))), Ok(ListedEntry::Skip));
    assert_eq!(
        listing.observe(Some(&name), Ok((true, false))),
        Ok(ListedEntry::Load(TaskId::parse(id).expect("id")))
    );
    assert_eq!(
        listing.observe(Some(&name), Ok((true, true))),
        Ok(ListedEntry::Failed(LoadFailure {
            task_id: Some(TaskId::parse(id).expect("id")),
            reason: LoadFailureReason::UnsafeFileType
        }))
    );
    assert_eq!(
        listing.observe(Some("bogus.task.json"), Ok((true, false))),
        Ok(ListedEntry::Failed(LoadFailure { task_id: None, reason: LoadFailureReason::InvalidFilename }))
    );
    assert_eq!(
        listing.observe(Some("bogus.task.json"), Err(IoFailure::AccessDenied)),
        Ok(ListedEntry::Failed(LoadFailure { task_id: None, reason: LoadFailureReason::ReadFailed(IoFailure::AccessDenied) }))
    );
    assert_eq!((listing.entries, listing.task_files), (6, 4));
    let mut full = TaskListing { entries: 0, task_files: MAX_TASK_FILES };
    assert_eq!(full.observe(Some(&name), Ok((true, false))), Err(PersistenceError::TooManyTaskFiles));
    let mut crowded = TaskListing { entries: MAX_DIRECTORY_ENTRIES, task_files: 0 };
    assert_eq!(crowded.observe(Some("x"), Ok((true, false))), Err(PersistenceError::TooManyTaskFiles));
}

#[test]
fn path_text_and_confined_names_follow_the_rules() {
    assert!(check_path_text("/downloads/report.pdf"));
    assert!(!check_path_text(""));
    assert!(!check_path_text("/downloads/a\0b"));
    assert!(check_path_text(&"a".repeat(32_767)));
    assert!(!check_path_text(&"a".repeat(32_768)));
    assert!(!check_path_text(&"\u{1F600}".repeat(16_384)));

    assert_eq!(check_confined_name(PathKind::Final, "report.pdf"), Ok(()));
    assert_eq!(check_confined_name(PathKind::Final, "re:port.pdf"), Err(StateValidationError::InvalidFinalPath));
    assert_eq!(
        check_confined_name(PathKind::Partial, "report.pdf.dm-0123456789abcdef0011223344556677-03.part"),
        Ok(())
    );
    assert_eq!(check_confined_name(PathKind::Partial, "report.pdf"), Err(StateValidationError::InvalidPartialPath));
}
