use download_manager_engine::metadata::{
    CleanupPlan, LoadSession, PartialRemoval, PathChecks, PersistedTask, PersistedTaskV1, PersistedTaskV2, RecordVersion, STATE_FORMAT_NAME,
    TaskMetadata, cleanup_plan, discard_plan, load_record, partial_removal, record_version,
};
use download_manager_engine::network::{Validators, parse_etag};
use download_manager_engine::persistence::{
    FileObservation, ListedEntry, LoadFailure, LoadFailureReason, PartialCleanup, PersistenceError, ResourceIdentity, StateValidationError, TaskId,
    TaskState, TaskUpdateError, TimestampMillis, TransferMode,
};
use download_manager_engine::storage::{FileRange, Promotion};

fn at(millis: u64) -> TimestampMillis {
    TimestampMillis::new(millis).expect("timestamp")
}

fn range(start: u64, end: u64) -> FileRange {
    FileRange::new(start, end).expect("range")
}

fn checks(partial: bool, final_path: bool) -> PathChecks {
    PathChecks {
        destination: Ok(()),
        partial: if partial { Some(Ok(())) } else { None },
        final_path: if final_path { Some(Ok(())) } else { None },
    }
}

fn identity(size: u64) -> ResourceIdentity {
    let validators = Validators { etag: Some(parse_etag("\"v1\"").expect("tag")), last_modified: None };
    ResourceIdentity::new("https://example.test/file.bin", Some(size), validators, TransferMode::Segmented).expect("identity")
}

const PARTIAL: &str = "/downloads/report.pdf.0123456789abcdef.part";

fn downloading_task() -> TaskMetadata {
    let mut task = TaskMetadata::new_at("https://example.test/file.bin#top", "/downloads".to_owned(), Ok(()), "report.pdf", at(1_000))
        .expect("task");
    task.transition(TaskState::Probing, at(1_001), checks(false, false)).expect("probing");
    task.apply_resource(identity(100), at(1_002)).expect("resource");
    task.attach_partial(PARTIAL.to_owned(), Some(100), "report.pdf".to_owned(), Ok(()), at(1_003)).expect("partial");
    task.transition(TaskState::Downloading, at(1_004), checks(true, false)).expect("downloading");
    task
}

#[test]
fn new_tasks_are_queued_with_canonical_input() {
    let task = TaskMetadata::new_at("https://example.test/file.bin#top", "/downloads".to_owned(), Ok(()), "re:port.pdf", at(5))
        .expect("task");
    assert_eq!(task.state(), TaskState::Queued);
    assert_eq!(task.revision(), 1);
    assert_eq!(task.original_url(), "https://example.test/file.bin");
    assert_eq!(task.display_name(), "re_port.pdf");
    assert_eq!(task.workers(), 4);
    assert_eq!((task.created_at(), task.updated_at()), (at(5), at(5)));
    assert!(task.resource().is_none() && task.partial_path().is_none() && task.final_path().is_none());
    assert_eq!(
        TaskMetadata::new_at_with_workers("https://example.test/a", "/d".to_owned(), Ok(()), "a", 3, at(5)).err(),
        Some(StateValidationError::InvalidWorkerCount)
    );
    assert_eq!(
        TaskMetadata::new_at("ftp://example.test/a", "/d".to_owned(), Ok(()), "a", at(5)).err(),
        Some(StateValidationError::InvalidUrl)
    );
    assert_eq!(
        TaskMetadata::new_at("https://example.test/a", "d".to_owned(), Err(StateValidationError::InvalidDestination), "a", at(5)).err(),
        Some(StateValidationError::InvalidDestination)
    );
}

#[test]
fn every_accepted_change_bumps_the_revision_once() {
    let mut task = downloading_task();
    assert_eq!(task.revision(), 5);
    assert_eq!(task.partial_path(), Some(PARTIAL));
    assert_eq!(task.refresh_completed(PARTIAL, Some(100), vec![range(0, 40)], at(1_005)), Ok(true));
    assert_eq!(task.revision(), 6);
    assert_eq!(task.bytes_completed(), 40);
    assert_eq!(task.refresh_completed(PARTIAL, Some(100), vec![range(0, 40)], at(1_006)), Ok(false));
    assert_eq!(task.revision(), 6);
    assert_eq!(task.updated_at(), at(1_005));
}

#[test]
fn rejected_changes_leave_the_record_unchanged() {
    let mut task = downloading_task();
    assert_eq!(
        task.transition(TaskState::Queued, at(2_000), checks(true, false)),
        Err(StateValidationError::InvalidTransition)
    );
    assert_eq!(
        task.transition(TaskState::Paused, at(10), checks(true, false)),
        Err(StateValidationError::InvalidTimestamp)
    );
    assert_eq!(
        task.refresh_completed(PARTIAL, Some(99), vec![], at(2_000)),
        Err(TaskUpdateError::State(StateValidationError::InvalidResource))
    );
    assert_eq!(
        task.refresh_completed(PARTIAL, Some(100), vec![range(0, 10), range(10, 20)], at(2_000)),
        Err(TaskUpdateError::State(StateValidationError::InvalidCompletedRanges))
    );
    assert_eq!(
        task.refresh_completed("/downloads/other.part", Some(100), vec![], at(2_000)),
        Err(TaskUpdateError::State(StateValidationError::InconsistentState))
    );
    assert_eq!(
        task.transition(TaskState::Validating, at(2_000), checks(true, false)),
        Err(StateValidationError::InconsistentState)
    );
    assert_eq!(task.record_partial_deletion(at(2_000)), Err(StateValidationError::InconsistentState));
    assert_eq!(task.revision(), 5);
    assert_eq!(task.state(), TaskState::Downloading);
    assert_eq!(task.updated_at(), at(1_004));
}

#[test]
fn promotion_is_recorded_with_the_retained_partial() {
    let mut task = downloading_task();
    assert_eq!(task.refresh_completed(PARTIAL, Some(100), vec![range(0, 100)], at(1_005)), Ok(true));
    task.transition(TaskState::Validating, at(1_006), checks(true, false)).expect("validating");
    task.transition(TaskState::Promoting, at(1_007), checks(true, false)).expect("promoting");
    let mut promotion = Promotion::published("/downloads/report.pdf".to_owned(), PARTIAL.to_owned());
    task.record_promotion(&promotion, Ok(()), at(1_008)).expect("recorded");
    assert_eq!(task.final_path(), Some("/downloads/report.pdf"));
    assert_eq!(task.partial_path(), Some(PARTIAL));
    assert_eq!(promotion.record_cleanup(Ok(true), Ok(())), Ok(()));
    task.record_promotion(&promotion, Ok(()), at(1_009)).expect("recorded again");
    assert_eq!(task.partial_path(), None);
    let other = Promotion::published("/downloads/report (1).pdf".to_owned(), PARTIAL.to_owned());
    assert_eq!(task.record_promotion(&other, Ok(()), at(1_010)), Err(StateValidationError::InconsistentState));
    task.transition(TaskState::Completed, at(1_011), checks(false, true)).expect("completed");
    assert_eq!(task.state(), TaskState::Completed);
}

#[test]
fn retained_partials_pin_the_resource_identity() {
    let mut task = downloading_task();
    task.transition(TaskState::Failed, at(1_005), checks(true, false)).expect("failed");
    task.transition(TaskState::Queued, at(1_006), checks(true, false)).expect("retry");
    task.transition(TaskState::Probing, at(1_007), checks(true, false)).expect("probing");
    assert_eq!(task.apply_resource(identity(101), at(1_008)), Err(StateValidationError::InvalidResource));
    assert_eq!(task.apply_resource(identity(100), at(1_008)), Ok(()));
    let (path, size, ranges) = task.reopen_partial_plan().expect("plan");
    assert_eq!((path, size, ranges.len()), (PARTIAL, Some(100), 0));
}

fn record() -> PersistedTask {
    PersistedTask {
        task_id: "550e8400-e29b-41d4-a716-446655440000".to_owned(),
        revision: 7,
        state: TaskState::Paused,
        original_url: "https://example.test/file.bin".to_owned(),
        needs_session: false,
        transfer_mode: TransferMode::Segmented,
        final_url: Some("https://example.test/file.bin".to_owned()),
        expected_size: Some(100),
        etag: Some("\"v1\"".to_owned()),
        last_modified: None,
        destination: "/downloads".to_owned(),
        display_name: "report.pdf".to_owned(),
        workers: 4,
        partial_path: Some(PARTIAL.to_owned()),
        final_path: None,
        completed_ranges: vec![(0, 10), (20, 30)],
        created_at_ms: 1_000,
        updated_at_ms: 2_000,
    }
}

#[test]
fn persisted_records_load_only_when_every_rule_holds() {
    let task = TaskMetadata::from_persisted(record(), checks(true, false)).expect("loads");
    assert_eq!(task.revision(), 7);
    assert_eq!(task.state(), TaskState::Paused);
    assert_eq!(task.bytes_completed(), 20);
    assert_eq!(task.resource().map(|r| r.expected_size()), Some(Some(100)));
    assert_eq!(task.task_id().to_text(), "550e8400-e29b-41d4-a716-446655440000");

    let mut bad_id = record();
    bad_id.task_id = "550E8400-E29B-41D4-A716-446655440000".to_owned();
    assert_eq!(TaskMetadata::from_persisted(bad_id, checks(true, false)).err(), Some(StateValidationError::InvalidTaskId));
    let mut backwards = record();
    backwards.updated_at_ms = 999;
    assert_eq!(TaskMetadata::from_persisted(backwards, checks(true, false)).err(), Some(StateValidationError::InvalidTimestamp));
    let mut reversed = record();
    reversed.completed_ranges = vec![(10, 10)];
    assert_eq!(TaskMetadata::from_persisted(reversed, checks(true, false)).err(), Some(StateValidationError::InvalidCompletedRanges));
    let mut outside = record();
    outside.completed_ranges = vec![(90, 110)];
    assert_eq!(TaskMetadata::from_persisted(outside, checks(true, false)).err(), Some(StateValidationError::InvalidCompletedRanges));
    let mut pending = record();
    pending.transfer_mode = TransferMode::Pending;
    assert_eq!(TaskMetadata::from_persisted(pending, checks(true, false)).err(), Some(StateValidationError::InvalidResource));
    let mut workers = record();
    workers.workers = 3;
    assert_eq!(TaskMetadata::from_persisted(workers, checks(true, false)).err(), Some(StateValidationError::InvalidWorkerCount));
    let mut unsafe_name = record();
    unsafe_name.display_name = "a/b".to_owned();
    assert_eq!(TaskMetadata::from_persisted(unsafe_name, checks(true, false)).err(), Some(StateValidationError::InvalidFilename));
    assert_eq!(TaskMetadata::from_persisted(record(), checks(false, false)).err(), Some(StateValidationError::InvalidPartialPath));
    let mut no_partial = record();
    no_partial.partial_path = None;
    assert_eq!(TaskMetadata::from_persisted(no_partial, checks(false, false)).err(), Some(StateValidationError::InconsistentState));
    let mut bad_tag = record();
    bad_tag.etag = Some("unquoted".to_owned());
    assert_eq!(TaskMetadata::from_persisted(bad_tag, checks(true, false)).err(), Some(StateValidationError::InvalidValidator));
}

#[test]
fn a_written_record_loads_back_as_the_same_task() {
    let mut task = downloading_task();
    task.refresh_completed(PARTIAL, Some(100), vec![range(0, 40), range(60, 70)], at(1_005)).expect("coverage");
    let raw = PersistedTask::from_task(&task);
    assert_eq!(raw.task_id, task.task_id().to_text());
    assert_eq!(raw.etag.as_deref(), Some("\"v1\""));
    assert_eq!(raw.transfer_mode, TransferMode::Segmented);
    assert_eq!(raw.completed_ranges, vec![(0, 40), (60, 70)]);
    assert_eq!(raw.partial_path.as_deref(), Some(PARTIAL));
    let loaded = TaskMetadata::from_persisted(raw, checks(true, false)).expect("loads");
    assert_eq!(loaded.task_id(), task.task_id());
    assert_eq!(loaded.revision(), task.revision());
    assert_eq!(loaded.state(), task.state());
    assert_eq!(loaded.original_url(), task.original_url());
    assert!(loaded.resource() == task.resource());
    assert_eq!(loaded.destination(), task.destination());
    assert_eq!(loaded.display_name(), task.display_name());
    assert_eq!(loaded.partial_path(), task.partial_path());
    assert_eq!(loaded.completed_ranges(), task.completed_ranges());
    assert_eq!((loaded.created_at(), loaded.updated_at()), (task.created_at(), task.updated_at()));

    let queued = TaskMetadata::new_at("https://example.test/a", "/d".to_owned(), Ok(()), "a", at(5)).expect("task");
    let raw = PersistedTask::from_task(&queued);
    assert_eq!(raw.transfer_mode, TransferMode::Pending);
    assert!(raw.final_url.is_none() && raw.etag.is_none() && raw.expected_size.is_none());
    let loaded = TaskMetadata::from_persisted(raw, checks(false, false)).expect("loads");
    assert_eq!(loaded.task_id(), queued.task_id());
    assert!(loaded.resource().is_none());
}

#[test]
fn older_layouts_migrate_and_unknown_files_are_refused() {
    assert_eq!(record_version(STATE_FORMAT_NAME, 3), Ok(RecordVersion::Current));
    assert_eq!(record_version("firefox-download-manager-task", 2), Ok(RecordVersion::Second));
    assert_eq!(record_version(STATE_FORMAT_NAME, 1), Ok(RecordVersion::First));
    assert_eq!(record_version(STATE_FORMAT_NAME, 4), Err(LoadFailureReason::IncompatibleVersion { found: 4 }));
    assert_eq!(record_version("other-format", 3), Err(LoadFailureReason::UnknownFormat));

    let current = record();
    let first = PersistedTaskV1 {
        task_id: current.task_id,
        revision: current.revision,
        state: current.state,
        original_url: current.original_url,
        transfer_mode: current.transfer_mode,
        final_url: current.final_url,
        expected_size: current.expected_size,
        etag: current.etag,
        last_modified: current.last_modified,
        destination: current.destination,
        display_name: current.display_name,
        partial_path: current.partial_path,
        final_path: current.final_path,
        completed_ranges: current.completed_ranges,
        created_at_ms: current.created_at_ms,
        updated_at_ms: current.updated_at_ms,
    };
    let migrated = first.migrate();
    assert_eq!(migrated.workers, 4);
    assert!(!migrated.needs_session);
    let task = TaskMetadata::from_persisted(migrated, checks(true, false)).expect("loads");
    assert_eq!(task.workers(), 4);

    let mut second_source = record();
    second_source.workers = 2;
    let second = PersistedTaskV2 {
        task_id: second_source.task_id,
        revision: second_source.revision,
        state: second_source.state,
        original_url: second_source.original_url,
        transfer_mode: second_source.transfer_mode,
        final_url: second_source.final_url,
        expected_size: second_source.expected_size,
        etag: second_source.etag,
        last_modified: second_source.last_modified,
        destination: second_source.destination,
        display_name: second_source.display_name,
        workers: second_source.workers,
        partial_path: second_source.partial_path,
        final_path: second_source.final_path,
        completed_ranges: second_source.completed_ranges,
        created_at_ms: second_source.created_at_ms,
        updated_at_ms: second_source.updated_at_ms,
    };
    let migrated = second.migrate();
    assert_eq!(migrated.workers, 2);
    assert!(!migrated.needs_session);
}

#[test]
fn a_record_must_name_the_task_of_its_file() {
    let named = TaskId::parse("550e8400-e29b-41d4-a716-446655440000").expect("id");
    let other = TaskId::parse("650e8400-e29b-41d4-a716-446655440000").expect("id");
    let task = load_record(record(), checks(true, false), named).expect("loads");
    assert_eq!(task.task_id(), named);
    assert_eq!(load_record(record(), checks(true, false), other).err(), Some(LoadFailureReason::TaskIdMismatch));
    let mut bad = record();
    bad.revision = 0;
    assert_eq!(
        load_record(bad, checks(true, false), named).err(),
        Some(LoadFailureReason::InvalidTask(StateValidationError::InvalidRevision))
    );
}

#[test]
fn cleanup_touches_only_finished_valid_records() {
    let mut task = downloading_task();
    assert_eq!(cleanup_plan(&task, checks(true, false), PartialCleanup::Delete), Err(PersistenceError::CleanupRequiresTerminal));
    assert_eq!(discard_plan(&task, checks(true, false)), Err(PersistenceError::CleanupRequiresTerminal));
    assert_eq!(task.validate(checks(true, false)), Ok(()));
    assert_eq!(task.validate(checks(false, false)), Err(StateValidationError::InvalidPartialPath));

    task.transition(TaskState::Cancelled, at(2_000), checks(true, false)).expect("cancelled");
    assert_eq!(cleanup_plan(&task, checks(true, false), PartialCleanup::Keep), Ok(CleanupPlan::Retain));
    assert_eq!(cleanup_plan(&task, checks(true, false), PartialCleanup::Delete), Ok(CleanupPlan::Remove { partial: true }));
    assert_eq!(
        cleanup_plan(&task, checks(false, false), PartialCleanup::Delete),
        Err(PersistenceError::InvalidTask(StateValidationError::InvalidPartialPath))
    );
    assert_eq!(discard_plan(&task, checks(true, false)), Ok(true));

    task.record_partial_deletion(at(2_001)).expect("forgotten");
    assert_eq!(cleanup_plan(&task, checks(false, false), PartialCleanup::Keep), Ok(CleanupPlan::Remove { partial: false }));
    assert_eq!(discard_plan(&task, checks(false, false)), Ok(false));

    assert_eq!(partial_removal(TaskState::Cancelled, FileObservation::Missing, None), Ok(PartialRemoval::AlreadyGone));
    assert_eq!(partial_removal(TaskState::Failed, FileObservation::File { len: 5 }, None), Ok(PartialRemoval::Delete));
    assert_eq!(
        partial_removal(TaskState::Failed, FileObservation::Unsafe, None),
        Err(PersistenceError::InvalidTask(StateValidationError::InvalidPartialPath))
    );
    assert_eq!(partial_removal(TaskState::Completed, FileObservation::File { len: 5 }, Some(true)), Ok(PartialRemoval::Delete));
    assert_eq!(
        partial_removal(TaskState::Completed, FileObservation::File { len: 5 }, Some(false)),
        Err(PersistenceError::InvalidTask(StateValidationError::InvalidPartialPath))
    );
    assert_eq!(
        partial_removal(TaskState::Completed, FileObservation::File { len: 5 }, None),
        Err(PersistenceError::InvalidTask(StateValidationError::InvalidFinalPath))
    );
}

#[test]
fn loading_accounts_for_every_task_file_once() {
    let first = "650e8400-e29b-41d4-a716-446655440000";
    let second = "550e8400-e29b-41d4-a716-446655440000";
    let mut session = LoadSession::new();
    assert!(session.is_settled());
    assert_eq!(session.observe(Some("notes.txt"), Ok((true, false))), Ok(ListedEntry::Skip));
    assert_eq!(
        session.observe(Some(&format!("{first}.task.json")), Ok((true, false))),
        Ok(ListedEntry::Load(TaskId::parse(first).expect("id")))
    );
    assert!(!session.is_settled());
    session.settle(Err(LoadFailureReason::Malformed));
    assert!(session.is_settled());
    assert_eq!(
        session.observe(Some("bogus.task.json"), Ok((true, false))),
        Ok(ListedEntry::Failed(LoadFailure { task_id: None, reason: LoadFailureReason::InvalidFilename }))
    );
    assert_eq!(
        session.observe(Some(&format!("{second}.task.json")), Ok((true, false))),
        Ok(ListedEntry::Load(TaskId::parse(second).expect("id")))
    );
    let task = downloading_task();
    let loaded_id = task.task_id();
    session.settle(Ok(task));
    let (tasks, failures) = session.finish();
    assert_eq!(tasks.len(), 1);
    assert_eq!(tasks[0].task_id(), loaded_id);
    assert_eq!(
        failures,
        vec![
            LoadFailure { task_id: None, reason: LoadFailureReason::InvalidFilename },
            LoadFailure { task_id: Some(TaskId::parse(first).expect("id")), reason: LoadFailureReason::Malformed },
        ]
    );
}

#[test]
fn path_refusals_are_reported_as_the_path_they_concern() {
    let mut task = downloading_task();
    let foreign = PathChecks {
        destination: Ok(()),
        partial: Some(Err(StateValidationError::InvalidTransition)),
        final_path: None,
    };
    assert_eq!(task.transition(TaskState::Paused, at(2_000), foreign), Err(StateValidationError::InvalidPartialPath));
    assert_eq!(task.revision(), 5);
    let mut probing = TaskMetadata::new_at("https://example.test/file.bin", "/downloads".to_owned(), Ok(()), "report.pdf", at(1_000))
        .expect("task");
    probing.transition(TaskState::Probing, at(1_001), checks(false, false)).expect("probing");
    probing.apply_resource(identity(100), at(1_002)).expect("resource");
    assert_eq!(
        probing.attach_partial(PARTIAL.to_owned(), Some(100), "report.pdf".to_owned(), Err(StateValidationError::InvalidDestination), at(1_003)),
        Err(StateValidationError::InvalidPartialPath)
    );
}
