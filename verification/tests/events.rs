use download_manager_engine::clock::Duration;
use download_manager_engine::events::{RetryScheduled, TaskEventKind, TaskProgress, TaskRecoveryReport, TaskSnapshot, pending_event};
use download_manager_engine::metadata::{PathChecks, TaskMetadata};
use download_manager_engine::network::{Validators, parse_etag};
use download_manager_engine::persistence::{ResourceIdentity, TaskState, TimestampMillis, TransferMode};
use download_manager_engine::progress::MAX_SAFE_INTEGER;
use download_manager_engine::scheduler::WorkerCount;
use download_manager_engine::storage::FileRange;
use download_manager_engine::task::{EventClass, TaskFailure, TaskFailureKind};
use download_manager_engine::transfer::TransferMetrics;

fn at(millis: u64) -> TimestampMillis {
    TimestampMillis::new(millis).expect("timestamp")
}

fn checks(partial: bool) -> PathChecks {
    PathChecks { destination: Ok(()), partial: if partial { Some(Ok(())) } else { None }, final_path: None }
}

const PARTIAL: &str = "/downloads/report.pdf.dm-0123456789abcdef0011223344556677-00.part";

fn downloading_task() -> TaskMetadata {
    let validators = Validators { etag: Some(parse_etag("\"v1\"").expect("tag")), last_modified: None };
    let identity = ResourceIdentity::new("https://example.test/file.bin", Some(100), validators, TransferMode::Segmented)
        .expect("identity");
    let mut task = TaskMetadata::new_at("https://example.test/file.bin", "/downloads".to_owned(), Ok(()), "report.pdf", at(1_000))
        .expect("task");
    task.transition(TaskState::Probing, at(1_001), checks(false)).expect("probing");
    task.apply_resource(identity, at(1_002)).expect("resource");
    task.attach_partial(PARTIAL.to_owned(), Some(100), "report.pdf".to_owned(), Ok(()), at(1_003)).expect("partial");
    task.transition(TaskState::Downloading, at(1_004), checks(true)).expect("downloading");
    task
}

#[test]
fn progress_at_rest_reports_durable_bytes_and_a_zero_eta_only_when_complete() {
    let mut task = downloading_task();
    task.refresh_completed(PARTIAL, Some(100), vec![FileRange::new(0, 40).expect("range")], at(1_005)).expect("coverage");
    let progress = TaskProgress::at_rest(&task, at(2_000));
    assert_eq!(progress.task_id(), task.task_id());
    assert_eq!(progress.bytes_completed(), 40);
    assert_eq!(progress.expected_size(), Some(100));
    assert_eq!(progress.eta_seconds(), None);
    assert_eq!(progress.active_workers(), 0);
    assert_eq!(progress.sampled_at(), at(2_000));

    let mut metrics = TransferMetrics::new(40, Some(100));
    metrics.worker_started();
    metrics.record_range(30);
    let sampled = progress.sampled(metrics.progress(), false, at(2_100));
    assert_eq!((sampled.bytes_completed(), sampled.active_workers()), (70, 1));
    let inactive = progress.sampled(metrics.progress(), true, at(2_100));
    assert_eq!(inactive.active_workers(), 0);
    let stopped = sampled.stopped(&task, at(2_200));
    assert_eq!((stopped.active_workers(), stopped.speed_bytes_per_second(), stopped.eta_seconds()), (0, None, None));
    assert_eq!(stopped.bytes_completed(), 70);

    task.refresh_completed(PARTIAL, Some(100), vec![FileRange::new(0, 100).expect("range")], at(1_006)).expect("coverage");
    let done = TaskProgress::at_rest(&task, at(3_000));
    assert_eq!((done.bytes_completed(), done.eta_seconds()), (100, Some(0)));
    let completed = sampled.completed(&task);
    assert_eq!((completed.bytes_completed(), completed.eta_seconds(), completed.active_workers()), (100, Some(0), 0));
}

#[test]
fn snapshots_show_the_record_and_the_latest_progress() {
    let task = downloading_task();
    let progress = TaskProgress::at_rest(&task, at(2_000));
    let snapshot = TaskSnapshot::of(&task, None, "https://example.test", WorkerCount::Four, progress, None);
    assert_eq!(snapshot.task_id(), task.task_id());
    assert_eq!(snapshot.display_name(), "report.pdf");
    assert_eq!(snapshot.destination(), "/downloads");
    assert_eq!(snapshot.source_origin(), "https://example.test");
    assert_eq!(snapshot.state(), TaskState::Downloading);
    assert_eq!(snapshot.transfer_mode(), TransferMode::Segmented);
    assert_eq!(snapshot.expected_size(), Some(100));
    assert_eq!(snapshot.workers(), WorkerCount::Four);
    assert_eq!((snapshot.created_at(), snapshot.updated_at()), (at(1_000), at(1_004)));
    let failed = TaskSnapshot::of(
        &task,
        Some("report (1).pdf"),
        "https://example.test",
        WorkerCount::Two,
        progress,
        Some(TaskFailure::new(TaskFailureKind::Storage)),
    );
    assert_eq!(failed.display_name(), "report (1).pdf");
    assert_eq!(failed.failure(), Some(TaskFailure::new(TaskFailureKind::Storage)));
}

#[test]
fn events_are_classified_by_kind_and_task() {
    let task = downloading_task();
    let progress = TaskProgress::at_rest(&task, at(2_000));
    let event = pending_event(TaskEventKind::Progress(progress), at(2_000));
    assert!(event.class == EventClass::Progress);
    assert_eq!(event.task, task.task_id().value());
    let snapshot = TaskSnapshot::of(&task, None, "https://example.test", WorkerCount::Four, progress, None);
    let changed = pending_event(
        TaskEventKind::StateChanged { task: snapshot, previous_state: TaskState::Probing },
        at(2_001),
    );
    assert!(changed.class == EventClass::StateChanged);
    let retry = RetryScheduled::new(task.task_id(), 1, 5, Duration::from_millis(1_500), Some(503), Some(WorkerCount::Two));
    assert_eq!(retry.delay_millis(), 1_500);
    assert_eq!((retry.retry_number(), retry.maximum_retries(), retry.http_status()), (1, 5, Some(503)));
    let huge = RetryScheduled::new(task.task_id(), 1, 5, Duration { nanos: u128::MAX }, None, None);
    assert_eq!(huge.delay_millis(), MAX_SAFE_INTEGER);
    assert!(pending_event(TaskEventKind::RetryScheduled(retry), at(2_002)).class == EventClass::RetryScheduled);

    let report = TaskRecoveryReport::new(Vec::new(), vec![task.task_id()]);
    assert!(report.failures().is_empty());
    assert_eq!(report.normalized_tasks(), &[task.task_id()]);
}
