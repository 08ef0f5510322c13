use download_manager_engine::clock::Duration;
use download_manager_engine::events::{RetryScheduled, TaskEvent, TaskEventKind, pending_event};
use download_manager_engine::persistence::{StateValidationError, TaskId, TimestampMillis, TaskUpdateError};
use download_manager_engine::progress::{MAX_SAFE_INTEGER, ProgressPolicy};
use download_manager_engine::scheduler::{SchedulerError, WorkerCount};
use download_manager_engine::storage::{IoFailure, StorageError, StorageOperation};
use download_manager_engine::network::{ProbeError, RangeValidationError};
use download_manager_engine::task::{
    EventClass, EventQueue, MAX_RETRIES, PendingEvent, RetryPolicy, TaskConfigError, TaskEngineError,
    TaskEngineOptions, TaskFailure, TaskFailureKind, failure_from_probe, failure_from_scheduler,
    failure_from_storage, failure_from_update, probe_retry_data, retryable_status, safe_retry_after,
};

fn in_range(value: Duration, low: Duration, high: Duration) -> bool {
    low <= value && value <= high
}

#[test]
fn retry_policy_is_bounded_jittered_and_respects_server_delay() {
    assert_eq!(
        RetryPolicy::new(MAX_RETRIES + 1, Duration::from_millis(10), Duration::from_secs(1), Duration::from_secs(1)),
        Err(TaskConfigError::InvalidRetryCount)
    );
    let policy = RetryPolicy::new(3, Duration::from_millis(100), Duration::from_millis(400), Duration::from_secs(2))
        .expect("valid policy");
    let first_low = policy.delay_for(1, None, 0).expect("first retry");
    let first_high = policy.delay_for(1, None, u64::MAX).expect("first retry");
    assert!(in_range(first_low, Duration::from_millis(50), Duration::from_millis(100)));
    assert!(in_range(first_high, Duration::from_millis(50), Duration::from_millis(100)));
    assert!(in_range(
        policy.delay_for(2, None, 7).expect("second retry"),
        Duration::from_millis(100),
        Duration::from_millis(200)
    ));
    assert!(in_range(
        policy.delay_for(3, None, 9).expect("third retry"),
        Duration::from_millis(200),
        Duration::from_millis(400)
    ));
    assert_eq!(policy.delay_for(4, None, 0), None);
    assert_eq!(policy.delay_for(1, Some(1), 0), Some(Duration::from_secs(1)));
    assert_eq!(policy.delay_for(1, Some(3), 0), None);
    assert_eq!(
        RetryPolicy::new(1, Duration::from_millis(9), Duration::from_secs(1), Duration::from_secs(1)),
        Err(TaskConfigError::InvalidRetryDelay)
    );
    assert_eq!(
        RetryPolicy::new(1, Duration::from_millis(10), Duration::from_secs(1), Duration::zero()),
        Err(TaskConfigError::InvalidRetryAfter)
    );
}

#[test]
fn retry_delay_exact_values() {
    let policy = RetryPolicy::new(3, Duration::from_millis(100), Duration::from_millis(400), Duration::from_secs(2))
        .expect("valid policy");
    assert_eq!(policy.delay_for(1, None, 0), Some(Duration::from_millis(50)));
    assert_eq!(policy.delay_for(1, None, 50), Some(Duration::from_millis(100)));
    assert_eq!(policy.delay_for(1, None, 51), Some(Duration::from_millis(50)));
    assert_eq!(policy.delay_for(3, None, 0), Some(Duration::from_millis(200)));
    assert_eq!(policy.delay_for(0, None, 0), None);
    let capped = RetryPolicy::new(10, Duration::from_millis(100), Duration::from_millis(300), Duration::from_secs(2))
        .expect("valid policy");
    assert_eq!(capped.delay_for(10, None, 0), Some(Duration::from_millis(150)));
    assert_eq!(RetryPolicy::default().maximum_retries(), 5);
}

#[test]
fn protocol_failure_context_drops_inexact_retry_after_values() {
    let failure = TaskFailure::http(TaskFailureKind::HttpStatus, 503, Some(u64::MAX));
    assert_eq!(failure.retry_after_seconds(), None);
    let exact = TaskFailure::http(TaskFailureKind::HttpStatus, 503, Some(MAX_SAFE_INTEGER));
    assert_eq!(exact.retry_after_seconds(), Some(MAX_SAFE_INTEGER));
    assert_eq!(exact.http_status(), Some(503));
    assert_eq!(safe_retry_after(Some(MAX_SAFE_INTEGER + 1)), None);
}

#[test]
fn event_queue_capacity_is_strictly_bounded() {
    assert_eq!(
        TaskEngineOptions::new(WorkerCount::Four, RetryPolicy::default(), ProgressPolicy::default(), 63),
        Err(TaskConfigError::InvalidEventCapacity)
    );
    assert!(TaskEngineOptions::new(WorkerCount::Four, RetryPolicy::default(), ProgressPolicy::default(), 64).is_ok());
    assert_eq!(
        TaskEngineOptions::new(WorkerCount::Four, RetryPolicy::default(), ProgressPolicy::default(), 16_385),
        Err(TaskConfigError::InvalidEventCapacity)
    );
    let options = TaskEngineOptions::default().with_failure_retention(false);
    assert!(!options.keep_partial_on_failure());
    assert_eq!(options.event_capacity(), 4096);
}

fn event(task: u128, class: EventClass, payload: u32) -> PendingEvent<u32> {
    PendingEvent { task, class, emitted_at: TimestampMillis::unix_epoch(), payload }
}

#[test]
fn event_sequence_exhaustion_and_coalescing() {
    let mut queue: EventQueue<u32> = EventQueue::new(2);
    queue.emit(event(1, EventClass::Progress, 1));
    queue.emit(event(1, EventClass::Progress, 2));
    assert_eq!(queue.len(), 1);
    queue.emit(event(2, EventClass::StateChanged, 3));
    queue.emit(event(3, EventClass::Completed, 4));
    assert_eq!(queue.len(), 2);
    assert!(!queue.overflowed());
    queue.emit(event(3, EventClass::Failed, 5));
    assert!(queue.overflowed());
    queue.emit(event(4, EventClass::RetryScheduled, 6));
    assert_eq!(queue.len(), 2);
    let first = queue.try_next().expect("ok").expect("event");
    assert_eq!((first.sequence, first.payload), (0, 3));
    let second = queue.try_next().expect("ok").expect("event");
    assert_eq!((second.sequence, second.payload), (1, 4));
    assert!(queue.try_next().expect("ok").is_none());
    assert!(queue.reset_after_overflow());
    assert!(!queue.reset_after_overflow());
    queue.emit(event(7, EventClass::StateChanged, 8));
    queue.emit(event(8, EventClass::StateChanged, 9));
    queue.remove_task(7);
    assert_eq!(queue.try_next().expect("ok").map(|e| e.payload), Some(9));
}

#[test]
fn failures_are_classified_without_sensitive_data() {
    let locked = StorageError::Io { operation: StorageOperation::Write, failure: IoFailure::FileLocked, os_code: Some(33) };
    assert_eq!(failure_from_storage(&locked).kind(), TaskFailureKind::FileLocked);
    assert_eq!(failure_from_storage(&StorageError::FinalNameExhausted).kind(), TaskFailureKind::FileExists);
    assert_eq!(failure_from_storage(&StorageError::NotActive).kind(), TaskFailureKind::Storage);
    let unauthorized = ProbeError::HttpStatus { status: 401, retry_after_seconds: None };
    assert_eq!(failure_from_probe(&unauthorized).kind(), TaskFailureKind::AuthRequired);
    assert_eq!(
        failure_from_probe(&ProbeError::InvalidRange(RangeValidationError::ValidatorChanged)).kind(),
        TaskFailureKind::ResourceChanged
    );
    assert_eq!(failure_from_probe(&ProbeError::BodyLengthMismatch).kind(), TaskFailureKind::RangeResponseInvalid);
    assert_eq!(failure_from_probe(&ProbeError::InvalidUrl).kind(), TaskFailureKind::ProbeFailed);
    assert_eq!(failure_from_scheduler(&SchedulerError::Cancelled).kind(), TaskFailureKind::Cancelled);
    assert_eq!(failure_from_scheduler(&SchedulerError::ResponseUrlChanged).kind(), TaskFailureKind::ResourceChanged);
    assert_eq!(failure_from_scheduler(&SchedulerError::WorkerJoin).kind(), TaskFailureKind::Internal);
    assert_eq!(
        failure_from_update(TaskUpdateError::State(StateValidationError::InvalidRevision)).kind(),
        TaskFailureKind::State
    );
    assert!(retryable_status(503) && retryable_status(429) && !retryable_status(404));
    assert_eq!(
        probe_retry_data(&ProbeError::HttpStatus { status: 503, retry_after_seconds: Some(5) }),
        Some((Some(503), Some(5)))
    );
    assert_eq!(probe_retry_data(&ProbeError::HttpStatus { status: 404, retry_after_seconds: None }), None);
    assert_eq!(TaskEngineError::TaskNotFound, TaskEngineError::TaskNotFound);
}

#[test]
fn event_sequence_exhaustion_never_reuses_the_maximum_value() {
    let mut events: EventQueue<TaskEventKind> = EventQueue::continuing(64, MAX_SAFE_INTEGER);
    let kind = || {
        TaskEventKind::RetryScheduled(RetryScheduled::new(
            TaskId::new(),
            1,
            1,
            Duration::from_millis(10),
            None,
            None,
        ))
    };
    events.emit(pending_event(kind(), TimestampMillis::unix_epoch()));
    let last = events.try_next().expect("last sequence").expect("last event");
    assert_eq!(TaskEvent::from_sequenced(last).sequence(), MAX_SAFE_INTEGER);
    events.emit(pending_event(kind(), TimestampMillis::unix_epoch()));
    assert!(matches!(events.try_next(), Err(TaskEngineError::EventSequenceExhausted)));
}
