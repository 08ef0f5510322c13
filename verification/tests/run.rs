use download_manager_engine::clock::Duration;
use download_manager_engine::metadata::{PathChecks, TaskMetadata};
use download_manager_engine::network::{Validators, parse_etag};
use download_manager_engine::persistence::{ResourceIdentity, StateValidationError, TaskState, TimestampMillis, TransferMode};
use download_manager_engine::progress::MAX_SAFE_INTEGER;
use download_manager_engine::run::{
    AttemptStep, RetryBudget, RunError, StopPlan, StopRequest, after_attempt_error, ensure_generation,
    forget_missing_partial, later_timestamp, next_timestamp, recovered_failure, recovery_target, reported_delay_millis,
    requested_stop, retry_or_exhaust, settle_interrupted, stop_plan, wall_timestamp,
};
use download_manager_engine::scheduler::SchedulerError;
use download_manager_engine::task::{CancelPartialPolicy, RetryPolicy, TaskFailure, TaskFailureKind};

fn at(millis: u64) -> TimestampMillis {
    TimestampMillis::new(millis).expect("timestamp")
}

fn checks(partial: bool) -> PathChecks {
    PathChecks { destination: Ok(()), partial: if partial { Some(Ok(())) } else { None }, final_path: None }
}

const PARTIAL: &str = "/downloads/report.pdf.0123456789abcdef.part";

fn downloading_task() -> TaskMetadata {
    let validators = Validators { etag: Some(parse_etag("\"v1\"").expect("tag")), last_modified: None };
    let identity = ResourceIdentity::new("https://example.test/file.bin", Some(100), validators, TransferMode::Segmented)
        .expect("identity");
    let mut task = TaskMetadata::new_at("https://example.test/file.bin", "/downloads".to_owned(), Ok(()), "report.pdf", at(1_000))
        .expect("task");
    task.transition(TaskState::Probing, at(1_001), checks(false)).expect("probing");
    task.apply_resource(identity, at(1_002)).expect("resource");
    task.attach_partial(PARTIAL.to_owned(), Some(100), "report.pdf".to_owned(), Ok(()), at(1_003)).expect("partial");
    task.transition(TaskState::Downloading, at(1_004), checks(true)).expect("downloading");
    task
}

fn policy() -> RetryPolicy {
    RetryPolicy::new(2, Duration::from_millis(1_000), Duration::from_millis(1_000), Duration::from_secs(60)).expect("policy")
}

#[test]
fn stop_requests_follow_the_documented_table() {
    assert_eq!(requested_stop(None, TaskState::Downloading), StopRequest::Pause);
    assert_eq!(requested_stop(None, TaskState::Validating), StopRequest::Cancel(CancelPartialPolicy::Keep));
    assert_eq!(requested_stop(Some(StopRequest::Shutdown), TaskState::Downloading), StopRequest::Shutdown);

    assert_eq!(stop_plan(StopRequest::Pause, TaskState::Validating), StopPlan { next: Some(TaskState::Paused), failure: None });
    assert_eq!(
        stop_plan(StopRequest::Cancel(CancelPartialPolicy::Delete), TaskState::Downloading),
        StopPlan { next: Some(TaskState::Cancelled), failure: Some(TaskFailure::new(TaskFailureKind::Cancelled)) }
    );
    assert_eq!(stop_plan(StopRequest::Shutdown, TaskState::Downloading), StopPlan { next: Some(TaskState::Paused), failure: None });
    assert_eq!(stop_plan(StopRequest::Shutdown, TaskState::Paused), StopPlan { next: None, failure: None });
    assert_eq!(
        stop_plan(StopRequest::Shutdown, TaskState::Validating),
        StopPlan { next: Some(TaskState::Failed), failure: Some(TaskFailure::new(TaskFailureKind::State)) }
    );
}

#[test]
fn interrupted_tasks_settle_out_of_flight() {
    assert_eq!(recovery_target(TaskState::Downloading, false), Some(TaskState::Paused));
    assert_eq!(recovery_target(TaskState::Promoting, true), Some(TaskState::Completed));
    assert_eq!(recovery_target(TaskState::Promoting, false), Some(TaskState::Failed));
    assert_eq!(recovery_target(TaskState::Probing, false), Some(TaskState::Failed));
    assert_eq!(recovery_target(TaskState::Validating, false), Some(TaskState::Failed));
    assert_eq!(recovery_target(TaskState::Paused, false), None);
    assert_eq!(recovery_target(TaskState::Queued, false), None);
    assert_eq!(recovered_failure(TaskState::Failed), Some(TaskFailure::new(TaskFailureKind::State)));
    assert_eq!(recovered_failure(TaskState::Paused), None);

    let mut task = downloading_task();
    assert_eq!(settle_interrupted(&mut task, at(2_000), checks(true)), Ok(true));
    assert_eq!(task.state(), TaskState::Paused);
    assert_eq!(task.revision(), 6);
    assert_eq!(task.updated_at(), at(2_000));
    assert_eq!(settle_interrupted(&mut task, at(2_001), checks(true)), Ok(false));
    assert_eq!(task.revision(), 6);

    let mut early = downloading_task();
    assert_eq!(settle_interrupted(&mut early, at(10), checks(true)), Err(StateValidationError::InvalidTimestamp));
    assert_eq!(early.state(), TaskState::Downloading);
    assert_eq!(early.revision(), 5);
}

#[test]
fn a_vanished_partial_is_forgotten_only_when_settled() {
    let mut task = downloading_task();
    assert_eq!(forget_missing_partial(&mut task, true, at(2_000)), Ok(false));
    assert_eq!(task.partial_path(), Some(PARTIAL));

    task.transition(TaskState::Cancelled, at(2_000), checks(true)).expect("cancelled");
    assert_eq!(forget_missing_partial(&mut task, false, at(2_001)), Ok(false));
    assert_eq!(task.partial_path(), Some(PARTIAL));
    assert_eq!(forget_missing_partial(&mut task, true, at(2_001)), Ok(true));
    assert_eq!(task.partial_path(), None);
    assert!(task.completed_ranges().is_empty());
    assert_eq!(task.revision(), 7);
}

#[test]
fn timestamps_never_move_backwards() {
    assert_eq!(later_timestamp(at(5), at(9)), at(9));
    assert_eq!(later_timestamp(at(9), at(5)), at(9));
    let task = downloading_task();
    let next = next_timestamp(&task).expect("clock");
    assert!(next >= task.updated_at());
    assert!(wall_timestamp(&task) >= task.updated_at());
}

#[test]
fn only_the_live_run_may_go_on() {
    assert_eq!(ensure_generation(3, true, 3, false), Ok(()));
    assert_eq!(ensure_generation(3, true, 3, true), Err(RunError::Cancelled));
    assert_eq!(ensure_generation(4, true, 3, false), Err(RunError::Failed(TaskFailure::new(TaskFailureKind::Internal))));
    assert_eq!(ensure_generation(3, false, 3, true), Err(RunError::Failed(TaskFailure::new(TaskFailureKind::Internal))));
}

#[test]
fn retries_spend_the_budget_then_exhaust() {
    let mut budget = RetryBudget::new();
    assert_eq!(budget.used, 0);
    assert_eq!(retry_or_exhaust(&mut budget, policy(), Some(503), None, 0), Ok(Duration::from_millis(500)));
    assert_eq!(budget.used, 1);
    assert_eq!(retry_or_exhaust(&mut budget, policy(), Some(503), Some(2), 0), Ok(Duration::from_millis(2_000)));
    assert_eq!(budget.used, 2);
    let exhausted = retry_or_exhaust(&mut budget, policy(), Some(503), Some(7), 0).expect_err("exhausted");
    assert_eq!(exhausted.kind(), TaskFailureKind::RetryExhausted);
    assert_eq!(exhausted.http_status(), Some(503));
    assert_eq!(exhausted.retry_after_seconds(), Some(7));
    assert_eq!(budget.used, 2);

    let mut fresh = RetryBudget::new();
    assert_eq!(fresh.schedule(policy(), Some(3_600), 0), None);
    assert_eq!(fresh.used, 0);
}

#[test]
fn announced_delays_are_exact_integers() {
    assert_eq!(reported_delay_millis(Duration::from_millis(1_500)), 1_500);
    assert_eq!(reported_delay_millis(Duration::from_nanos(1_999_999)), 1);
    assert_eq!(reported_delay_millis(Duration { nanos: u128::MAX }), MAX_SAFE_INTEGER);
}

#[test]
fn failed_attempts_stop_revalidate_retry_or_fail() {
    let unsatisfiable = SchedulerError::HttpStatus { status: 416, retry_after_seconds: None };
    assert_eq!(after_attempt_error(&SchedulerError::Cancelled, false, false), AttemptStep::Stop);
    assert_eq!(after_attempt_error(&SchedulerError::Request, true, false), AttemptStep::Stop);
    assert_eq!(after_attempt_error(&unsatisfiable, false, false), AttemptStep::Revalidate);
    assert_eq!(
        after_attempt_error(&unsatisfiable, false, true),
        AttemptStep::Fail(TaskFailure::http(TaskFailureKind::HttpStatus, 416, None))
    );
    assert_eq!(
        after_attempt_error(&SchedulerError::HttpStatus { status: 503, retry_after_seconds: Some(4) }, false, false),
        AttemptStep::Retry { status: Some(503), retry_after_seconds: Some(4) }
    );
    assert_eq!(
        after_attempt_error(&SchedulerError::Request, false, false),
        AttemptStep::Retry { status: None, retry_after_seconds: None }
    );
    assert_eq!(
        after_attempt_error(&SchedulerError::BodyLengthMismatch, false, false),
        AttemptStep::Fail(TaskFailure::new(TaskFailureKind::RangeResponseInvalid))
    );
}
