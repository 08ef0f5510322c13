//! Decisions of a task run: what a stop request does to a running task, how
//! a task interrupted by a crash is settled when the engine opens, whether a
//! run is still the current one, and how transient failures spend the retry
//! budget. The engine loop performs the I/O and hands these plain values.
use vstd::prelude::*;
use crate::clock::{Duration, NANOS_PER_MILLI};
use crate::metadata::{PathChecks, TaskMetadata, TaskModel, transition_outcome};
use crate::persistence::{StateValidationError, TaskState, TimestampMillis, bumped_revision, edge};
use crate::progress::MAX_SAFE_INTEGER;
use crate::scheduler::{SchedulerError, WorkerCount};
use crate::storage::FileRange;
use crate::task::{
    CancelPartialPolicy, RetryPolicy, TaskFailure, TaskFailureKind, failure_from_scheduler, safe_retry_after_of,
    scheduler_failure_of, scheduler_retry_data, scheduler_retry_data_of,
};

verus! {

/// What a user or the engine asked a running task to do at its next safe
/// checkpoint.
#[derive(Debug, Clone, Copy, PartialEq, Eq, Structural)]
pub enum StopRequest {
    /// Keep the partial and wait for an explicit resume.
    Pause,
    /// Stop for good, keeping or deleting the partial.
    Cancel(CancelPartialPolicy),
    /// The engine is closing.
    Shutdown,
}

/// The request a stopping run honours: the recorded one, or, when the run
/// stopped without one, a pause while downloading and a cancellation that
/// keeps the partial otherwise.
pub open spec fn requested_stop_of(request: Option<StopRequest>, state: TaskState) -> StopRequest {
    match request {
        Some(r) => r,
        None => if state == TaskState::Downloading {
            StopRequest::Pause
        } else {
            StopRequest::Cancel(CancelPartialPolicy::Keep)
        },
    }
}

/// The request a stopping run honours (see [`requested_stop_of`]).
pub fn requested_stop(request: Option<StopRequest>, state: TaskState) -> (stop: StopRequest)
    ensures
        stop == requested_stop_of(request, state),
{
    match request {
        Some(r) => r,
        None => if state == TaskState::Downloading {
            StopRequest::Pause
        } else {
            StopRequest::Cancel(CancelPartialPolicy::Keep)
        },
    }
}

/// The state a stop moves the task to, if any, and the failure it records.
#[derive(Debug, Clone, Copy, PartialEq, Eq, Structural)]
pub struct StopPlan {
    pub next: Option<TaskState>,
    pub failure: Option<TaskFailure>,
}

/// A pause, or a shutdown while downloading, parks the task as paused; a
/// cancellation cancels it and records a cancellation; a shutdown leaves a
/// paused task alone and fails any other.
pub open spec fn stop_plan_of(request: StopRequest, previous: TaskState) -> StopPlan {
    match request {
        StopRequest::Pause => StopPlan { next: Some(TaskState::Paused), failure: None },
        StopRequest::Cancel(_) => StopPlan {
            next: Some(TaskState::Cancelled),
            failure: Some(TaskFailure::new_spec(TaskFailureKind::Cancelled)),
        },
        StopRequest::Shutdown => if previous == TaskState::Downloading {
            StopPlan { next: Some(TaskState::Paused), failure: None }
        } else if previous == TaskState::Paused {
            StopPlan { next: None, failure: None }
        } else {
            StopPlan { next: Some(TaskState::Failed), failure: Some(TaskFailure::new_spec(TaskFailureKind::State)) }
        },
    }
}

/// What a stop does to a task in `previous` (see [`stop_plan_of`]).
pub fn stop_plan(request: StopRequest, previous: TaskState) -> (plan: StopPlan)
    ensures
        plan == stop_plan_of(request, previous),
{
    match request {
        StopRequest::Pause => StopPlan { next: Some(TaskState::Paused), failure: None },
        StopRequest::Cancel(_) => StopPlan {
            next: Some(TaskState::Cancelled),
            failure: Some(TaskFailure::new(TaskFailureKind::Cancelled)),
        },
        StopRequest::Shutdown => if previous == TaskState::Downloading {
            StopPlan { next: Some(TaskState::Paused), failure: None }
        } else if previous == TaskState::Paused {
            StopPlan { next: None, failure: None }
        } else {
            StopPlan { next: Some(TaskState::Failed), failure: Some(TaskFailure::new(TaskFailureKind::State)) }
        },
    }
}

/// States in which network or publication work was under way.
pub open spec fn in_flight(state: TaskState) -> bool {
    state == TaskState::Probing || state == TaskState::Downloading || state == TaskState::Validating
        || state == TaskState::Promoting
}

/// A stop never leaves a task in flight, and never reports its own
/// cancellation as anything but a cancellation; a shutdown never disturbs a
/// paused task.
pub proof fn lemma_stop_settles(request: StopRequest, previous: TaskState)
    ensures
        stop_plan_of(request, previous).next matches Some(next) ==> !in_flight(next),
        request is Cancel ==> stop_plan_of(request, previous).next == Some(TaskState::Cancelled)
            && stop_plan_of(request, previous).failure == Some(TaskFailure::new_spec(TaskFailureKind::Cancelled)),
        request == StopRequest::Shutdown && previous == TaskState::Paused ==> stop_plan_of(request, previous).next is None,
        stop_plan_of(request, previous).failure is None ==> stop_plan_of(request, previous).next != Some(
            TaskState::Failed,
        ),
{
}

/// Where a task found in flight after a restart is settled: an interrupted
/// download pauses, an interrupted publication that recorded its final path
/// completes, and any other interrupted work fails. Settled tasks stay.
pub open spec fn recovery_target_of(state: TaskState, has_final_path: bool) -> Option<TaskState> {
    match state {
        TaskState::Downloading => Some(TaskState::Paused),
        TaskState::Promoting => if has_final_path {
            Some(TaskState::Completed)
        } else {
            Some(TaskState::Failed)
        },
        TaskState::Probing | TaskState::Validating => Some(TaskState::Failed),
        _ => None,
    }
}

/// Where an interrupted task is settled (see [`recovery_target_of`]).
pub fn recovery_target(state: TaskState, has_final_path: bool) -> (target: Option<TaskState>)
    ensures
        target == recovery_target_of(state, has_final_path),
{
    match state {
        TaskState::Downloading => Some(TaskState::Paused),
        TaskState::Promoting => if has_final_path {
            Some(TaskState::Completed)
        } else {
            Some(TaskState::Failed)
        },
        TaskState::Probing | TaskState::Validating => Some(TaskState::Failed),
        _ => None,
    }
}

/// Recovery leaves no task in flight, and every move it makes is an edge of
/// the lifecycle graph.
pub proof fn lemma_recovery_settles(state: TaskState, has_final_path: bool)
    ensures
        recovery_target_of(state, has_final_path) is None <==> !in_flight(state),
        recovery_target_of(state, has_final_path) matches Some(target) ==> edge(state, target) && !in_flight(
            target,
        ),
{
}

/// Whether a failed or cancelled task's partial vanished while the engine
/// was closed, so that the record must forget it.
pub open spec fn forgets_partial(task: TaskModel, partial_missing: bool) -> bool {
    (task.state == TaskState::Failed || task.state == TaskState::Cancelled) && task.partial_path is Some
        && partial_missing
}

/// Forgets the partial of a failed or cancelled task when the file is gone:
/// the result says whether the record changed. A record with a final path
/// cannot forget its partial.
pub fn forget_missing_partial(task: &mut TaskMetadata, partial_missing: bool, at: TimestampMillis) -> (result: Result<
    bool,
    StateValidationError,
>)
    requires
        old(task).wf(),
    ensures
        final(task).wf(),
        !forgets_partial(old(task)@, partial_missing) ==> result == Ok::<bool, StateValidationError>(false)
            && final(task)@ == old(task)@,
        forgets_partial(old(task)@, partial_missing) && old(task)@.final_path is Some ==> result == Err::<
            bool,
            StateValidationError,
        >(StateValidationError::InconsistentState) && final(task)@ == old(task)@,
        forgets_partial(old(task)@, partial_missing) && old(task)@.final_path is None ==> match bumped_revision(
            old(task)@.revision,
            old(task)@.updated_at,
            at.spec_get(),
        ) {
            Err(e) => result == Err::<bool, StateValidationError>(e) && final(task)@ == old(task)@,
            Ok(revision) => result == Ok::<bool, StateValidationError>(true) && final(task)@ == (TaskModel {
                revision,
                updated_at: at.spec_get(),
                partial_path: None,
                completed: Seq::<FileRange>::empty(),
                ..old(task)@
            }),
        },
{
    let state = task.state();
    let has_partial = task.partial_path().is_some();
    if !((state == TaskState::Failed || state == TaskState::Cancelled) && has_partial && partial_missing) {
        return Ok(false);
    }
    match task.record_partial_deletion(at) {
        Ok(()) => Ok(true),
        Err(e) => Err(e),
    }
}

/// Moves a task interrupted in flight to where recovery settles it (see
/// [`recovery_target_of`]); the result says whether it moved. A transition
/// the record rejects leaves it unchanged.
pub fn settle_interrupted(task: &mut TaskMetadata, at: TimestampMillis, paths: PathChecks) -> (result: Result<
    bool,
    StateValidationError,
>)
    requires
        old(task).wf(),
    ensures
        final(task).wf(),
        match recovery_target_of(old(task)@.state, old(task)@.final_path is Some) {
            None => result == Ok::<bool, StateValidationError>(false) && final(task)@ == old(task)@,
            Some(target) => match transition_outcome(old(task)@, target, at.spec_get(), paths) {
                Err(e) => result == Err::<bool, StateValidationError>(e) && final(task)@ == old(task)@,
                Ok(revision) => result == Ok::<bool, StateValidationError>(true) && final(task)@ == (TaskModel {
                    revision,
                    state: target,
                    updated_at: at.spec_get(),
                    ..old(task)@
                }),
            },
        },
{
    let has_final = task.final_path().is_some();
    match recovery_target(task.state(), has_final) {
        None => Ok(false),
        Some(target) => match task.transition(target, at, paths) {
            Ok(()) => Ok(true),
            Err(e) => Err(e),
        },
    }
}

/// A task that recovery leaves failed reports an interrupted-state failure.
pub fn recovered_failure(state: TaskState) -> (failure: Option<TaskFailure>)
    ensures
        failure == (if state == TaskState::Failed {
            Some(TaskFailure::new_spec(TaskFailureKind::State))
        } else {
            None
        }),
{
    if state == TaskState::Failed {
        Some(TaskFailure::new(TaskFailureKind::State))
    } else {
        None
    }
}

/// The later of a clock reading and the record's last update, so that a
/// clock stepping backwards never moves a record back in time.
pub fn later_timestamp(now: TimestampMillis, updated_at: TimestampMillis) -> (at: TimestampMillis)
    ensures
        at.spec_get() == if now.spec_get() < updated_at.spec_get() {
            updated_at.spec_get()
        } else {
            now.spec_get()
        },
{
    if now.is_before(updated_at) {
        updated_at
    } else {
        now
    }
}

/// The timestamp of the record's next mutation: the current clock, or the
/// last update when the clock reads earlier. An unreadable or out-of-range
/// clock is an invalid timestamp.
pub fn next_timestamp(task: &TaskMetadata) -> (at: Result<TimestampMillis, StateValidationError>)
    ensures
        at matches Ok(t) ==> t.spec_get() >= task@.updated_at,
        at matches Err(e) ==> e == StateValidationError::InvalidTimestamp,
{
    match TimestampMillis::now() {
        Ok(now) => Ok(later_timestamp(now, task.updated_at())),
        Err(e) => Err(e),
    }
}

/// The next mutation timestamp, falling back to the last update when the
/// clock cannot be read.
pub fn wall_timestamp(task: &TaskMetadata) -> (at: TimestampMillis)
    ensures
        at.spec_get() >= task@.updated_at,
{
    match next_timestamp(task) {
        Ok(t) => t,
        Err(_) => task.updated_at(),
    }
}

/// Why a step of a run may not go on.
#[derive(Debug, Clone, Copy, PartialEq, Eq, Structural)]
pub enum RunError {
    /// The run was asked to stop.
    Cancelled,
    /// The run failed for good.
    Failed(TaskFailure),
}

/// A step of run `generation` goes on only while that run is the task's
/// current one and still running, and not after a stop was requested.
pub open spec fn generation_check(current: u64, running: bool, generation: u64, cancelled: bool) -> Result<
    (),
    RunError,
> {
    if current != generation || !running {
        Err(RunError::Failed(TaskFailure::new_spec(TaskFailureKind::Internal)))
    } else if cancelled {
        Err(RunError::Cancelled)
    } else {
        Ok(())
    }
}

/// Checks that a step still belongs to the live run (see
/// [`generation_check`]).
pub fn ensure_generation(current: u64, running: bool, generation: u64, cancelled: bool) -> (result: Result<
    (),
    RunError,
>)
    ensures
        result == generation_check(current, running, generation, cancelled),
{
    if current != generation || !running {
        Err(RunError::Failed(TaskFailure::new(TaskFailureKind::Internal)))
    } else if cancelled {
        Err(RunError::Cancelled)
    } else {
        Ok(())
    }
}

/// The retries one run has spent and the worker count it last used.
#[derive(Debug, Clone, Copy, PartialEq, Eq, Structural)]
pub struct RetryBudget {
    pub used: u8,
    pub workers: Option<WorkerCount>,
}

impl RetryBudget {
    /// A run that has not retried yet.
    pub fn new() -> (budget: RetryBudget)
        ensures
            budget.used == 0,
            budget.workers is None,
    {
        RetryBudget { used: 0, workers: None }
    }

    /// Spends the next retry: its delay under `policy`, or `None` when the
    /// budget is spent or the server's delay is beyond the accepted bound,
    /// in which case nothing is spent.
    pub fn schedule(&mut self, policy: RetryPolicy, retry_after_seconds: Option<u64>, entropy: u64) -> (delay: Option<
        Duration,
    >)
        ensures
            old(self).used == u8::MAX ==> delay is None && *final(self) == *old(self),
            old(self).used < u8::MAX ==> delay == policy.delay_of((old(self).used + 1) as u8, retry_after_seconds, entropy),
            old(self).used < u8::MAX && delay is Some ==> *final(self) == (RetryBudget {
                used: (old(self).used + 1) as u8,
                ..*old(self)
            }),
            delay is None ==> *final(self) == *old(self),
    {
        let retry_number = match self.used.checked_add(1) {
            Some(n) => n,
            None => return None,
        };
        let delay = match policy.delay_for(retry_number, retry_after_seconds, entropy) {
            Some(d) => d,
            None => return None,
        };
        self.used = retry_number;
        Some(delay)
    }
}

/// The delay a retry announcement reports: whole milliseconds, capped at the
/// largest exact JavaScript integer.
pub fn reported_delay_millis(delay: Duration) -> (millis: u64)
    ensures
        millis == if delay.nanos / NANOS_PER_MILLI > MAX_SAFE_INTEGER {
            MAX_SAFE_INTEGER as int
        } else {
            (delay.nanos / NANOS_PER_MILLI) as int
        },
{
    let whole = delay.as_millis();
    if whole > MAX_SAFE_INTEGER as u128 {
        MAX_SAFE_INTEGER
    } else {
        whole as u64
    }
}

/// What a run does after a transfer attempt failed.
#[derive(Debug, Clone, Copy, PartialEq, Eq, Structural)]
pub enum AttemptStep {
    /// Stop at the requested checkpoint.
    Stop,
    /// Re-probe the resource once, then retry as for a status 416.
    Revalidate,
    /// Retry after a delay, with this status and server guidance.
    Retry { status: Option<u16>, retry_after_seconds: Option<u64> },
    /// Fail the run.
    Fail(TaskFailure),
}

/// A cancelled transfer or a requested stop stops the run; the first
/// "range not satisfiable" answer re-probes the resource; a transient error
/// retries; anything else fails with its classified failure.
pub open spec fn attempt_step_of(error: SchedulerError, cancelled: bool, revalidated_416: bool) -> AttemptStep {
    if error == SchedulerError::Cancelled || cancelled {
        AttemptStep::Stop
    } else if (error matches SchedulerError::HttpStatus { status, .. } && status == 416) && !revalidated_416 {
        AttemptStep::Revalidate
    } else {
        match scheduler_retry_data_of(error) {
            Some((status, retry_after_seconds)) => AttemptStep::Retry { status, retry_after_seconds },
            None => AttemptStep::Fail(scheduler_failure_of(error)),
        }
    }
}

/// Decides what follows a failed transfer attempt (see [`attempt_step_of`]).
pub fn after_attempt_error(error: &SchedulerError, cancelled: bool, revalidated_416: bool) -> (step: AttemptStep)
    ensures
        step == attempt_step_of(*error, cancelled, revalidated_416),
{
    let is_cancel = match error {
        SchedulerError::Cancelled => true,
        _ => false,
    };
    if is_cancel || cancelled {
        return AttemptStep::Stop;
    }
    let is_416 = match error {
        SchedulerError::HttpStatus { status, .. } => *status == 416,
        _ => false,
    };
    if is_416 && !revalidated_416 {
        return AttemptStep::Revalidate;
    }
    match scheduler_retry_data(error) {
        Some((status, retry_after_seconds)) => AttemptStep::Retry { status, retry_after_seconds },
        None => AttemptStep::Fail(failure_from_scheduler(error)),
    }
}

/// Spends a retry for a transient failure: the delay to wait, or, once the
/// budget cannot pay for it, a retry-exhausted failure carrying the last
/// status and its exactly representable guidance.
pub fn retry_or_exhaust(
    budget: &mut RetryBudget,
    policy: RetryPolicy,
    status: Option<u16>,
    retry_after_seconds: Option<u64>,
    entropy: u64,
) -> (step: Result<Duration, TaskFailure>)
    ensures
        old(budget).used == u8::MAX ==> step is Err && *final(budget) == *old(budget),
        old(budget).used < u8::MAX ==> match policy.delay_of((old(budget).used + 1) as u8, retry_after_seconds, entropy) {
            Some(d) => step == Ok::<Duration, TaskFailure>(d) && *final(budget) == (RetryBudget {
                used: (old(budget).used + 1) as u8,
                ..*old(budget)
            }),
            None => step is Err && *final(budget) == *old(budget),
        },
        step matches Err(f) ==> f.spec_kind() == TaskFailureKind::RetryExhausted && f.spec_http_status() == status
            && f.spec_retry_after() == safe_retry_after_of(retry_after_seconds),
{
    match budget.schedule(policy, retry_after_seconds, entropy) {
        Some(delay) => Ok(delay),
        None => Err(TaskFailure::exhausted(status, retry_after_seconds)),
    }
}

/// A run never retries more often than its policy allows: every scheduled
/// delay belongs to a retry number within the policy's maximum.
pub proof fn lemma_retries_bounded(policy: RetryPolicy, used: u8, retry_after_seconds: Option<u64>, entropy: u64)
    requires
        used < u8::MAX,
        policy.delay_of((used + 1) as u8, retry_after_seconds, entropy) is Some,
    ensures
        used + 1 <= policy.spec_maximum_retries(),
{
}

} // verus!
