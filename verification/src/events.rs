//! What the engine tells its observers: absolute task progress, complete
//! task snapshots, retry announcements and lifecycle events, and how each
//! is derived from the task record and the latest transfer sample.
use vstd::prelude::*;
use crate::clock::{Duration, NANOS_PER_MILLI};
use crate::metadata::{TaskMetadata, TaskModel};
use crate::persistence::{LoadFailure, TaskId, TaskState, TimestampMillis, TransferMode};
use crate::progress::{MAX_SAFE_INTEGER, ProgressEstimate};
use crate::run::reported_delay_millis;
use crate::scheduler::WorkerCount;
use crate::task::{EventClass, PendingEvent, SequencedEvent, TaskFailure};
use crate::transfer::TransferProgress;

verus! {

/// A byte count capped at the largest exact JavaScript integer.
pub open spec fn safe_count(bytes: u64) -> u64 {
    if bytes > MAX_SAFE_INTEGER { MAX_SAFE_INTEGER } else { bytes }
}

fn cap_safe(bytes: u64) -> (capped: u64)
    ensures
        capped == safe_count(bytes),
{
    if bytes > MAX_SAFE_INTEGER { MAX_SAFE_INTEGER } else { bytes }
}

/// The size the record's identity declares, if any.
pub open spec fn declared_size(task: TaskModel) -> Option<u64> {
    match task.resource {
        Some(r) => r.spec_expected_size(),
        None => None,
    }
}

fn declared_size_of(task: &TaskMetadata) -> (size: Option<u64>)
    ensures
        size == declared_size(task@),
{
    match task.resource() {
        Some(r) => r.expected_size(),
        None => None,
    }
}

/// Absolute task progress used both by events and full snapshots.
#[derive(Debug, Clone, Copy, PartialEq, Eq, Structural)]
pub struct TaskProgress {
    task_id: TaskId,
    bytes_completed: u64,
    expected_size: Option<u64>,
    speed_bytes_per_second: Option<u64>,
    eta_seconds: Option<u64>,
    active_workers: u8,
    sampled_at: TimestampMillis,
}

/// The plain reading of a progress report.
pub struct ProgressModel {
    pub task_id: TaskId,
    pub bytes_completed: u64,
    pub expected_size: Option<u64>,
    pub speed_bytes_per_second: Option<u64>,
    pub eta_seconds: Option<u64>,
    pub active_workers: u8,
    pub sampled_at: u64,
}

impl View for TaskProgress {
    type V = ProgressModel;

    closed spec fn view(&self) -> ProgressModel {
        ProgressModel {
            task_id: self.task_id,
            bytes_completed: self.bytes_completed,
            expected_size: self.expected_size,
            speed_bytes_per_second: self.speed_bytes_per_second,
            eta_seconds: self.eta_seconds,
            active_workers: self.active_workers,
            sampled_at: self.sampled_at.spec_get(),
        }
    }
}

/// The progress of a task at rest: its durable byte count (capped), its
/// declared size, no speed, no active worker, and an ETA of zero exactly
/// when every declared byte is there.
pub open spec fn at_rest_model(task: TaskModel, bytes_completed: u64, sampled_at: u64) -> ProgressModel {
    let bytes = safe_count(bytes_completed);
    let expected = declared_size(task);
    ProgressModel {
        task_id: task.task_id,
        bytes_completed: bytes,
        expected_size: expected,
        speed_bytes_per_second: None,
        eta_seconds: if expected == Some(bytes) { Some(0u64) } else { None },
        active_workers: 0,
        sampled_at,
    }
}

impl TaskProgress {
    /// The progress of a task at rest (see [`at_rest_model`]).
    pub fn at_rest(task: &TaskMetadata, sampled_at: TimestampMillis) -> (progress: TaskProgress)
        requires
            task.wf(),
        ensures
            progress@ == at_rest_model(task@, crate::storage::total_len(task@.completed) as u64, sampled_at.spec_get()),
    {
        let bytes = cap_safe(task.bytes_completed());
        let expected = declared_size_of(task);
        let eta = match expected {
            Some(size) => if size == bytes { Some(0u64) } else { None },
            None => None,
        };
        TaskProgress {
            task_id: task.task_id(),
            bytes_completed: bytes,
            expected_size: expected,
            speed_bytes_per_second: None,
            eta_seconds: eta,
            active_workers: 0,
            sampled_at,
        }
    }

    /// A new transfer sample: its absolute (capped) byte count, size and
    /// active workers (none when the run is winding down), keeping the last
    /// speed and ETA.
    pub fn sampled(self, sample: TransferProgress, force_inactive: bool, sampled_at: TimestampMillis) -> (progress:
        TaskProgress)
        ensures
            progress@ == (ProgressModel {
                bytes_completed: safe_count(sample.spec_bytes_completed()),
                expected_size: sample.spec_expected_size(),
                active_workers: if force_inactive { 0 } else { sample.spec_active_workers() },
                sampled_at: sampled_at.spec_get(),
                ..self@
            }),
    {
        TaskProgress {
            bytes_completed: cap_safe(sample.bytes_completed()),
            expected_size: sample.expected_size(),
            active_workers: if force_inactive { 0 } else { sample.active_workers() },
            sampled_at,
            ..self
        }
    }

    /// The smoothed speed and ETA of an estimate, sampled at `sampled_at`.
    pub fn estimated(self, estimate: ProgressEstimate, sampled_at: TimestampMillis) -> (progress: TaskProgress)
        ensures
            progress@ == (ProgressModel {
                speed_bytes_per_second: estimate.spec_speed(),
                eta_seconds: estimate.spec_eta(),
                sampled_at: sampled_at.spec_get(),
                ..self@
            }),
    {
        TaskProgress {
            speed_bytes_per_second: estimate.speed_bytes_per_second(),
            eta_seconds: estimate.eta_seconds(),
            sampled_at,
            ..self
        }
    }

    /// A durable checkpoint: the record's (capped) byte count and declared
    /// size, and no active worker.
    pub fn settled(self, task: &TaskMetadata, sampled_at: TimestampMillis) -> (progress: TaskProgress)
        requires
            task.wf(),
        ensures
            progress@ == (ProgressModel {
                bytes_completed: safe_count(crate::storage::total_len(task@.completed) as u64),
                expected_size: declared_size(task@),
                active_workers: 0,
                sampled_at: sampled_at.spec_get(),
                ..self@
            }),
    {
        TaskProgress {
            bytes_completed: cap_safe(task.bytes_completed()),
            expected_size: declared_size_of(task),
            active_workers: 0,
            sampled_at,
            ..self
        }
    }

    /// A stopped run: no worker, no speed, no ETA, the declared size.
    pub fn stopped(self, task: &TaskMetadata, sampled_at: TimestampMillis) -> (progress: TaskProgress)
        ensures
            progress@ == (ProgressModel {
                expected_size: declared_size(task@),
                speed_bytes_per_second: None,
                eta_seconds: None,
                active_workers: 0,
                sampled_at: sampled_at.spec_get(),
                ..self@
            }),
    {
        TaskProgress {
            expected_size: declared_size_of(task),
            speed_bytes_per_second: None,
            eta_seconds: None,
            active_workers: 0,
            sampled_at,
            ..self
        }
    }

    /// A completed task: every durable byte, the declared size, no worker
    /// and an ETA of zero.
    pub fn completed(self, task: &TaskMetadata) -> (progress: TaskProgress)
        requires
            task.wf(),
        ensures
            progress@ == (ProgressModel {
                bytes_completed: safe_count(crate::storage::total_len(task@.completed) as u64),
                expected_size: declared_size(task@),
                eta_seconds: Some(0u64),
                active_workers: 0,
                ..self@
            }),
    {
        TaskProgress {
            bytes_completed: cap_safe(task.bytes_completed()),
            expected_size: declared_size_of(task),
            eta_seconds: Some(0),
            active_workers: 0,
            ..self
        }
    }

    /// A paused wait between retries: no worker, no speed, no ETA.
    pub fn waiting(self, sampled_at: TimestampMillis) -> (progress: TaskProgress)
        ensures
            progress@ == (ProgressModel {
                speed_bytes_per_second: None,
                eta_seconds: None,
                active_workers: 0,
                sampled_at: sampled_at.spec_get(),
                ..self@
            }),
    {
        TaskProgress { speed_bytes_per_second: None, eta_seconds: None, active_workers: 0, sampled_at, ..self }
    }

    /// Task receiving bytes.
    pub fn task_id(self) -> (id: TaskId)
        ensures
            id == self@.task_id,
    {
        self.task_id
    }

    /// Absolute completed byte count, never a delta.
    pub fn bytes_completed(self) -> (bytes: u64)
        ensures
            bytes == self@.bytes_completed,
    {
        self.bytes_completed
    }

    /// Expected size, or unknown before sequential EOF.
    pub fn expected_size(self) -> (size: Option<u64>)
        ensures
            size == self@.expected_size,
    {
        self.expected_size
    }

    /// Smoothed speed after enough observations.
    pub fn speed_bytes_per_second(self) -> (speed: Option<u64>)
        ensures
            speed == self@.speed_bytes_per_second,
    {
        self.speed_bytes_per_second
    }

    /// Conservative ETA for a known size and stable positive speed.
    pub fn eta_seconds(self) -> (eta: Option<u64>)
        ensures
            eta == self@.eta_seconds,
    {
        self.eta_seconds
    }

    /// Currently active worker requests.
    pub fn active_workers(self) -> (workers: u8)
        ensures
            workers == self@.active_workers,
    {
        self.active_workers
    }

    /// Wall-clock timestamp of the sample.
    pub fn sampled_at(self) -> (at: TimestampMillis)
        ensures
            at.spec_get() == self@.sampled_at,
    {
        self.sampled_at
    }
}

/// Progress never reports more than JavaScript can count exactly, and a
/// task at rest reports an ETA only when it has every declared byte.
pub proof fn lemma_progress_is_exact(task: TaskModel, bytes_completed: u64, sampled_at: u64)
    ensures
        at_rest_model(task, bytes_completed, sampled_at).bytes_completed <= MAX_SAFE_INTEGER,
        at_rest_model(task, bytes_completed, sampled_at).eta_seconds is Some ==> declared_size(task) == Some(
            at_rest_model(task, bytes_completed, sampled_at).bytes_completed,
        ),
        at_rest_model(task, bytes_completed, sampled_at).active_workers == 0,
{
}

/// Full latest-value task view, reconstructible independently of event
/// history.
#[derive(Clone, PartialEq, Eq)]
pub struct TaskSnapshot {
    task_id: TaskId,
    display_name: String,
    destination: String,
    source_origin: String,
    state: TaskState,
    transfer_mode: TransferMode,
    expected_size: Option<u64>,
    bytes_completed: u64,
    workers: WorkerCount,
    speed_bytes_per_second: Option<u64>,
    eta_seconds: Option<u64>,
    active_workers: u8,
    created_at: TimestampMillis,
    updated_at: TimestampMillis,
    failure: Option<TaskFailure>,
}

/// The plain reading of a snapshot.
pub struct SnapshotModel {
    pub task_id: TaskId,
    pub display_name: Seq<char>,
    pub destination: Seq<char>,
    pub source_origin: Seq<char>,
    pub state: TaskState,
    pub transfer_mode: TransferMode,
    pub expected_size: Option<u64>,
    pub bytes_completed: u64,
    pub workers: WorkerCount,
    pub speed_bytes_per_second: Option<u64>,
    pub eta_seconds: Option<u64>,
    pub active_workers: u8,
    pub created_at: u64,
    pub updated_at: u64,
    pub failure: Option<TaskFailure>,
}

impl View for TaskSnapshot {
    type V = SnapshotModel;

    closed spec fn view(&self) -> SnapshotModel {
        SnapshotModel {
            task_id: self.task_id,
            display_name: self.display_name@,
            destination: self.destination@,
            source_origin: self.source_origin@,
            state: self.state,
            transfer_mode: self.transfer_mode,
            expected_size: self.expected_size,
            bytes_completed: self.bytes_completed,
            workers: self.workers,
            speed_bytes_per_second: self.speed_bytes_per_second,
            eta_seconds: self.eta_seconds,
            active_workers: self.active_workers,
            created_at: self.created_at.spec_get(),
            updated_at: self.updated_at.spec_get(),
            failure: self.failure,
        }
    }
}

/// The transfer mode a record has selected: pending before probing.
pub open spec fn record_mode(task: TaskModel) -> TransferMode {
    match task.resource {
        Some(r) => r.spec_transfer_mode(),
        None => TransferMode::Pending,
    }
}

/// What a snapshot shows: the record's identity, lifecycle and times; the
/// published file's name once there is one (`published_name`), the
/// sanitized display name otherwise; and the latest progress and failure.
pub open spec fn snapshot_model(
    task: TaskModel,
    published_name: Option<Seq<char>>,
    source_origin: Seq<char>,
    workers: WorkerCount,
    progress: ProgressModel,
    failure: Option<TaskFailure>,
) -> SnapshotModel {
    SnapshotModel {
        task_id: task.task_id,
        display_name: match published_name {
            Some(name) => name,
            None => task.display_name,
        },
        destination: task.destination,
        source_origin,
        state: task.state,
        transfer_mode: record_mode(task),
        expected_size: progress.expected_size,
        bytes_completed: progress.bytes_completed,
        workers,
        speed_bytes_per_second: progress.speed_bytes_per_second,
        eta_seconds: progress.eta_seconds,
        active_workers: progress.active_workers,
        created_at: task.created_at,
        updated_at: task.updated_at,
        failure,
    }
}

impl TaskSnapshot {
    /// The snapshot of a task (see [`snapshot_model`]); `published_name` is
    /// the file name of the recorded final path, when it has one.
    pub fn of(
        task: &TaskMetadata,
        published_name: Option<&str>,
        source_origin: &str,
        workers: WorkerCount,
        progress: TaskProgress,
        failure: Option<TaskFailure>,
    ) -> (snapshot: TaskSnapshot)
        ensures
            snapshot@ == snapshot_model(
                task@,
                match published_name {
                    Some(n) => Some(n@),
                    None => None,
                },
                source_origin@,
                workers,
                progress@,
                failure,
            ),
    {
        let display_name = match published_name {
            Some(name) => name.to_string(),
            None => task.display_name().to_string(),
        };
        let transfer_mode = match task.resource() {
            Some(r) => r.transfer_mode(),
            None => TransferMode::Pending,
        };
        TaskSnapshot {
            task_id: task.task_id(),
            display_name,
            destination: task.destination().to_string(),
            source_origin: source_origin.to_string(),
            state: task.state(),
            transfer_mode,
            expected_size: progress.expected_size,
            bytes_completed: progress.bytes_completed,
            workers,
            speed_bytes_per_second: progress.speed_bytes_per_second,
            eta_seconds: progress.eta_seconds,
            active_workers: progress.active_workers,
            created_at: task.created_at(),
            updated_at: task.updated_at(),
            failure,
        }
    }

    /// Stable task ID.
    pub fn task_id(&self) -> (id: TaskId)
        ensures
            id == self@.task_id,
    {
        self.task_id
    }

    /// Sanitized user-facing name.
    pub fn display_name(&self) -> (name: &str)
        ensures
            name@ == self@.display_name,
    {
        self.display_name.as_str()
    }

    /// Canonical destination directory.
    pub fn destination(&self) -> (destination: &str)
        ensures
            destination@ == self@.destination,
    {
        self.destination.as_str()
    }

    /// Source HTTP(S) origin without path, query, fragment or user info.
    pub fn source_origin(&self) -> (origin: &str)
        ensures
            origin@ == self@.source_origin,
    {
        self.source_origin.as_str()
    }

    /// Persistent lifecycle state.
    pub fn state(&self) -> (state: TaskState)
        ensures
            state == self@.state,
    {
        self.state
    }

    /// Selected transfer mode.
    pub fn transfer_mode(&self) -> (mode: TransferMode)
        ensures
            mode == self@.transfer_mode,
    {
        self.transfer_mode
    }

    /// Known expected size.
    pub fn expected_size(&self) -> (size: Option<u64>)
        ensures
            size == self@.expected_size,
    {
        self.expected_size
    }

    /// Latest absolute byte count.
    pub fn bytes_completed(&self) -> (bytes: u64)
        ensures
            bytes == self@.bytes_completed,
    {
        self.bytes_completed
    }

    /// Selected fixed worker count.
    pub fn workers(&self) -> (workers: WorkerCount)
        ensures
            workers == self@.workers,
    {
        self.workers
    }

    /// Latest smoothed speed.
    pub fn speed_bytes_per_second(&self) -> (speed: Option<u64>)
        ensures
            speed == self@.speed_bytes_per_second,
    {
        self.speed_bytes_per_second
    }

    /// Latest conservative ETA.
    pub fn eta_seconds(&self) -> (eta: Option<u64>)
        ensures
            eta == self@.eta_seconds,
    {
        self.eta_seconds
    }

    /// Latest active worker count.
    pub fn active_workers(&self) -> (workers: u8)
        ensures
            workers == self@.active_workers,
    {
        self.active_workers
    }

    /// Creation timestamp.
    pub fn created_at(&self) -> (at: TimestampMillis)
        ensures
            at.spec_get() == self@.created_at,
    {
        self.created_at
    }

    /// Last persistent mutation timestamp.
    pub fn updated_at(&self) -> (at: TimestampMillis)
        ensures
            at.spec_get() == self@.updated_at,
    {
        self.updated_at
    }

    /// Latest terminal failure, if any.
    pub fn failure(&self) -> (failure: Option<TaskFailure>)
        ensures
            failure == self@.failure,
    {
        self.failure
    }
}

/// A bounded automatic retry announcement.
#[derive(Debug, Clone, Copy, PartialEq, Eq, Structural)]
pub struct RetryScheduled {
    task_id: TaskId,
    retry_number: u8,
    maximum_retries: u8,
    delay_millis: u64,
    http_status: Option<u16>,
    next_workers: Option<WorkerCount>,
}

impl RetryScheduled {
    pub closed spec fn spec_task_id(self) -> TaskId {
        self.task_id
    }

    pub closed spec fn spec_retry_number(self) -> u8 {
        self.retry_number
    }

    pub closed spec fn spec_maximum_retries(self) -> u8 {
        self.maximum_retries
    }

    pub closed spec fn spec_delay_millis(self) -> u64 {
        self.delay_millis
    }

    pub closed spec fn spec_http_status(self) -> Option<u16> {
        self.http_status
    }

    pub closed spec fn spec_next_workers(self) -> Option<WorkerCount> {
        self.next_workers
    }

    /// Announces retry `retry_number` of `maximum_retries` after `delay`,
    /// reported in whole milliseconds capped at the largest exact
    /// JavaScript integer.
    pub fn new(
        task_id: TaskId,
        retry_number: u8,
        maximum_retries: u8,
        delay: Duration,
        http_status: Option<u16>,
        next_workers: Option<WorkerCount>,
    ) -> (retry: RetryScheduled)
        ensures
            retry.spec_task_id() == task_id,
            retry.spec_retry_number() == retry_number,
            retry.spec_maximum_retries() == maximum_retries,
            retry.spec_delay_millis() == if delay.nanos / NANOS_PER_MILLI > MAX_SAFE_INTEGER {
                MAX_SAFE_INTEGER as int
            } else {
                (delay.nanos / NANOS_PER_MILLI) as int
            },
            retry.spec_http_status() == http_status,
            retry.spec_next_workers() == next_workers,
    {
        RetryScheduled {
            task_id,
            retry_number,
            maximum_retries,
            delay_millis: reported_delay_millis(delay),
            http_status,
            next_workers,
        }
    }

    /// Effective next transfer width; none during initial probing.
    pub fn next_workers(self) -> (workers: Option<WorkerCount>)
        ensures
            workers == self.spec_next_workers(),
    {
        self.next_workers
    }

    /// Affected task.
    pub fn task_id(self) -> (id: TaskId)
        ensures
            id == self.spec_task_id(),
    {
        self.task_id
    }

    /// One-based retry number.
    pub fn retry_number(self) -> (n: u8)
        ensures
            n == self.spec_retry_number(),
    {
        self.retry_number
    }

    /// Configured retry budget.
    pub fn maximum_retries(self) -> (n: u8)
        ensures
            n == self.spec_maximum_retries(),
    {
        self.maximum_retries
    }

    /// Actual bounded delay after jitter and `Retry-After`.
    pub fn delay_millis(self) -> (millis: u64)
        ensures
            millis == self.spec_delay_millis(),
    {
        self.delay_millis
    }

    /// Triggering HTTP status, when available.
    pub fn http_status(self) -> (status: Option<u16>)
        ensures
            status == self.spec_http_status(),
    {
        self.http_status
    }
}

/// Event payload before protocol serialization.
#[derive(Clone, PartialEq, Eq)]
pub enum TaskEventKind {
    /// Persisted lifecycle changed.
    StateChanged { task: TaskSnapshot, previous_state: TaskState },
    /// Coalescible absolute progress sample.
    Progress(TaskProgress),
    /// Engine-local bounded retry bookkeeping.
    RetryScheduled(RetryScheduled),
    /// Task completed publication.
    Completed(TaskSnapshot),
    /// Task reached the failed state.
    Failed { task: TaskSnapshot, failure: TaskFailure },
}

/// The queue class of an event: progress and retry bookkeeping may be
/// coalesced or dropped, lifecycle events may not.
pub open spec fn event_class_of(kind: TaskEventKind) -> EventClass {
    match kind {
        TaskEventKind::StateChanged { .. } => EventClass::StateChanged,
        TaskEventKind::Progress(_) => EventClass::Progress,
        TaskEventKind::RetryScheduled(_) => EventClass::RetryScheduled,
        TaskEventKind::Completed(_) => EventClass::Completed,
        TaskEventKind::Failed { .. } => EventClass::Failed,
    }
}

/// The task an event concerns.
pub open spec fn event_task_of(kind: TaskEventKind) -> TaskId {
    match kind {
        TaskEventKind::StateChanged { task, .. } => task@.task_id,
        TaskEventKind::Completed(task) => task@.task_id,
        TaskEventKind::Failed { task, .. } => task@.task_id,
        TaskEventKind::Progress(progress) => progress@.task_id,
        TaskEventKind::RetryScheduled(retry) => retry.spec_task_id(),
    }
}

/// An event ready for the queue, classified and keyed by its task.
pub fn pending_event(kind: TaskEventKind, emitted_at: TimestampMillis) -> (event: PendingEvent<TaskEventKind>)
    ensures
        event.class == event_class_of(kind),
        event.task == event_task_of(kind).spec_value(),
        event.emitted_at == emitted_at,
        event.payload == kind,
{
    let (class, task) = match &kind {
        TaskEventKind::StateChanged { task, .. } => (EventClass::StateChanged, task.task_id()),
        TaskEventKind::Progress(progress) => (EventClass::Progress, progress.task_id()),
        TaskEventKind::RetryScheduled(retry) => (EventClass::RetryScheduled, retry.task_id()),
        TaskEventKind::Completed(task) => (EventClass::Completed, task.task_id()),
        TaskEventKind::Failed { task, .. } => (EventClass::Failed, task.task_id()),
    };
    PendingEvent { task: task.value(), class, emitted_at, payload: kind }
}

/// One connection-neutral event with its monotonic dequeue order.
#[derive(Clone, PartialEq, Eq)]
pub struct TaskEvent {
    sequence: u64,
    emitted_at: TimestampMillis,
    kind: TaskEventKind,
}

impl TaskEvent {
    pub closed spec fn spec_sequence(&self) -> u64 {
        self.sequence
    }

    pub closed spec fn spec_emitted_at(&self) -> TimestampMillis {
        self.emitted_at
    }

    pub closed spec fn spec_kind(&self) -> TaskEventKind {
        self.kind
    }

    /// The event a dequeued entry carries.
    pub fn from_sequenced(event: SequencedEvent<TaskEventKind>) -> (out: TaskEvent)
        ensures
            out.spec_sequence() == event.sequence,
            out.spec_emitted_at() == event.emitted_at,
            out.spec_kind() == event.payload,
    {
        TaskEvent { sequence: event.sequence, emitted_at: event.emitted_at, kind: event.payload }
    }

    /// Monotonic engine dequeue order bounded for JavaScript.
    pub fn sequence(&self) -> (sequence: u64)
        ensures
            sequence == self.spec_sequence(),
    {
        self.sequence
    }

    /// Event wall-clock timestamp.
    pub fn emitted_at(&self) -> (at: TimestampMillis)
        ensures
            at == self.spec_emitted_at(),
    {
        self.emitted_at
    }

    /// Typed payload.
    pub fn kind(&self) -> (kind: &TaskEventKind)
        ensures
            *kind == self.spec_kind(),
    {
        &self.kind
    }
}

/// Startup diagnoses kept apart from validated snapshots.
#[derive(Debug, Clone, Default)]
pub struct TaskRecoveryReport {
    failures: Vec<LoadFailure>,
    normalized_tasks: Vec<TaskId>,
}

impl TaskRecoveryReport {
    pub closed spec fn spec_failures(&self) -> Seq<LoadFailure> {
        self.failures@
    }

    pub closed spec fn spec_normalized_tasks(&self) -> Seq<TaskId> {
        self.normalized_tasks@
    }

    /// A report of excluded records and of tasks settled at startup.
    pub fn new(failures: Vec<LoadFailure>, normalized_tasks: Vec<TaskId>) -> (report: TaskRecoveryReport)
        ensures
            report.spec_failures() == failures@,
            report.spec_normalized_tasks() == normalized_tasks@,
    {
        TaskRecoveryReport { failures, normalized_tasks }
    }

    /// Corrupt or unsafe records excluded by recovery.
    pub fn failures(&self) -> (failures: &[LoadFailure])
        ensures
            failures@ == self.spec_failures(),
    {
        self.failures.as_slice()
    }

    /// Tasks moved from interrupted phases to a settled durable state.
    pub fn normalized_tasks(&self) -> (tasks: &[TaskId])
        ensures
            tasks@ == self.spec_normalized_tasks(),
    {
        self.normalized_tasks.as_slice()
    }
}

} // verus!
