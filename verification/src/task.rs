//! Task-engine policy: bounded jittered retry with server delay, engine
//! options, stable failure classification, and the bounded event queue.
use vstd::prelude::*;
use std::collections::VecDeque;
use crate::clock::{Duration, NANOS_PER_MILLI, NANOS_PER_SEC};
use crate::network::{ProbeError, RangeValidationError};
use crate::auth::ContextError;
use crate::persistence::{PersistenceError, StateValidationError, TaskUpdateError, TimestampMillis};
use crate::progress::{MAX_SAFE_INTEGER, ProgressConfigError, ProgressPolicy};
use crate::scheduler::{SchedulerError, WorkerCount};
use crate::storage::{IoFailure, StorageError};

verus! {

/// Maximum automatic retries accepted by protocol-v2 settings.
pub const MAX_RETRIES: u8 = 20;
/// Retries of a default policy.
pub const DEFAULT_RETRIES: u8 = 5;
/// Default first backoff ceiling: 250 ms.
pub const DEFAULT_RETRY_BASE_NANOS: u128 = 250_000_000;
/// Default largest backoff: 30 s.
pub const DEFAULT_RETRY_CEILING_NANOS: u128 = 30_000_000_000;
/// Default largest accepted `Retry-After`: 5 minutes.
pub const DEFAULT_MAX_RETRY_AFTER_NANOS: u128 = 300_000_000_000;
/// Smallest accepted base delay: 10 ms.
pub const MIN_RETRY_BASE_NANOS: u128 = 10_000_000;
/// Largest accepted base delay: 60 s.
pub const MAX_RETRY_BASE_NANOS: u128 = 60_000_000_000;
/// Largest accepted backoff ceiling: 10 minutes.
pub const MAX_RETRY_CEILING_NANOS: u128 = 600_000_000_000;
/// Largest accepted `Retry-After` bound: one hour.
pub const MAX_RETRY_AFTER_NANOS: u128 = 3_600_000_000_000;
/// Smallest event queue.
pub const MIN_EVENT_CAPACITY: usize = 64;
/// Largest event queue.
pub const MAX_EVENT_CAPACITY: usize = 16_384;
/// Default event queue.
pub const DEFAULT_EVENT_CAPACITY: usize = 4096;

/// Invalid retry or task-engine configuration.
#[derive(Debug, Clone, Copy, PartialEq, Eq, Structural)]
pub enum TaskConfigError {
    /// Retry count exceeded protocol-v2's maximum of 20.
    InvalidRetryCount,
    /// Exponential retry delays were zero, reversed, or above ten minutes.
    InvalidRetryDelay,
    /// Accepted server Retry-After bound was zero or above one hour.
    InvalidRetryAfter,
    /// Progress sampling configuration was invalid.
    Progress(ProgressConfigError),
    /// Event queue capacity was below 64 or above 16,384.
    InvalidEventCapacity,
}

/// Two to the power `k`.
pub open spec fn pow2(k: nat) -> nat
    decreases k,
{
    if k == 0 { 1 } else { 2 * pow2((k - 1) as nat) }
}

/// Bounded exponential backoff with caller-seeded equal jitter.
#[derive(Debug, Clone, Copy, PartialEq, Eq, Structural)]
pub struct RetryPolicy {
    maximum_retries: u8,
    base_delay: Duration,
    maximum_delay: Duration,
    maximum_retry_after: Duration,
}

/// The backoff ceiling of retry `n` in milliseconds: the base doubled for
/// each earlier retry, capped at the maximum delay.
pub open spec fn retry_ceiling_millis(base: int, maximum: int, n: nat) -> int {
    let doubled = base * pow2((n - 1) as nat);
    (if doubled < maximum { doubled } else { maximum }) / (NANOS_PER_MILLI as int)
}

/// The jittered backoff of retry `n` in milliseconds: the upper half of the
/// ceiling, chosen by `entropy`.
pub open spec fn jittered_millis(ceiling: int, entropy: u64) -> int {
    let floor = ceiling / 2;
    let span = ceiling - floor;
    floor + (entropy as int) % (span + 1)
}

impl RetryPolicy {
    pub closed spec fn spec_maximum_retries(self) -> u8 {
        self.maximum_retries
    }

    pub closed spec fn spec_base_delay(self) -> Duration {
        self.base_delay
    }

    pub closed spec fn spec_maximum_delay(self) -> Duration {
        self.maximum_delay
    }

    pub closed spec fn spec_maximum_retry_after(self) -> Duration {
        self.maximum_retry_after
    }

    /// The delay before one-based retry `retry_number`: none once the budget
    /// is spent or when `Retry-After` exceeds the accepted bound; otherwise
    /// the jittered backoff, raised to the server's delay when that is longer.
    pub open spec fn delay_of(self, retry_number: u8, retry_after_seconds: Option<u64>, entropy: u64) -> Option<Duration> {
        if retry_number == 0 || retry_number > self.spec_maximum_retries() {
            None
        } else {
            let ceiling = retry_ceiling_millis(self.spec_base_delay().nanos as int,
                self.spec_maximum_delay().nanos as int, retry_number as nat);
            let backoff = jittered_millis(ceiling, entropy) * NANOS_PER_MILLI;
            match retry_after_seconds {
                None => Some(Duration { nanos: backoff as u128 }),
                Some(seconds) => if seconds * NANOS_PER_SEC > self.spec_maximum_retry_after().nanos {
                    None
                } else {
                    Some(Duration {
                        nanos: (if backoff >= seconds * NANOS_PER_SEC { backoff } else { seconds * NANOS_PER_SEC }) as u128,
                    })
                },
            }
        }
    }

    #[verifier::type_invariant]
    spec fn bounded(self) -> bool {
        &&& self.maximum_retries <= MAX_RETRIES
        &&& MIN_RETRY_BASE_NANOS <= self.base_delay.nanos <= MAX_RETRY_BASE_NANOS
        &&& self.base_delay.nanos <= self.maximum_delay.nanos <= MAX_RETRY_CEILING_NANOS
        &&& 0 < self.maximum_retry_after.nanos <= MAX_RETRY_AFTER_NANOS
    }

    /// A bounded retry policy: at most 20 retries after the initial request,
    /// a base delay of 10 ms through 60 s, a ceiling from the base up to ten
    /// minutes, and accepted `Retry-After` guidance above zero and at most
    /// one hour.
    pub fn new(maximum_retries: u8, base_delay: Duration, maximum_delay: Duration, maximum_retry_after: Duration)
        -> (policy: Result<RetryPolicy, TaskConfigError>)
        ensures
            policy is Err ==> policy == (if maximum_retries > MAX_RETRIES {
                Err::<RetryPolicy, TaskConfigError>(TaskConfigError::InvalidRetryCount)
            } else if base_delay.nanos < MIN_RETRY_BASE_NANOS || base_delay.nanos > MAX_RETRY_BASE_NANOS
                || maximum_delay.nanos < base_delay.nanos || maximum_delay.nanos > MAX_RETRY_CEILING_NANOS {
                Err(TaskConfigError::InvalidRetryDelay)
            } else {
                Err(TaskConfigError::InvalidRetryAfter)
            }),
            policy is Ok <==> maximum_retries <= MAX_RETRIES
                && MIN_RETRY_BASE_NANOS <= base_delay.nanos <= MAX_RETRY_BASE_NANOS
                && base_delay.nanos <= maximum_delay.nanos <= MAX_RETRY_CEILING_NANOS
                && 0 < maximum_retry_after.nanos <= MAX_RETRY_AFTER_NANOS,
            policy matches Ok(p) ==> p.spec_maximum_retries() == maximum_retries && p.spec_base_delay() == base_delay
                && p.spec_maximum_delay() == maximum_delay && p.spec_maximum_retry_after() == maximum_retry_after,
    {
        if maximum_retries > MAX_RETRIES {
            return Err(TaskConfigError::InvalidRetryCount);
        }
        if base_delay.nanos < MIN_RETRY_BASE_NANOS || base_delay.nanos > MAX_RETRY_BASE_NANOS
            || maximum_delay.nanos < base_delay.nanos || maximum_delay.nanos > MAX_RETRY_CEILING_NANOS {
            return Err(TaskConfigError::InvalidRetryDelay);
        }
        if maximum_retry_after.nanos == 0 || maximum_retry_after.nanos > MAX_RETRY_AFTER_NANOS {
            return Err(TaskConfigError::InvalidRetryAfter);
        }
        Ok(RetryPolicy { maximum_retries, base_delay, maximum_delay, maximum_retry_after })
    }

    /// Number of retries available after an initial request.
    pub fn maximum_retries(self) -> (retries: u8)
        ensures
            retries == self.spec_maximum_retries(),
    {
        self.maximum_retries
    }

    /// The delay before one-based retry `retry_number`, given server
    /// guidance and caller entropy: `None` once the budget is spent or when
    /// `Retry-After` exceeds the accepted bound, so the caller never retries
    /// early. Otherwise a jittered delay in the upper half of the exponential
    /// ceiling, raised to the server's `Retry-After` when that is longer.
    pub fn delay_for(self, retry_number: u8, retry_after_seconds: Option<u64>, entropy: u64) -> (delay: Option<Duration>)
        ensures
            delay == self.delay_of(retry_number, retry_after_seconds, entropy),
    {
        proof { use_type_invariant(&self); }
        if retry_number == 0 || retry_number > self.maximum_retries {
            return None;
        }
        let mut multiplier: u128 = 1;
        let mut k: u8 = 1;
        proof {
            lemma_pow2_19();
        }
        while k < retry_number
            invariant
                1 <= k <= retry_number <= MAX_RETRIES,
                multiplier == pow2((k - 1) as nat),
                pow2(19) == 524288,
            decreases retry_number - k,
        {
            proof {
                lemma_pow2_monotone((k - 1) as nat, 19);
            }
            multiplier = multiplier * 2;
            k += 1;
        }
        proof {
            lemma_pow2_monotone((k - 1) as nat, 19);
        }
        assert(self.base_delay.nanos * multiplier <= MAX_RETRY_BASE_NANOS * 524288) by (nonlinear_arith)
            requires
                self.base_delay.nanos <= MAX_RETRY_BASE_NANOS,
                multiplier <= 524288;
        let doubled = self.base_delay.nanos * multiplier;
        let capped = if doubled < self.maximum_delay.nanos { doubled } else { self.maximum_delay.nanos };
        let ceiling_millis = (capped / NANOS_PER_MILLI) as u64;
        let floor_millis = ceiling_millis / 2;
        let span = ceiling_millis - floor_millis;
        let jittered = floor_millis + entropy % (span + 1);
        let backoff = jittered as u128 * NANOS_PER_MILLI;
        match retry_after_seconds {
            None => Some(Duration { nanos: backoff }),
            Some(seconds) => {
                let server = seconds as u128 * NANOS_PER_SEC;
                if server > self.maximum_retry_after.nanos {
                    return None;
                }
                Some(Duration { nanos: if backoff >= server { backoff } else { server } })
            }
        }
    }
}

proof fn lemma_pow2_monotone(a: nat, b: nat)
    requires
        a <= b,
    ensures
        pow2(a) <= pow2(b),
    decreases b,
{
    if a < b {
        lemma_pow2_monotone(a, (b - 1) as nat);
    }
}

proof fn lemma_pow2_19()
    ensures
        pow2(19) == 524288,
{
    reveal_with_fuel(pow2, 20);
}

impl Default for RetryPolicy {
    /// Five retries from 250 ms up to 30 s, honouring `Retry-After` up to
    /// five minutes.
    fn default() -> (policy: Self)
        ensures
            policy.spec_maximum_retries() == DEFAULT_RETRIES,
            policy.spec_base_delay().nanos == DEFAULT_RETRY_BASE_NANOS,
            policy.spec_maximum_delay().nanos == DEFAULT_RETRY_CEILING_NANOS,
            policy.spec_maximum_retry_after().nanos == DEFAULT_MAX_RETRY_AFTER_NANOS,
    {
        RetryPolicy {
            maximum_retries: DEFAULT_RETRIES,
            base_delay: Duration { nanos: DEFAULT_RETRY_BASE_NANOS },
            maximum_delay: Duration { nanos: DEFAULT_RETRY_CEILING_NANOS },
            maximum_retry_after: Duration { nanos: DEFAULT_MAX_RETRY_AFTER_NANOS },
        }
    }
}

} // verus!

verus! {

/// The jittered backoff lies in the upper half of its ceiling.
pub proof fn lemma_jitter_bounds(ceiling: int, entropy: u64)
    requires
        ceiling >= 0,
    ensures
        ceiling / 2 <= jittered_millis(ceiling, entropy) <= ceiling,
{
    let floor = ceiling / 2;
    let span = ceiling - floor;
    assert((entropy as int) % (span + 1) <= span);
}

/// Validated task-engine behavior not supplied per download.
#[derive(Debug, Clone, Copy, PartialEq, Eq, Structural)]
pub struct TaskEngineOptions {
    default_workers: WorkerCount,
    retry: RetryPolicy,
    progress: ProgressPolicy,
    event_capacity: usize,
    keep_partial_on_failure: bool,
}

impl TaskEngineOptions {
    pub closed spec fn spec_default_workers(self) -> WorkerCount {
        self.default_workers
    }

    pub closed spec fn spec_retry(self) -> RetryPolicy {
        self.retry
    }

    pub closed spec fn spec_progress(self) -> ProgressPolicy {
        self.progress
    }

    pub closed spec fn spec_event_capacity(self) -> usize {
        self.event_capacity
    }

    pub closed spec fn spec_keep_partial_on_failure(self) -> bool {
        self.keep_partial_on_failure
    }

    /// Engine options; event capacities outside 64 through 16,384 are
    /// rejected. Failed tasks keep their partial file by default.
    pub fn new(default_workers: WorkerCount, retry: RetryPolicy, progress: ProgressPolicy, event_capacity: usize)
        -> (options: Result<TaskEngineOptions, TaskConfigError>)
        ensures
            options is Ok <==> MIN_EVENT_CAPACITY <= event_capacity <= MAX_EVENT_CAPACITY,
            options matches Ok(o) ==> o.spec_default_workers() == default_workers && o.spec_retry() == retry
                && o.spec_progress() == progress && o.spec_event_capacity() == event_capacity
                && o.spec_keep_partial_on_failure(),
            options matches Err(e) ==> e == TaskConfigError::InvalidEventCapacity,
    {
        if event_capacity < MIN_EVENT_CAPACITY || event_capacity > MAX_EVENT_CAPACITY {
            return Err(TaskConfigError::InvalidEventCapacity);
        }
        Ok(TaskEngineOptions { default_workers, retry, progress, event_capacity, keep_partial_on_failure: true })
    }

    /// Selects whether terminal failures retain recoverable partial storage.
    pub fn with_failure_retention(self, keep: bool) -> (options: TaskEngineOptions)
        ensures
            options.spec_keep_partial_on_failure() == keep,
            options.spec_default_workers() == self.spec_default_workers(),
            options.spec_retry() == self.spec_retry(),
            options.spec_progress() == self.spec_progress(),
            options.spec_event_capacity() == self.spec_event_capacity(),
    {
        TaskEngineOptions { keep_partial_on_failure: keep, ..self }
    }

    /// Default per-task worker selection.
    pub fn default_workers(self) -> (workers: WorkerCount)
        ensures
            workers == self.spec_default_workers(),
    {
        self.default_workers
    }

    /// Automatic retry policy.
    pub fn retry(self) -> (retry: RetryPolicy)
        ensures
            retry == self.spec_retry(),
    {
        self.retry
    }

    /// Progress event and speed policy.
    pub fn progress(self) -> (progress: ProgressPolicy)
        ensures
            progress == self.spec_progress(),
    {
        self.progress
    }

    /// Bounded pending event capacity.
    pub fn event_capacity(self) -> (capacity: usize)
        ensures
            capacity == self.spec_event_capacity(),
    {
        self.event_capacity
    }

    /// Whether terminal failures retain recoverable partial storage.
    pub fn keep_partial_on_failure(self) -> (keep: bool)
        ensures
            keep == self.spec_keep_partial_on_failure(),
    {
        self.keep_partial_on_failure
    }
}

impl Default for TaskEngineOptions {
    /// Four workers, the default retry and progress policies, 4,096 pending
    /// events, and failed tasks keep their partial file.
    fn default() -> (options: Self)
        ensures
            options.spec_default_workers() == WorkerCount::Four,
            options.spec_event_capacity() == DEFAULT_EVENT_CAPACITY,
            options.spec_keep_partial_on_failure(),
            options.spec_retry().spec_maximum_retries() == DEFAULT_RETRIES,
    {
        TaskEngineOptions {
            default_workers: WorkerCount::default(),
            retry: RetryPolicy::default(),
            progress: ProgressPolicy::default(),
            event_capacity: DEFAULT_EVENT_CAPACITY,
            keep_partial_on_failure: true,
        }
    }
}

/// Explicit treatment of a partial after cancellation.
#[derive(Debug, Clone, Copy, PartialEq, Eq, Structural)]
pub enum CancelPartialPolicy {
    /// Retain durable completed ranges and the managed partial.
    Keep,
    /// Delete the managed partial and retain only cancellation history.
    Delete,
}

/// A complete trusted policy decision on publishing a transfer's bytes.
#[derive(Debug, Clone, Copy, PartialEq, Eq, Structural)]
pub enum ProtectionDecision {
    /// Every applicable policy permitted these exact bytes, name and contexts.
    PermitPublication,
    /// A policy blocked the transfer. There is no override command here.
    Blocked,
    /// Missing context, unsupported policy, uncertainty or failed observation.
    Unavailable,
}

/// Stable task failure category for later protocol-v2 error mapping.
#[derive(Debug, Clone, Copy, PartialEq, Eq, Structural)]
pub enum TaskFailureKind {
    /// Recovery lost the memory-only session.
    AuthRequired,
    /// Server denied access or a transferred cookie expired.
    AuthExpired,
    /// A redirect was forbidden before contacting its next origin.
    RedirectRejected,
    /// User-requested cancellation reached a safe checkpoint.
    Cancelled,
    /// HTTP probing could not safely characterize the resource.
    ProbeFailed,
    /// A terminal HTTP status was returned.
    HttpStatus,
    /// A ranged or sequential response violated accepted protocol metadata.
    RangeResponseInvalid,
    /// Resource URL, size, or validator identity changed.
    ResourceChanged,
    /// All bounded transient retries were consumed or server delay was unsafe.
    RetryExhausted,
    /// Generic storage failure.
    Storage,
    /// Destination capacity was exhausted.
    DiskFull,
    /// Filesystem access was denied.
    AccessDenied,
    /// Another process holds an incompatible file lock.
    FileLocked,
    /// Collision-free publication could not be completed.
    FileExists,
    /// Persistent state could not be safely updated or recovered.
    State,
    /// A bounded internal invariant or worker failed.
    Internal,
}

/// Server retry guidance kept only while it is an exact JavaScript integer.
pub open spec fn safe_retry_after_of(value: Option<u64>) -> Option<u64> {
    match value {
        Some(seconds) => if seconds <= MAX_SAFE_INTEGER { Some(seconds) } else { None },
        None => None,
    }
}

/// Drops retry guidance that JavaScript could not represent exactly.
pub fn safe_retry_after(value: Option<u64>) -> (safe: Option<u64>)
    ensures
        safe == safe_retry_after_of(value),
{
    match value {
        Some(seconds) => if seconds <= MAX_SAFE_INTEGER { Some(seconds) } else { None },
        None => None,
    }
}

/// HTTP statuses worth an automatic retry.
pub open spec fn is_retryable_status(status: u16) -> bool {
    status == 408 || status == 425 || status == 429 || status == 500 || status == 502 || status == 503 || status == 504
}

/// Whether an HTTP status is transient enough to retry.
pub fn retryable_status(status: u16) -> (retry: bool)
    ensures
        retry <==> (status == 408 || status == 425 || status == 429 || status == 500 || status == 502 || status == 503 || status == 504),
        retry == is_retryable_status(status),
{
    status == 408 || status == 425 || status == 429 || status == 500 || status == 502 || status == 503 || status == 504
}

/// Path- and URL-free terminal task failure data.
#[derive(Debug, Clone, Copy, PartialEq, Eq, Structural)]
pub struct TaskFailure {
    kind: TaskFailureKind,
    http_status: Option<u16>,
    retry_after_seconds: Option<u64>,
}

impl TaskFailure {
    pub closed spec fn spec_kind(self) -> TaskFailureKind {
        self.kind
    }

    pub closed spec fn spec_http_status(self) -> Option<u16> {
        self.http_status
    }

    pub closed spec fn spec_retry_after(self) -> Option<u64> {
        self.retry_after_seconds
    }

    /// Stable failure category.
    pub fn kind(self) -> (kind: TaskFailureKind)
        ensures
            kind == self.spec_kind(),
    {
        self.kind
    }

    /// HTTP status when relevant.
    pub fn http_status(self) -> (status: Option<u16>)
        ensures
            status == self.spec_http_status(),
    {
        self.http_status
    }

    /// Bounded server retry guidance when relevant.
    pub fn retry_after_seconds(self) -> (seconds: Option<u64>)
        ensures
            seconds == self.spec_retry_after(),
    {
        self.retry_after_seconds
    }

    /// A failure of this kind with no HTTP data.
    pub fn new(kind: TaskFailureKind) -> (failure: TaskFailure)
        ensures
            failure == TaskFailure::new_spec(kind),
            failure.spec_kind() == kind,
            failure.spec_http_status() is None,
            failure.spec_retry_after() is None,
    {
        TaskFailure { kind, http_status: None, retry_after_seconds: None }
    }

    /// A failure carrying an HTTP status and exactly representable retry
    /// guidance.
    pub fn http(kind: TaskFailureKind, status: u16, retry_after_seconds: Option<u64>) -> (failure: TaskFailure)
        ensures
            failure.spec_kind() == kind,
            failure.spec_http_status() == Some(status),
            failure.spec_retry_after() == safe_retry_after_of(retry_after_seconds),
    {
        TaskFailure { kind, http_status: Some(status), retry_after_seconds: safe_retry_after(retry_after_seconds) }
    }

    /// The failure of a transient error whose retries ran out: the status of
    /// the last attempt, when there was one, and its exactly representable
    /// retry guidance.
    pub fn exhausted(status: Option<u16>, retry_after_seconds: Option<u64>) -> (failure: TaskFailure)
        ensures
            failure.spec_kind() == TaskFailureKind::RetryExhausted,
            failure.spec_http_status() == status,
            failure.spec_retry_after() == safe_retry_after_of(retry_after_seconds),
    {
        TaskFailure {
            kind: TaskFailureKind::RetryExhausted,
            http_status: status,
            retry_after_seconds: safe_retry_after(retry_after_seconds),
        }
    }
}

} // verus!

verus! {

/// The failure category a storage error maps to.
pub open spec fn storage_failure_kind(error: StorageError) -> TaskFailureKind {
    match error {
        StorageError::Io { failure, .. } => match failure {
            IoFailure::DiskFull => TaskFailureKind::DiskFull,
            IoFailure::AccessDenied => TaskFailureKind::AccessDenied,
            IoFailure::FileLocked => TaskFailureKind::FileLocked,
            IoFailure::AlreadyExists => TaskFailureKind::FileExists,
            _ => TaskFailureKind::Storage,
        },
        StorageError::PartialNameExhausted | StorageError::FinalNameExhausted => TaskFailureKind::FileExists,
        _ => TaskFailureKind::Storage,
    }
}

/// Classifies a storage failure.
pub fn failure_from_storage(error: &StorageError) -> (failure: TaskFailure)
    ensures
        failure == TaskFailure::new_spec(storage_failure_kind(*error)),
{
    let kind = match error {
        StorageError::Io { failure, .. } => match failure {
            IoFailure::DiskFull => TaskFailureKind::DiskFull,
            IoFailure::AccessDenied => TaskFailureKind::AccessDenied,
            IoFailure::FileLocked => TaskFailureKind::FileLocked,
            IoFailure::AlreadyExists => TaskFailureKind::FileExists,
            _ => TaskFailureKind::Storage,
        },
        StorageError::PartialNameExhausted | StorageError::FinalNameExhausted => TaskFailureKind::FileExists,
        _ => TaskFailureKind::Storage,
    };
    TaskFailure::new(kind)
}

impl TaskFailure {
    /// A failure of this kind with no HTTP data.
    pub closed spec fn new_spec(kind: TaskFailureKind) -> TaskFailure {
        TaskFailure { kind, http_status: None, retry_after_seconds: None }
    }

    /// A failure with an HTTP status and exactly representable guidance.
    pub closed spec fn http_spec(kind: TaskFailureKind, status: u16, retry_after: Option<u64>) -> TaskFailure {
        TaskFailure { kind, http_status: Some(status), retry_after_seconds: safe_retry_after_of(retry_after) }
    }

    /// What the two failure shapes hold.
    pub proof fn lemma_failure_shapes(kind: TaskFailureKind, status: u16, retry_after: Option<u64>)
        ensures
            TaskFailure::new_spec(kind).spec_kind() == kind,
            TaskFailure::new_spec(kind).spec_http_status() is None,
            TaskFailure::new_spec(kind).spec_retry_after() is None,
            TaskFailure::http_spec(kind, status, retry_after).spec_kind() == kind,
            TaskFailure::http_spec(kind, status, retry_after).spec_http_status() == Some(status),
            TaskFailure::http_spec(kind, status, retry_after).spec_retry_after() == safe_retry_after_of(retry_after),
    {
    }
}

/// The failure a probe error maps to.
pub open spec fn probe_failure_of(error: ProbeError) -> TaskFailure {
    match error {
        ProbeError::Admission(_) => TaskFailure::new_spec(TaskFailureKind::RetryExhausted),
        ProbeError::HttpStatus { status, retry_after_seconds } => TaskFailure::http_spec(
            if status == 401 { TaskFailureKind::AuthRequired } else { TaskFailureKind::HttpStatus },
            status,
            retry_after_seconds,
        ),
        ProbeError::InvalidRange(RangeValidationError::ValidatorChanged)
        | ProbeError::InvalidRange(RangeValidationError::ValidatorMissing) => TaskFailure::new_spec(TaskFailureKind::ResourceChanged),
        ProbeError::RedirectRejected => TaskFailure::new_spec(TaskFailureKind::RedirectRejected),
        ProbeError::Context(ContextError::Expired) => TaskFailure::new_spec(TaskFailureKind::AuthExpired),
        ProbeError::Context(ContextError::Invalid) => TaskFailure::new_spec(TaskFailureKind::AuthRequired),
        ProbeError::InvalidRange(_) | ProbeError::BodyLengthMismatch => TaskFailure::new_spec(TaskFailureKind::RangeResponseInvalid),
        _ => TaskFailure::new_spec(TaskFailureKind::ProbeFailed),
    }
}

/// Classifies a probe failure.
pub fn failure_from_probe(error: &ProbeError) -> (failure: TaskFailure)
    ensures
        failure == probe_failure_of(*error),
{
    match error {
        ProbeError::Admission(_) => TaskFailure::new(TaskFailureKind::RetryExhausted),
        ProbeError::HttpStatus { status, retry_after_seconds } => TaskFailure::http(
            if *status == 401 { TaskFailureKind::AuthRequired } else { TaskFailureKind::HttpStatus },
            *status,
            *retry_after_seconds,
        ),
        ProbeError::InvalidRange(RangeValidationError::ValidatorChanged)
        | ProbeError::InvalidRange(RangeValidationError::ValidatorMissing) => TaskFailure::new(TaskFailureKind::ResourceChanged),
        ProbeError::RedirectRejected => TaskFailure::new(TaskFailureKind::RedirectRejected),
        ProbeError::Context(ContextError::Expired) => TaskFailure::new(TaskFailureKind::AuthExpired),
        ProbeError::Context(ContextError::Invalid) => TaskFailure::new(TaskFailureKind::AuthRequired),
        ProbeError::InvalidRange(_) | ProbeError::BodyLengthMismatch => TaskFailure::new(TaskFailureKind::RangeResponseInvalid),
        _ => TaskFailure::new(TaskFailureKind::ProbeFailed),
    }
}

/// The failure a transfer error maps to.
pub open spec fn scheduler_failure_of(error: SchedulerError) -> TaskFailure {
    match error {
        SchedulerError::HttpStatus { status, retry_after_seconds } => TaskFailure::http_spec(
            if status == 401 { TaskFailureKind::AuthRequired } else { TaskFailureKind::HttpStatus },
            status,
            retry_after_seconds,
        ),
        SchedulerError::ResponseUrlChanged
        | SchedulerError::InvalidRange(RangeValidationError::ValidatorChanged)
        | SchedulerError::InvalidRange(RangeValidationError::ValidatorMissing)
        | SchedulerError::InvalidSingleResponse(RangeValidationError::ValidatorChanged)
        | SchedulerError::InvalidSingleResponse(RangeValidationError::ValidatorMissing) => TaskFailure::new_spec(TaskFailureKind::ResourceChanged),
        SchedulerError::InvalidRange(_) | SchedulerError::InvalidSingleResponse(_) | SchedulerError::BodyLengthMismatch =>
            TaskFailure::new_spec(TaskFailureKind::RangeResponseInvalid),
        SchedulerError::Storage(e) => TaskFailure::new_spec(storage_failure_kind(e)),
        SchedulerError::Cancelled => TaskFailure::new_spec(TaskFailureKind::Cancelled),
        SchedulerError::Request => TaskFailure::new_spec(TaskFailureKind::RetryExhausted),
        _ => TaskFailure::new_spec(TaskFailureKind::Internal),
    }
}

/// Classifies a transfer failure.
pub fn failure_from_scheduler(error: &SchedulerError) -> (failure: TaskFailure)
    ensures
        failure == scheduler_failure_of(*error),
{
    match error {
        SchedulerError::HttpStatus { status, retry_after_seconds } => TaskFailure::http(
            if *status == 401 { TaskFailureKind::AuthRequired } else { TaskFailureKind::HttpStatus },
            *status,
            *retry_after_seconds,
        ),
        SchedulerError::ResponseUrlChanged
        | SchedulerError::InvalidRange(RangeValidationError::ValidatorChanged)
        | SchedulerError::InvalidRange(RangeValidationError::ValidatorMissing)
        | SchedulerError::InvalidSingleResponse(RangeValidationError::ValidatorChanged)
        | SchedulerError::InvalidSingleResponse(RangeValidationError::ValidatorMissing) => TaskFailure::new(TaskFailureKind::ResourceChanged),
        SchedulerError::InvalidRange(_) | SchedulerError::InvalidSingleResponse(_) | SchedulerError::BodyLengthMismatch =>
            TaskFailure::new(TaskFailureKind::RangeResponseInvalid),
        SchedulerError::Storage(e) => failure_from_storage(e),
        SchedulerError::Cancelled => TaskFailure::new(TaskFailureKind::Cancelled),
        SchedulerError::Request => TaskFailure::new(TaskFailureKind::RetryExhausted),
        _ => TaskFailure::new(TaskFailureKind::Internal),
    }
}

/// Any metadata validation failure is a state failure.
pub fn failure_from_state(error: StateValidationError) -> (failure: TaskFailure)
    ensures
        failure == TaskFailure::new_spec(TaskFailureKind::State),
{
    TaskFailure::new(TaskFailureKind::State)
}

/// The failure a persistence error maps to.
pub open spec fn persistence_failure_kind(error: PersistenceError) -> TaskFailureKind {
    match error {
        PersistenceError::Io { failure, .. } => match failure {
            IoFailure::DiskFull => TaskFailureKind::DiskFull,
            IoFailure::AccessDenied => TaskFailureKind::AccessDenied,
            IoFailure::FileLocked => TaskFailureKind::FileLocked,
            _ => TaskFailureKind::State,
        },
        _ => TaskFailureKind::State,
    }
}

/// Classifies a persistence failure.
pub fn failure_from_persistence(error: &PersistenceError) -> (failure: TaskFailure)
    ensures
        failure == TaskFailure::new_spec(persistence_failure_kind(*error)),
{
    let kind = match error {
        PersistenceError::Io { failure, .. } => match failure {
            IoFailure::DiskFull => TaskFailureKind::DiskFull,
            IoFailure::AccessDenied => TaskFailureKind::AccessDenied,
            IoFailure::FileLocked => TaskFailureKind::FileLocked,
            _ => TaskFailureKind::State,
        },
        _ => TaskFailureKind::State,
    };
    TaskFailure::new(kind)
}

/// Classifies a failed progress snapshot.
pub fn failure_from_update(error: TaskUpdateError) -> (failure: TaskFailure)
    ensures
        failure == match error {
            TaskUpdateError::State(_) => TaskFailure::new_spec(TaskFailureKind::State),
            TaskUpdateError::Storage(e) => TaskFailure::new_spec(storage_failure_kind(e)),
        },
{
    match error {
        TaskUpdateError::State(e) => failure_from_state(e),
        TaskUpdateError::Storage(e) => failure_from_storage(&e),
    }
}

/// Whether a probe failure is transient, with the status and server delay
/// that accompany it.
pub open spec fn probe_retry_data_of(error: ProbeError) -> Option<(Option<u16>, Option<u64>)> {
    match error {
        ProbeError::Request => Some((None, None)),
        ProbeError::HttpStatus { status, retry_after_seconds } =>
            if is_retryable_status(status) { Some((Some(status), retry_after_seconds)) } else { None },
        _ => None,
    }
}

/// Retry data of a probe failure (see [`probe_retry_data_of`]).
pub fn probe_retry_data(error: &ProbeError) -> (data: Option<(Option<u16>, Option<u64>)>)
    ensures
        data == probe_retry_data_of(*error),
{
    match error {
        ProbeError::Request => Some((None, None)),
        ProbeError::HttpStatus { status, retry_after_seconds } => {
            if retryable_status(*status) { Some((Some(*status), *retry_after_seconds)) } else { None }
        }
        _ => None,
    }
}

/// Whether a transfer failure is transient, with its status and delay.
pub open spec fn scheduler_retry_data_of(error: SchedulerError) -> Option<(Option<u16>, Option<u64>)> {
    match error {
        SchedulerError::Request => Some((None, None)),
        SchedulerError::HttpStatus { status, retry_after_seconds } =>
            if is_retryable_status(status) { Some((Some(status), retry_after_seconds)) } else { None },
        _ => None,
    }
}

/// The statuses retried are exactly 408 Request Timeout, 425 Too Early,
/// 429 Too Many Requests, 500 Internal Server Error, 502 Bad Gateway, 503
/// Service Unavailable and 504 Gateway Timeout: a probe or transfer failure
/// with one of them is retried with its status and the server's delay, and
/// one with any other status is not retried.
pub proof fn lemma_retried_statuses(status: u16, retry_after_seconds: Option<u64>)
    ensures
        is_retryable_status(status) <==> (status == 408 || status == 425 || status == 429 || status == 500 || status == 502 || status == 503 || status == 504),
        probe_retry_data_of(ProbeError::HttpStatus { status, retry_after_seconds }) == if (status == 408 || status == 425 || status == 429 || status == 500 || status == 502 || status == 503 || status == 504) {
            Some((Some(status), retry_after_seconds))
        } else {
            None
        },
        scheduler_retry_data_of(SchedulerError::HttpStatus { status, retry_after_seconds }) == if (status == 408 || status == 425 || status == 429 || status == 500 || status == 502 || status == 503 || status == 504) {
            Some((Some(status), retry_after_seconds))
        } else {
            None
        },
{
}

/// Retry data of a transfer failure (see [`scheduler_retry_data_of`]).
pub fn scheduler_retry_data(error: &SchedulerError) -> (data: Option<(Option<u16>, Option<u64>)>)
    ensures
        data == scheduler_retry_data_of(*error),
{
    match error {
        SchedulerError::Request => Some((None, None)),
        SchedulerError::HttpStatus { status, retry_after_seconds } => {
            if retryable_status(*status) { Some((Some(*status), *retry_after_seconds)) } else { None }
        }
        _ => None,
    }
}

/// Task lifecycle operation failure without sensitive URL/path text.
#[derive(Debug, Clone, Copy, PartialEq, Eq, Structural)]
pub enum TaskEngineError {
    /// Engine options were invalid.
    Config(TaskConfigError),
    /// Task identifier does not exist.
    TaskNotFound,
    /// Command does not apply to the current lifecycle state.
    InvalidTaskState,
    /// Maximum managed task count was reached.
    TooManyTasks,
    /// A retained partial prevented non-destructive history removal.
    PartialRetained,
    /// Persistent metadata validation failed.
    State(StateValidationError),
    /// Persistent state operation failed.
    Persistence(PersistenceError),
    /// Probe-client construction failed.
    ProbeSetup(ProbeError),
    /// Scheduler construction failed.
    SchedulerSetup(SchedulerError),
    /// Event sequence exhausted protocol-safe integer space.
    EventSequenceExhausted,
    /// Waiting command was superseded by another terminal transition.
    OperationSuperseded,
    /// Workers stopped, but the requested durable control policy failed.
    ControlFailed(TaskFailureKind),
    /// No Tokio runtime is available to own network workers.
    RuntimeUnavailable,
    /// A bounded internal runtime invariant failed.
    Internal,
}

} // verus!

verus! {

/// What kind of engine event is pending.
#[derive(Debug, Clone, Copy, PartialEq, Eq, Structural)]
pub enum EventClass {
    /// Persisted lifecycle changed.
    StateChanged,
    /// Coalescible absolute progress sample.
    Progress,
    /// Engine-local retry bookkeeping.
    RetryScheduled,
    /// Task completed publication.
    Completed,
    /// Task reached failed state.
    Failed,
}

/// Progress and retry bookkeeping may be replaced or dropped under pressure;
/// lifecycle events may not.
pub open spec fn replaceable(class: EventClass) -> bool {
    class == EventClass::Progress || class == EventClass::RetryScheduled
}

/// An event waiting to be dequeued, with the task it concerns.
pub struct PendingEvent<T> {
    pub task: u128,
    pub class: EventClass,
    pub emitted_at: TimestampMillis,
    pub payload: T,
}

/// A dequeued event with its monotonic sequence number.
pub struct SequencedEvent<T> {
    pub sequence: u64,
    pub task: u128,
    pub class: EventClass,
    pub emitted_at: TimestampMillis,
    pub payload: T,
}

/// Bounded connection-neutral event queue: at most `capacity` events wait,
/// progress is coalesced per task, and when full a replaceable event makes
/// room, a replaceable newcomer is dropped, and a lifecycle event that
/// cannot fit marks the queue overflowed so consumers resynchronize from
/// snapshots.
pub struct EventQueue<T> {
    capacity: usize,
    queue: VecDeque<PendingEvent<T>>,
    next_sequence: u64,
    overflowed: bool,
}

/// Whether a pending event is progress of the given task.
pub open spec fn is_progress_of<T>(event: PendingEvent<T>, task: u128) -> bool {
    event.class == EventClass::Progress && event.task == task
}

impl<T> EventQueue<T> {
    pub closed spec fn events(&self) -> Seq<PendingEvent<T>> {
        self.queue@
    }

    pub closed spec fn spec_capacity(&self) -> usize {
        self.capacity
    }

    pub closed spec fn spec_next_sequence(&self) -> u64 {
        self.next_sequence
    }

    pub closed spec fn spec_overflowed(&self) -> bool {
        self.overflowed
    }

    /// The queue never exceeds its capacity and holds at most one pending
    /// progress event per task.
    pub closed spec fn wf(&self) -> bool {
        &&& self.queue@.len() <= self.capacity
        &&& self.capacity >= 1
        &&& forall|i: int, j: int| 0 <= i < j < self.queue@.len() && (#[trigger] self.queue@[i]).class == EventClass::Progress
            ==> !is_progress_of(#[trigger] self.queue@[j], self.queue@[i].task)
    }

    /// An empty queue of the given capacity.
    pub fn new(capacity: usize) -> (queue: EventQueue<T>)
        requires
            capacity >= 1,
        ensures
            queue.wf(),
            queue.events().len() == 0,
            queue.spec_capacity() == capacity,
            queue.spec_next_sequence() == 0,
            !queue.spec_overflowed(),
    {
        EventQueue { capacity, queue: VecDeque::new(), next_sequence: 0, overflowed: false }
    }

    /// An empty queue that continues a sequence already handed out: the
    /// next event dequeued gets `next_sequence`.
    pub fn continuing(capacity: usize, next_sequence: u64) -> (queue: EventQueue<T>)
        requires
            capacity >= 1,
        ensures
            queue.wf(),
            queue.events().len() == 0,
            queue.spec_capacity() == capacity,
            queue.spec_next_sequence() == next_sequence,
            !queue.spec_overflowed(),
    {
        EventQueue { capacity, queue: VecDeque::new(), next_sequence, overflowed: false }
    }

    /// Number of waiting events.
    pub fn len(&self) -> (len: usize)
        ensures
            len == self.events().len(),
    {
        self.queue.len()
    }

    /// Whether the queue overflowed since the last reset.
    pub fn overflowed(&self) -> (overflowed: bool)
        ensures
            overflowed == self.spec_overflowed(),
    {
        self.overflowed
    }

    fn position_progress_of(&self, task: u128) -> (index: Option<usize>)
        ensures
            index matches Some(i) ==> i < self.queue@.len() && is_progress_of(self.queue@[i as int], task)
                && forall|j: int| 0 <= j < i ==> !is_progress_of(#[trigger] self.queue@[j], task),
            index is None ==> forall|j: int| 0 <= j < self.queue@.len() ==> !is_progress_of(#[trigger] self.queue@[j], task),
    {
        let mut k: usize = 0;
        while k < self.queue.len()
            invariant
                0 <= k <= self.queue@.len(),
                forall|j: int| 0 <= j < k ==> !is_progress_of(#[trigger] self.queue@[j], task),
            decreases self.queue@.len() - k,
        {
            let event = &self.queue[k];
            if event.class == EventClass::Progress && event.task == task {
                return Some(k);
            }
            k += 1;
        }
        None
    }

    fn position_replaceable(&self) -> (index: Option<usize>)
        ensures
            index matches Some(i) ==> i < self.queue@.len() && replaceable(self.queue@[i as int].class)
                && forall|j: int| 0 <= j < i ==> !replaceable(#[trigger] self.queue@[j].class),
            index is None ==> forall|j: int| 0 <= j < self.queue@.len() ==> !replaceable(#[trigger] self.queue@[j].class),
    {
        let mut k: usize = 0;
        while k < self.queue.len()
            invariant
                0 <= k <= self.queue@.len(),
                forall|j: int| 0 <= j < k ==> !replaceable(#[trigger] self.queue@[j].class),
            decreases self.queue@.len() - k,
        {
            let class = self.queue[k].class;
            if class == EventClass::Progress || class == EventClass::RetryScheduled {
                return Some(k);
            }
            k += 1;
        }
        None
    }
}

} // verus!

verus! {

/// `i` is the first pending progress event of `task`.
pub open spec fn is_first_progress<T>(q: Seq<PendingEvent<T>>, task: u128, i: int) -> bool {
    0 <= i < q.len() && is_progress_of(q[i], task) && forall|j: int| 0 <= j < i ==> !is_progress_of(#[trigger] q[j], task)
}

/// `i` is the first replaceable pending event.
pub open spec fn is_first_replaceable<T>(q: Seq<PendingEvent<T>>, i: int) -> bool {
    0 <= i < q.len() && replaceable(q[i].class) && forall|j: int| 0 <= j < i ==> !replaceable(#[trigger] q[j].class)
}

/// The queue after a progress event replaces the pending progress of its task.
pub open spec fn coalesced<T>(q: Seq<PendingEvent<T>>, event: PendingEvent<T>) -> Seq<PendingEvent<T>> {
    if event.class == EventClass::Progress && exists|i: int| is_first_progress(q, event.task, i) {
        q.remove(choose|i: int| is_first_progress(q, event.task, i))
    } else {
        q
    }
}

/// The queue after emitting an event, and whether it overflowed: progress
/// is coalesced; when full, the first replaceable event makes room, a
/// replaceable newcomer is dropped, and otherwise the queue overflows.
pub open spec fn emitted<T>(q: Seq<PendingEvent<T>>, capacity: int, event: PendingEvent<T>) -> (Seq<PendingEvent<T>>, bool) {
    let q1 = coalesced(q, event);
    if q1.len() >= capacity {
        if exists|i: int| is_first_replaceable(q1, i) {
            (q1.remove(choose|i: int| is_first_replaceable(q1, i)).push(event), false)
        } else if replaceable(event.class) {
            (q1, false)
        } else {
            (q1, true)
        }
    } else {
        (q1.push(event), false)
    }
}

/// The queue without the events of one task.
pub open spec fn without_task<T>(q: Seq<PendingEvent<T>>, task: u128) -> Seq<PendingEvent<T>>
    decreases q.len(),
{
    if q.len() == 0 {
        q
    } else if q.last().task == task {
        without_task(q.drop_last(), task)
    } else {
        without_task(q.drop_last(), task).push(q.last())
    }
}

proof fn lemma_remove_keeps_unique<T>(q: Seq<PendingEvent<T>>, k: int)
    requires
        0 <= k < q.len(),
        forall|i: int, j: int| 0 <= i < j < q.len() && (#[trigger] q[i]).class == EventClass::Progress
            ==> !is_progress_of(#[trigger] q[j], q[i].task),
    ensures
        forall|i: int, j: int| 0 <= i < j < q.remove(k).len() && (#[trigger] q.remove(k)[i]).class == EventClass::Progress
            ==> !is_progress_of(#[trigger] q.remove(k)[j], q.remove(k)[i].task),
{
    let r = q.remove(k);
    assert forall|i: int, j: int| 0 <= i < j < r.len() && (#[trigger] r[i]).class == EventClass::Progress
        implies !is_progress_of(#[trigger] r[j], r[i].task) by {
        let oi = if i < k { i } else { i + 1 };
        let oj = if j < k { j } else { j + 1 };
        assert(r[i] == q[oi] && r[j] == q[oj]);
    }
}

impl<T> EventQueue<T> {
    /// Queues an event (see [`emitted`]).
    pub fn emit(&mut self, event: PendingEvent<T>)
        requires
            old(self).wf(),
        ensures
            final(self).wf(),
            final(self).events() == emitted(old(self).events(), old(self).spec_capacity() as int, event).0,
            final(self).spec_overflowed() == (old(self).spec_overflowed()
                || emitted(old(self).events(), old(self).spec_capacity() as int, event).1),
            final(self).spec_capacity() == old(self).spec_capacity(),
            final(self).spec_next_sequence() == old(self).spec_next_sequence(),
    {
        let ghost original = self.queue@;
        if event.class == EventClass::Progress {
            if let Some(index) = self.position_progress_of(event.task) {
                proof {
                    assert(is_first_progress(original, event.task, index as int));
                    let c = choose|i: int| is_first_progress(original, event.task, i);
                    if c < index {
                        assert(!is_progress_of(original[c], event.task));
                    } else if c > index {
                        assert(!is_progress_of(original[index as int], event.task));
                    }
                }
                self.queue.remove(index);
                proof {
                    lemma_remove_keeps_unique(original, index as int);
                }
            } else {
                proof {
                    assert forall|i: int| !is_first_progress(original, event.task, i) by {
                        if 0 <= i < original.len() {
                            assert(!is_progress_of(original[i], event.task));
                        }
                    }
                }
            }
        }
        let ghost q1 = self.queue@;
        assert(q1 == coalesced(original, event));
        proof {
            if event.class == EventClass::Progress {
                assert forall|j: int| 0 <= j < q1.len() implies !is_progress_of(#[trigger] q1[j], event.task) by {
                    if exists|i: int| is_first_progress(original, event.task, i) {
                        let c = choose|i: int| is_first_progress(original, event.task, i);
                        let oj = if j < c { j } else { j + 1 };
                        assert(q1[j] == original[oj]);
                        if oj > c {
                            assert(original[c].class == EventClass::Progress);
                        }
                    } else {
                        assert(q1[j] == original[j]);
                        assert(!is_first_progress(original, event.task, j));
                        if is_progress_of(original[j], event.task) {
                            lemma_first_exists(original, event.task, j);
                        }
                    }
                }
            }
        }
        if self.queue.len() >= self.capacity {
            match self.position_replaceable() {
                Some(index) => {
                    proof {
                        assert(is_first_replaceable(q1, index as int));
                        let c = choose|i: int| is_first_replaceable(q1, i);
                        if c < index {
                            assert(!replaceable(q1[c].class));
                        } else if c > index {
                            assert(!replaceable(q1[index as int].class));
                        }
                    }
                    self.queue.remove(index);
                    proof {
                        lemma_remove_keeps_unique(q1, index as int);
                    }
                }
                None => {
                    proof {
                        assert forall|i: int| !is_first_replaceable(q1, i) by {
                            if 0 <= i < q1.len() {
                                assert(!replaceable(q1[i].class));
                            }
                        }
                    }
                    if event.class == EventClass::Progress || event.class == EventClass::RetryScheduled {
                        return;
                    }
                    self.overflowed = true;
                    return;
                }
            }
        }
        let ghost q2 = self.queue@;
        self.queue.push_back(event);
        proof {
            let q3 = self.queue@;
            assert forall|i: int, j: int| 0 <= i < j < q3.len() && (#[trigger] q3[i]).class == EventClass::Progress
                implies !is_progress_of(#[trigger] q3[j], q3[i].task) by {
                if j < q2.len() {
                    assert(q3[i] == q2[i] && q3[j] == q2[j]);
                } else {
                    assert(q3[i] == q2[i]);
                    if event.class == EventClass::Progress && q2[i].task == event.task {
                        assert(false) by {
                            if exists|r: int| is_first_replaceable(q1, r) && q1.len() >= self.capacity {
                                let c = choose|r: int| is_first_replaceable(q1, r);
                                let oi = if i < c { i } else { i + 1 };
                                assert(q2[i] == q1[oi]);
                            } else {
                                assert(q2[i] == q1[i]);
                            }
                        }
                    }
                }
            }
        }
    }
}

proof fn lemma_first_exists<T>(q: Seq<PendingEvent<T>>, task: u128, j: int)
    requires
        0 <= j < q.len(),
        is_progress_of(q[j], task),
    ensures
        exists|i: int| is_first_progress(q, task, i),
    decreases j,
{
    if forall|g: int| 0 <= g < j ==> !is_progress_of(#[trigger] q[g], task) {
        assert(is_first_progress(q, task, j));
    } else {
        let g = choose|g: int| 0 <= g < j && is_progress_of(#[trigger] q[g], task);
        lemma_first_exists(q, task, g);
    }
}

} // verus!

verus! {

impl<T> EventQueue<T> {
    /// Dequeues the oldest event with the next sequence number. Numbers stay
    /// exact JavaScript integers: past [`MAX_SAFE_INTEGER`] the event stays
    /// queued and the sequence space is reported exhausted.
    pub fn try_next(&mut self) -> (next: Result<Option<SequencedEvent<T>>, TaskEngineError>)
        requires
            old(self).wf(),
        ensures
            final(self).wf(),
            final(self).spec_capacity() == old(self).spec_capacity(),
            final(self).spec_overflowed() == old(self).spec_overflowed(),
            old(self).events().len() == 0 ==> (next matches Ok(None) && final(self).events() == old(self).events()
                && final(self).spec_next_sequence() == old(self).spec_next_sequence()),
            old(self).events().len() > 0 && old(self).spec_next_sequence() > MAX_SAFE_INTEGER ==>
                (next matches Err(TaskEngineError::EventSequenceExhausted) && final(self).events() == old(self).events()
                && final(self).spec_next_sequence() == old(self).spec_next_sequence()),
            old(self).events().len() > 0 && old(self).spec_next_sequence() <= MAX_SAFE_INTEGER ==> {
                let first = old(self).events()[0];
                &&& (next matches Ok(Some(e)) && e.sequence == old(self).spec_next_sequence() && e.task == first.task
                    && e.class == first.class && e.emitted_at == first.emitted_at && e.payload == first.payload)
                &&& final(self).events() == old(self).events().drop_first()
                &&& final(self).spec_next_sequence() == old(self).spec_next_sequence() + 1
            },
    {
        let ghost original = self.queue@;
        let pending = match self.queue.pop_front() {
            Some(pending) => pending,
            None => return Ok(None),
        };
        if self.next_sequence > MAX_SAFE_INTEGER {
            self.queue.push_front(pending);
            proof {
                assert(self.queue@ =~= original);
            }
            return Err(TaskEngineError::EventSequenceExhausted);
        }
        proof {
            lemma_remove_keeps_unique(original, 0);
            assert(original.remove(0) =~= self.queue@);
        }
        let sequence = self.next_sequence;
        self.next_sequence = sequence + 1;
        Ok(Some(SequencedEvent {
            sequence,
            task: pending.task,
            class: pending.class,
            emitted_at: pending.emitted_at,
            payload: pending.payload,
        }))
    }

    /// Drops every pending event of a removed task.
    pub fn remove_task(&mut self, task: u128)
        requires
            old(self).wf(),
        ensures
            final(self).wf(),
            final(self).events() == without_task(old(self).events(), task),
            final(self).spec_capacity() == old(self).spec_capacity(),
            final(self).spec_overflowed() == old(self).spec_overflowed(),
            final(self).spec_next_sequence() == old(self).spec_next_sequence(),
    {
        let ghost original = self.queue@;
        let mut kept: VecDeque<PendingEvent<T>> = VecDeque::new();
        let mut taken: usize = 0;
        while self.queue.len() > 0
            invariant
                original.len() == taken + self.queue@.len(),
                self.queue@ == original.skip(taken as int),
                kept@ == without_task(original.take(taken as int), task),
                kept@.len() <= taken,
                forall|i: int| 0 <= i < kept@.len() ==> exists|o: int| 0 <= o < taken && #[trigger] kept@[i] == original[o],
                forall|i: int, j: int| 0 <= i < j < kept@.len() ==> exists|a: int, b: int| 0 <= a < b < taken
                    && #[trigger] kept@[i] == original[a] && #[trigger] kept@[j] == original[b],
                self.capacity == old(self).capacity,
                self.overflowed == old(self).overflowed,
                self.next_sequence == old(self).next_sequence,
                old(self).wf(),
                original == old(self).queue@,
            decreases self.queue@.len(),
        {
            let ghost before_kept = kept@;
            let event = self.queue.pop_front().unwrap();
            proof {
                assert(original.take(taken + 1).drop_last() =~= original.take(taken as int));
                assert(original.take(taken + 1).last() == original[taken as int]);
                assert(event == original[taken as int]);
                assert(self.queue@ =~= original.skip(taken + 1));
            }
            if event.task != task {
                kept.push_back(event);
                proof {
                    assert forall|i: int| 0 <= i < kept@.len() implies exists|o: int| 0 <= o < taken + 1 && #[trigger] kept@[i] == original[o] by {
                        if i < before_kept.len() {
                            assert(kept@[i] == before_kept[i]);
                        } else {
                            assert(kept@[i] == original[taken as int]);
                        }
                    }
                    assert forall|i: int, j: int| 0 <= i < j < kept@.len() implies exists|a: int, b: int| 0 <= a < b < taken + 1
                        && #[trigger] kept@[i] == original[a] && #[trigger] kept@[j] == original[b] by {
                        if j < before_kept.len() {
                            assert(kept@[i] == before_kept[i] && kept@[j] == before_kept[j]);
                        } else {
                            assert(kept@[i] == before_kept[i]);
                            let a = choose|a: int| 0 <= a < taken && #[trigger] before_kept[i] == original[a];
                            assert(kept@[j] == original[taken as int]);
                        }
                    }
                }
            }
            taken += 1;
        }
        proof {
            assert(original.take(taken as int) =~= original);
            let k = kept@;
            assert forall|i: int, j: int| 0 <= i < j < k.len() && (#[trigger] k[i]).class == EventClass::Progress
                implies !is_progress_of(#[trigger] k[j], k[i].task) by {
                let (a, b) = choose|a: int, b: int| 0 <= a < b < taken && #[trigger] k[i] == original[a] && #[trigger] k[j] == original[b];
                assert(original[a].class == EventClass::Progress);
            }
        }
        self.queue = kept;
    }

    /// Clears the queue after an overflow so consumers resynchronize from
    /// snapshots; reports whether there was one.
    pub fn reset_after_overflow(&mut self) -> (reset: bool)
        requires
            old(self).wf(),
        ensures
            final(self).wf(),
            reset == old(self).spec_overflowed(),
            reset ==> final(self).events().len() == 0 && !final(self).spec_overflowed(),
            !reset ==> final(self).events() == old(self).events() && final(self).spec_overflowed() == old(self).spec_overflowed(),
            final(self).spec_capacity() == old(self).spec_capacity(),
            final(self).spec_next_sequence() == old(self).spec_next_sequence(),
    {
        if !self.overflowed {
            return false;
        }
        self.overflowed = false;
        self.queue.clear();
        true
    }
}

/// The queue never holds more than its capacity, and never two pending
/// progress events of one task.
pub proof fn lemma_event_queue_bounded<T>(queue: EventQueue<T>, i: int, j: int)
    requires
        queue.wf(),
        0 <= i < j < queue.events().len(),
        queue.events()[i].class == EventClass::Progress,
    ensures
        queue.events().len() <= queue.spec_capacity(),
        !is_progress_of(queue.events()[j], queue.events()[i].task),
{
}

} // verus!
