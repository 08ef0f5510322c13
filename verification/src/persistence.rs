//! Rules for persisted task metadata: bounded timestamps, the task lifecycle
//! graph, canonical URLs, resource identities and validators, completed
//! coverage, checkpoint cadence, and the state consistency a recovered task
//! must satisfy.
use vstd::prelude::*;
use crate::clock::{Duration, NANOS_PER_MILLI, NANOS_PER_SEC};
use crate::filename::{is_control, is_control_char};
use crate::network::{
    EntityTag, ProbeMode, ResourceProbe, Validators, entity_tag_text, etag_parts, format_entity_tag, http_date_seconds, http_scheme,
    https_scheme, is_web_scheme, parse_http_date_seconds, parse_url_parts, url_parts_of, validators_view,
};
use crate::progress::MAX_SAFE_INTEGER;
use crate::storage::{FileRange, IoFailure, StorageError, is_exact_coverage, has_exact_coverage, separated};
use crate::text::{chars_of, same_text, utf8_len, utf8_len_within};

verus! {

/// Current internal task-state format version.
pub const STATE_FORMAT_VERSION: u64 = 3;
/// Maximum bytes accepted for one task-state file.
pub const MAX_STATE_BYTES: usize = 256 * 1024;
/// Maximum canonical completed ranges accepted per task.
pub const MAX_COMPLETED_RANGES: usize = 8_192;
/// Largest accepted URL, in UTF-8 bytes.
pub const MAX_URL_BYTES: usize = 16 * 1024;
/// Worker count of a task created without an explicit choice.
pub const DEFAULT_TASK_WORKERS: u8 = 4;
/// Last millisecond of the year 9999.
pub const MAX_TIMESTAMP_MILLIS: u64 = 253_402_300_799_999;
/// Default minimum interval between routine checkpoints: one second.
pub const DEFAULT_CHECKPOINT_INTERVAL_NANOS: u128 = 1_000_000_000;
/// Shortest accepted routine checkpoint interval: 100 ms.
pub const MIN_CHECKPOINT_INTERVAL_NANOS: u128 = 100_000_000;
/// Longest accepted routine checkpoint interval: 60 s.
pub const MAX_CHECKPOINT_INTERVAL_NANOS: u128 = 60_000_000_000;

/// Validation failures for task metadata and state mutations.
#[derive(Debug, Clone, Copy, PartialEq, Eq, Structural)]
pub enum StateValidationError {
    /// Task identifier is not canonical.
    InvalidTaskId,
    /// Timestamp is out of range or moved backwards.
    InvalidTimestamp,
    /// Revision arithmetic overflowed.
    InvalidRevision,
    /// URL syntax, scheme, user-info, or length bound is invalid.
    InvalidUrl,
    /// Destination is not a bounded absolute ordinary directory path.
    InvalidDestination,
    /// Display/final filename is not already sanitized and bounded.
    InvalidFilename,
    /// Resource mode, size, or final URL is inconsistent.
    InvalidResource,
    /// `ETag` or `Last-Modified` data is malformed.
    InvalidValidator,
    /// Partial file path is not confined to the destination.
    InvalidPartialPath,
    /// Final file path is not confined to the destination.
    InvalidFinalPath,
    /// Completed ranges are malformed, overlapping, adjacent, or out of bounds.
    InvalidCompletedRanges,
    /// Persisted worker selection is not exactly 1, 2, 4, or 8.
    InvalidWorkerCount,
    /// State and stored resource/file data disagree.
    InconsistentState,
    /// Requested lifecycle edge is not allowed.
    InvalidTransition,
}

/// Failure while creating a bytes-first durable progress snapshot.
#[derive(Debug, Clone, Copy, PartialEq, Eq, Structural)]
pub enum TaskUpdateError {
    /// Task metadata or lifecycle is inconsistent.
    State(StateValidationError),
    /// Completed file bytes could not be flushed before metadata capture.
    Storage(StorageError),
}

/// Milliseconds since the Unix epoch, bounded to the year 9999.
#[derive(Debug, Clone, Copy, PartialEq, Eq, PartialOrd, Ord, Structural)]
pub struct TimestampMillis {
    millis: u64,
}

impl TimestampMillis {
    /// The persisted milliseconds.
    pub closed spec fn spec_get(self) -> u64 {
        self.millis
    }

    /// The epoch itself, for nonpersistent event timestamps.
    pub fn unix_epoch() -> (epoch: TimestampMillis)
        ensures
            epoch.spec_get() == 0,
    {
        TimestampMillis { millis: 0 }
    }

    /// A bounded timestamp; values beyond the year 9999 are rejected.
    pub fn new(value: u64) -> (timestamp: Result<TimestampMillis, StateValidationError>)
        ensures
            timestamp is Ok <==> value <= MAX_TIMESTAMP_MILLIS,
            timestamp matches Ok(t) ==> t.spec_get() == value,
            timestamp matches Err(e) ==> e == StateValidationError::InvalidTimestamp,
    {
        if value > MAX_TIMESTAMP_MILLIS {
            return Err(StateValidationError::InvalidTimestamp);
        }
        Ok(TimestampMillis { millis: value })
    }

    /// The timestamp of a clock reading in nanoseconds since the epoch.
    pub fn from_clock_nanos(nanos: u128) -> (timestamp: Result<TimestampMillis, StateValidationError>)
        ensures
            timestamp is Ok <==> nanos / NANOS_PER_MILLI <= MAX_TIMESTAMP_MILLIS,
            timestamp matches Ok(t) ==> t.spec_get() == nanos / NANOS_PER_MILLI,
            timestamp matches Err(e) ==> e == StateValidationError::InvalidTimestamp,
    {
        let millis = nanos / NANOS_PER_MILLI;
        if millis > MAX_TIMESTAMP_MILLIS as u128 {
            return Err(StateValidationError::InvalidTimestamp);
        }
        Self::new(millis as u64)
    }

    /// Captures the current system time; a clock before the epoch or past
    /// the year 9999 is rejected.
    pub fn now() -> (timestamp: Result<TimestampMillis, StateValidationError>)
        ensures
            timestamp matches Ok(t) ==> t.spec_get() <= MAX_TIMESTAMP_MILLIS,
            timestamp matches Err(e) ==> e == StateValidationError::InvalidTimestamp,
    {
        match crate::clock::system_clock_nanos() {
            Some(nanos) => Self::from_clock_nanos(nanos),
            None => Err(StateValidationError::InvalidTimestamp),
        }
    }

    /// Integer milliseconds persisted on disk.
    pub fn get(self) -> (millis: u64)
        ensures
            millis == self.spec_get(),
    {
        self.millis
    }

    /// Whether this timestamp precedes another.
    pub fn is_before(self, other: TimestampMillis) -> (before: bool)
        ensures
            before == (self.spec_get() < other.spec_get()),
    {
        self.millis < other.millis
    }
}

/// Explicit native task lifecycle states, aligned with protocol v2 names.
#[derive(Debug, Clone, Copy, PartialEq, Eq, Structural)]
pub enum TaskState {
    /// Accepted locally but not yet probing.
    Queued,
    /// Characterizing the HTTP resource.
    Probing,
    /// Network workers may write validated bytes.
    Downloading,
    /// No worker may write; completed coverage remains recoverable.
    Paused,
    /// Exact coverage/size/checksum validation is in progress.
    Validating,
    /// Atomic final publication is in progress.
    Promoting,
    /// Final publication succeeded.
    Completed,
    /// A fatal operation failed; explicit retry may requeue.
    Failed,
    /// User cancellation reached a safe checkpoint.
    Cancelled,
}

/// States no ordinary forward transfer transition leaves.
pub open spec fn terminal(state: TaskState) -> bool {
    state == TaskState::Completed || state == TaskState::Failed || state == TaskState::Cancelled
}

/// The accepted lifecycle graph.
pub open spec fn edge(from: TaskState, to: TaskState) -> bool {
    match (from, to) {
        (TaskState::Queued, TaskState::Probing) => true,
        (TaskState::Probing, TaskState::Downloading) | (TaskState::Paused, TaskState::Downloading) => true,
        (TaskState::Downloading, TaskState::Paused) | (TaskState::Downloading, TaskState::Validating) => true,
        (TaskState::Validating, TaskState::Promoting) => true,
        (TaskState::Promoting, TaskState::Completed) | (TaskState::Promoting, TaskState::Failed) => true,
        (TaskState::Failed, TaskState::Queued) => true,
        (TaskState::Queued, TaskState::Failed) | (TaskState::Queued, TaskState::Cancelled) => true,
        (TaskState::Probing, TaskState::Failed) | (TaskState::Probing, TaskState::Cancelled) => true,
        (TaskState::Downloading, TaskState::Failed) | (TaskState::Downloading, TaskState::Cancelled) => true,
        (TaskState::Paused, TaskState::Failed) | (TaskState::Paused, TaskState::Cancelled) => true,
        (TaskState::Validating, TaskState::Failed) | (TaskState::Validating, TaskState::Cancelled) => true,
        _ => false,
    }
}

impl TaskState {
    /// Whether no ordinary forward transfer transition leaves this state.
    pub fn is_terminal(self) -> (done: bool)
        ensures
            done == terminal(self),
    {
        match self {
            TaskState::Completed | TaskState::Failed | TaskState::Cancelled => true,
            _ => false,
        }
    }

    /// Whether this exact transition is part of the accepted lifecycle graph.
    pub fn allows(self, next: TaskState) -> (allowed: bool)
        ensures
            allowed == edge(self, next),
    {
        match (self, next) {
            (TaskState::Queued, TaskState::Probing) => true,
            (TaskState::Probing, TaskState::Downloading) | (TaskState::Paused, TaskState::Downloading) => true,
            (TaskState::Downloading, TaskState::Paused) | (TaskState::Downloading, TaskState::Validating) => true,
            (TaskState::Validating, TaskState::Promoting) => true,
            (TaskState::Promoting, TaskState::Completed) | (TaskState::Promoting, TaskState::Failed) => true,
            (TaskState::Failed, TaskState::Queued) => true,
            (TaskState::Queued, TaskState::Failed) | (TaskState::Queued, TaskState::Cancelled) => true,
            (TaskState::Probing, TaskState::Failed) | (TaskState::Probing, TaskState::Cancelled) => true,
            (TaskState::Downloading, TaskState::Failed) | (TaskState::Downloading, TaskState::Cancelled) => true,
            (TaskState::Paused, TaskState::Failed) | (TaskState::Paused, TaskState::Cancelled) => true,
            (TaskState::Validating, TaskState::Failed) | (TaskState::Validating, TaskState::Cancelled) => true,
            _ => false,
        }
    }
}

/// The only way out of a terminal state is an explicit retry of a failed
/// task back to the queue.
pub proof fn lemma_terminal_states_are_final(from: TaskState, to: TaskState)
    requires
        terminal(from),
        edge(from, to),
    ensures
        from == TaskState::Failed && to == TaskState::Queued,
{
}

/// A task completes only through promotion, is promoted only after
/// validation, and is validated only after downloading.
pub proof fn lemma_completion_requires_validation(from: TaskState)
    ensures
        edge(from, TaskState::Completed) <==> from == TaskState::Promoting,
        edge(from, TaskState::Promoting) <==> from == TaskState::Validating,
        edge(from, TaskState::Validating) <==> from == TaskState::Downloading,
{
}

/// Every state that has not finished can be cancelled, except promotion,
/// which only completes or fails; no state moves to itself.
pub proof fn lemma_cancellation_reachability(state: TaskState)
    ensures
        edge(state, TaskState::Cancelled) <==> (!terminal(state) && state != TaskState::Promoting),
        !edge(state, state),
{
}

/// Persisted transfer strategy.
#[derive(Debug, Clone, Copy, PartialEq, Eq, Structural)]
pub enum TransferMode {
    /// Probe has not selected a mode.
    Pending,
    /// One sequential response owns all bytes.
    Single,
    /// Multiple exact ranged responses may own disjoint assignments.
    Segmented,
}

/// Worker selections a task may persist.
pub open spec fn valid_worker_count(workers: u8) -> bool {
    workers == 1 || workers == 2 || workers == 4 || workers == 8
}

/// Rejects worker counts other than 1, 2, 4 or 8.
pub fn validate_worker_count(workers: u8) -> (result: Result<(), StateValidationError>)
    ensures
        result is Ok <==> valid_worker_count(workers),
        result matches Err(e) ==> e == StateValidationError::InvalidWorkerCount,
{
    if workers == 1 || workers == 2 || workers == 4 || workers == 8 {
        Ok(())
    } else {
        Err(StateValidationError::InvalidWorkerCount)
    }
}

} // verus!

verus! {

/// Completed coverage a task may persist: at most 8,192 non-empty ranges,
/// ordered with gaps between them, inside the resource when its size is known.
pub open spec fn valid_completed_ranges(ranges: Seq<FileRange>, expected_size: Option<u64>) -> bool {
    &&& ranges.len() <= MAX_COMPLETED_RANGES
    &&& separated(ranges)
    &&& forall|i: int| 0 <= i < ranges.len() ==> (#[trigger] ranges[i]).wf()
    &&& (expected_size matches Some(size) ==> forall|i: int| 0 <= i < ranges.len() ==> (#[trigger] ranges[i]).end <= size)
}

/// Checks persisted completed coverage (see [`valid_completed_ranges`]).
pub fn validate_completed_ranges(ranges: &[FileRange], expected_size: Option<u64>) -> (result: Result<(), StateValidationError>)
    requires
        forall|i: int| 0 <= i < ranges@.len() ==> (#[trigger] ranges@[i]).wf(),
    ensures
        result is Ok <==> valid_completed_ranges(ranges@, expected_size),
        result matches Err(e) ==> e == StateValidationError::InvalidCompletedRanges,
{
    if ranges.len() > MAX_COMPLETED_RANGES {
        return Err(StateValidationError::InvalidCompletedRanges);
    }
    let limit = match expected_size {
        Some(size) => size,
        None => u64::MAX,
    };
    match crate::storage::validate_recovered_coverage(ranges, limit) {
        Ok(()) => Ok(()),
        Err(_) => Err(StateValidationError::InvalidCompletedRanges),
    }
}

/// The canonical form of a task URL: at most [`MAX_URL_BYTES`] UTF-8 bytes
/// before and after normalization, HTTP(S), no user information, no
/// fragment.
pub open spec fn normalized_url_of(value: Seq<char>) -> Option<Seq<char>> {
    if utf8_len(value) > MAX_URL_BYTES {
        None
    } else {
        match url_parts_of(value) {
            None => None,
            Some((scheme, username, has_password, without_fragment)) =>
                if !(scheme == http_scheme() || scheme == https_scheme()) || username.len() > 0 || has_password
                    || utf8_len(without_fragment) > MAX_URL_BYTES {
                    None
                } else {
                    Some(without_fragment)
                },
        }
    }
}

/// Normalizes a task URL (see [`normalized_url_of`]).
pub fn normalize_url(value: &str) -> (url: Result<String, StateValidationError>)
    ensures
        url is Ok <==> normalized_url_of(value@) is Some,
        url matches Ok(u) ==> normalized_url_of(value@) == Some(u@),
        url matches Err(e) ==> e == StateValidationError::InvalidUrl,
{
    let chars = chars_of(value);
    if utf8_len_within(chars.as_slice(), MAX_URL_BYTES).is_none() {
        return Err(StateValidationError::InvalidUrl);
    }
    let (scheme, username, has_password, normalized) = match parse_url_parts(value) {
        Some(parts) => parts,
        None => return Err(StateValidationError::InvalidUrl),
    };
    if !is_web_scheme(scheme.as_str()) || username.as_str().unicode_len() > 0 || has_password {
        return Err(StateValidationError::InvalidUrl);
    }
    let normalized_chars = chars_of(normalized.as_str());
    if utf8_len_within(normalized_chars.as_slice(), MAX_URL_BYTES).is_none() {
        return Err(StateValidationError::InvalidUrl);
    }
    Ok(normalized)
}

/// Accepts only a URL already in canonical form.
pub fn require_canonical_url(value: &str) -> (url: Result<String, StateValidationError>)
    ensures
        url is Ok <==> normalized_url_of(value@) == Some(value@),
        url matches Ok(u) ==> u@ == value@,
        url matches Err(e) ==> e == StateValidationError::InvalidUrl,
{
    let normalized = match normalize_url(value) {
        Ok(u) => u,
        Err(e) => return Err(e),
    };
    let a = chars_of(normalized.as_str());
    let b = chars_of(value);
    if !crate::filename::same_chars(a.as_slice(), b.as_slice()) {
        return Err(StateValidationError::InvalidUrl);
    }
    Ok(normalized)
}

/// Persisted validators: an entity tag whose header text is at most 8 KiB
/// and parses back, and a `Last-Modified` of at most 128 UTF-8 bytes that is
/// a valid HTTP date without control characters.
pub open spec fn valid_validators(validators: (Option<(bool, Seq<char>)>, Option<Seq<char>>)) -> bool {
    &&& (validators.0 matches Some((weak, opaque)) ==> utf8_len(entity_tag_text(weak, opaque)) <= 8 * 1024
        && etag_parts(entity_tag_text(weak, opaque)) is Some)
    &&& (validators.1 matches Some(date) ==> utf8_len(date) <= 128 && http_date_seconds(date) is Some
        && forall|i: int| 0 <= i < date.len() ==> !is_control_char(#[trigger] date[i]))
}

/// Checks validators before they are persisted (see [`valid_validators`]).
#[verifier::loop_isolation(false)]
pub fn validate_validators(validators: &Validators) -> (result: Result<(), StateValidationError>)
    ensures
        result is Ok <==> valid_validators(validators_view(*validators)),
        result matches Err(e) ==> e == StateValidationError::InvalidValidator,
{
    if let Some(tag) = &validators.etag {
        let formatted = format_entity_tag(tag);
        let chars = chars_of(formatted.as_str());
        if utf8_len_within(chars.as_slice(), 8 * 1024).is_none() {
            return Err(StateValidationError::InvalidValidator);
        }
        if EntityTag::parse(formatted.as_str()).is_err() {
            return Err(StateValidationError::InvalidValidator);
        }
    }
    if let Some(date) = &validators.last_modified {
        let chars = chars_of(date.as_str());
        if utf8_len_within(chars.as_slice(), 128).is_none() {
            return Err(StateValidationError::InvalidValidator);
        }
        if parse_http_date_seconds(date.as_str()).is_none() {
            return Err(StateValidationError::InvalidValidator);
        }
        let mut k: usize = 0;
        while k < chars.len()
            invariant
                chars@ == date@,
                0 <= k <= chars@.len(),
                forall|i: int| 0 <= i < k ==> !is_control_char(#[trigger] chars@[i]),
            decreases chars@.len() - k,
        {
            if is_control(chars[k]) {
                return Err(StateValidationError::InvalidValidator);
            }
            k += 1;
        }
    }
    Ok(())
}

/// Resource identity retained for strict resume validation.
#[derive(Clone, PartialEq, Eq)]
pub struct ResourceIdentity {
    final_url: String,
    expected_size: Option<u64>,
    validators: Validators,
    transfer_mode: TransferMode,
}

/// An acceptable resource identity: a canonical final URL, valid validators,
/// a selected mode, a size within JavaScript's safe integers, and a known
/// non-zero size for segmented transfers. The value is the canonical URL.
pub open spec fn resource_identity_of(
    final_url: Seq<char>,
    expected_size: Option<u64>,
    validators: (Option<(bool, Seq<char>)>, Option<Seq<char>>),
    mode: TransferMode,
) -> Result<Seq<char>, StateValidationError> {
    match normalized_url_of(final_url) {
        None => Err(StateValidationError::InvalidUrl),
        Some(url) => if !valid_validators(validators) {
            Err(StateValidationError::InvalidValidator)
        } else if mode == TransferMode::Pending
            || (expected_size matches Some(size) && size > MAX_SAFE_INTEGER)
            || (mode == TransferMode::Segmented && (expected_size is None || expected_size == Some(0u64))) {
            Err(StateValidationError::InvalidResource)
        } else {
            Ok(url)
        },
    }
}

/// The transfer mode a probe selects: segmented when ranges were proven,
/// a single stream otherwise.
pub open spec fn probe_transfer_mode(mode: ProbeMode) -> TransferMode {
    match mode {
        ProbeMode::Segmented => TransferMode::Segmented,
        _ => TransferMode::Single,
    }
}

impl ResourceIdentity {
    pub closed spec fn spec_final_url(&self) -> Seq<char> {
        self.final_url@
    }

    pub closed spec fn spec_expected_size(&self) -> Option<u64> {
        self.expected_size
    }

    pub closed spec fn spec_validators(&self) -> Validators {
        self.validators
    }

    pub closed spec fn spec_transfer_mode(&self) -> TransferMode {
        self.transfer_mode
    }

    /// Creates a validated resumable resource identity (see
    /// [`resource_identity_of`]).
    pub fn new(final_url: &str, expected_size: Option<u64>, validators: Validators, transfer_mode: TransferMode)
        -> (identity: Result<ResourceIdentity, StateValidationError>)
        ensures
            identity is Ok <==> resource_identity_of(final_url@, expected_size, validators_view(validators), transfer_mode) is Ok,
            identity matches Ok(r) ==> resource_identity_of(final_url@, expected_size, validators_view(validators), transfer_mode)
                    == Ok::<Seq<char>, StateValidationError>(r.spec_final_url())
                && r.spec_expected_size() == expected_size && r.spec_validators() == validators
                && r.spec_transfer_mode() == transfer_mode,
            identity matches Err(e) ==> resource_identity_of(final_url@, expected_size, validators_view(validators), transfer_mode)
                == Err::<Seq<char>, StateValidationError>(e),
    {
        let final_url = match normalize_url(final_url) {
            Ok(url) => url,
            Err(e) => return Err(e),
        };
        match validate_validators(&validators) {
            Ok(()) => {}
            Err(e) => return Err(e),
        }
        let oversized = match expected_size {
            Some(size) => size > MAX_SAFE_INTEGER,
            None => false,
        };
        let segmented_unknown = transfer_mode == TransferMode::Segmented && match expected_size {
            Some(size) => size == 0,
            None => true,
        };
        if transfer_mode == TransferMode::Pending || oversized || segmented_unknown {
            return Err(StateValidationError::InvalidResource);
        }
        Ok(ResourceIdentity { final_url, expected_size, validators, transfer_mode })
    }

    /// The identity a validated probe establishes: its final URL, size and
    /// validators, in segmented mode when it proved ranges and as a single
    /// stream otherwise (see [`resource_identity_of`]).
    pub fn from_probe(probe: &ResourceProbe) -> (identity: Result<ResourceIdentity, StateValidationError>)
        ensures
            identity is Ok <==> resource_identity_of(probe.spec_final_url(), probe.spec_size(), validators_view(
                probe.spec_validators(),
            ), probe_transfer_mode(probe.spec_mode())) is Ok,
            identity matches Ok(r) ==> r.spec_final_url() == resource_identity_of(probe.spec_final_url(), probe.spec_size(),
                validators_view(probe.spec_validators()), probe_transfer_mode(probe.spec_mode()))->Ok_0
                && r.spec_expected_size() == probe.spec_size() && r.spec_validators() == probe.spec_validators()
                && r.spec_transfer_mode() == probe_transfer_mode(probe.spec_mode()),
            identity matches Err(e) ==> resource_identity_of(probe.spec_final_url(), probe.spec_size(), validators_view(
                probe.spec_validators(),
            ), probe_transfer_mode(probe.spec_mode())) == Err::<Seq<char>, StateValidationError>(e),
    {
        let mode = match probe.mode() {
            ProbeMode::Segmented => TransferMode::Segmented,
            ProbeMode::SingleStream(_) | ProbeMode::Empty => TransferMode::Single,
        };
        ResourceIdentity::new(probe.final_url(), probe.size(), probe.validators().clone(), mode)
    }

    /// Final URL after accepted redirects. This exact value can be sensitive.
    pub fn final_url(&self) -> (url: &str)
        ensures
            url@ == self.spec_final_url(),
    {
        self.final_url.as_str()
    }

    /// Validated resource size, if known.
    pub fn expected_size(&self) -> (size: Option<u64>)
        ensures
            size == self.spec_expected_size(),
    {
        self.expected_size
    }

    /// HTTP validators retained for future range/resume checks.
    pub fn validators(&self) -> (validators: &Validators)
        ensures
            *validators == self.spec_validators(),
    {
        &self.validators
    }

    /// Records the length an unknown-length stream turned out to have.
    pub(crate) fn set_expected_size(&mut self, size: u64)
        ensures
            final(self).spec_expected_size() == Some(size),
            final(self).spec_final_url() == old(self).spec_final_url(),
            final(self).spec_validators() == old(self).spec_validators(),
            final(self).spec_transfer_mode() == old(self).spec_transfer_mode(),
    {
        self.expected_size = Some(size);
    }

    /// Selected transfer strategy.
    pub fn transfer_mode(&self) -> (mode: TransferMode)
        ensures
            mode == self.spec_transfer_mode(),
    {
        self.transfer_mode
    }
}

} // verus!

verus! {

/// Routine versus immediate metadata persistence.
#[derive(Debug, Clone, Copy, PartialEq, Eq, Structural)]
pub enum CheckpointUrgency {
    /// Progress-only update subject to the configured maximum frequency.
    Progress,
    /// Creation, state transition, shutdown, or other durability boundary.
    Critical,
}

/// Result of a checkpoint request.
#[derive(Debug, Clone, Copy, PartialEq, Eq, Structural)]
pub enum CheckpointOutcome {
    /// A complete state file was flushed and atomically installed.
    Written,
    /// The same revision was already durable.
    Unchanged,
    /// A progress revision remains dirty until the minimum interval elapses.
    Deferred,
}

/// Filesystem operation associated with persistence I/O.
#[derive(Debug, Clone, Copy, PartialEq, Eq, Structural)]
pub enum PersistenceOperation {
    /// Create or inspect the state root.
    OpenStore,
    /// Enumerate task records.
    ListState,
    /// Read one task record.
    ReadState,
    /// Write and flush a temporary record.
    WriteState,
    /// Atomically replace a task record.
    ReplaceState,
    /// Remove a state or explicitly selected partial file.
    Cleanup,
}

impl PersistenceOperation {
    /// Path-free operation name used in failure text.
    pub fn describe(&self) -> (text: &'static str)
        ensures
            text@ == match *self {
                PersistenceOperation::OpenStore => "open state store"@,
                PersistenceOperation::ListState => "list task state"@,
                PersistenceOperation::ReadState => "read task state"@,
                PersistenceOperation::WriteState => "write task state"@,
                PersistenceOperation::ReplaceState => "replace task state"@,
                PersistenceOperation::Cleanup => "clean task state"@,
            },
    {
        match self {
            PersistenceOperation::OpenStore => "open state store",
            PersistenceOperation::ListState => "list task state",
            PersistenceOperation::ReadState => "read task state",
            PersistenceOperation::WriteState => "write task state",
            PersistenceOperation::ReplaceState => "replace task state",
            PersistenceOperation::Cleanup => "clean task state",
        }
    }
}

/// Persistence operation failure without sensitive paths or JSON text.
#[derive(Debug, Clone, Copy, PartialEq, Eq, Structural)]
pub enum PersistenceError {
    /// The configured routine checkpoint cadence is unsafe.
    InvalidCheckpointPolicy,
    /// Another helper process owns the state directory.
    StoreLocked,
    /// A reserved state-store entry has an unsafe type or changed identity.
    UnsafeStoreLayout,
    /// Task metadata failed semantic validation.
    InvalidTask(StateValidationError),
    /// Caller attempted to replace a newer durable revision.
    StaleRevision,
    /// Existing durable state is malformed or incompatible and is preserved.
    ExistingStateInvalid,
    /// Serialized state exceeded the per-task bound.
    StateTooLarge,
    /// JSON serialization failed without exposing its input.
    Serialization,
    /// State directory contains more records than the recovery bound.
    TooManyTaskFiles,
    /// Cleanup applies only to terminal tasks.
    CleanupRequiresTerminal,
    /// Classified path-free filesystem failure.
    Io { operation: PersistenceOperation, failure: IoFailure, os_code: Option<i32> },
}

/// Why one state file was excluded from recovery.
#[derive(Debug, Clone, Copy, PartialEq, Eq, Structural)]
pub enum LoadFailureReason {
    /// Filename is not a canonical task UUID.
    InvalidFilename,
    /// Entry is a link, directory, reparse point, or other unsafe type.
    UnsafeFileType,
    /// File exceeded [`MAX_STATE_BYTES`].
    TooLarge,
    /// JSON was malformed, duplicated a field, or had unknown/missing fields.
    Malformed,
    /// Top-level format marker was not recognized.
    UnknownFormat,
    /// A future or unsupported internal schema version was found.
    IncompatibleVersion { found: u64 },
    /// A valid legacy record could not be rewritten atomically.
    MigrationFailed,
    /// Filename and record task IDs conflict.
    TaskIdMismatch,
    /// Typed task data violated a semantic invariant.
    InvalidTask(StateValidationError),
    /// Persisted destination is absent, replaced, or no longer an ordinary directory.
    DestinationUnavailable,
    /// A resumable partial file is absent.
    PartialMissing,
    /// A partial path resolves to an unsafe file type.
    UnsafePartial,
    /// Partial length conflicts with expected resource size.
    PartialLengthMismatch { expected: u64, actual: u64 },
    /// A recorded published final file is absent.
    FinalMissing,
    /// A recorded final path resolves to an unsafe file type.
    UnsafeFinal,
    /// Final length conflicts with expected resource size.
    FinalLengthMismatch { expected: u64, actual: u64 },
    /// Persisted partial and final paths do not identify the same file.
    PublicationIdentityMismatch,
    /// Final-file or hard-link identity inspection failed.
    FinalInspectionFailed(IoFailure),
    /// Reading this bounded record failed.
    ReadFailed(IoFailure),
}

/// Explicit treatment of a terminal task's partial file.
#[derive(Debug, Clone, Copy, PartialEq, Eq, Structural)]
pub enum PartialCleanup {
    /// Keep a retained partial and its metadata for later user action.
    Keep,
    /// Delete a confined ordinary partial, then remove task metadata.
    Delete,
}

/// Result of explicit terminal cleanup.
#[derive(Debug, Clone, Copy, PartialEq, Eq, Structural)]
pub enum CleanupOutcome {
    /// Task metadata and any selected partial were removed.
    Removed,
    /// Metadata remains because a partial was retained for user action.
    PartialRetained,
}

/// Bounded routine checkpoint cadence.
#[derive(Debug, Clone, Copy, PartialEq, Eq, Structural)]
pub struct CheckpointPolicy {
    minimum_interval: Duration,
}

impl CheckpointPolicy {
    pub closed spec fn spec_minimum_interval(self) -> Duration {
        self.minimum_interval
    }

    /// A policy between 100 ms and 60 s inclusive; anything else would allow
    /// unbounded write frequency or defer routine state too long.
    pub fn new(minimum_interval: Duration) -> (policy: Result<CheckpointPolicy, PersistenceError>)
        ensures
            policy is Ok <==> MIN_CHECKPOINT_INTERVAL_NANOS <= minimum_interval.nanos <= MAX_CHECKPOINT_INTERVAL_NANOS,
            policy matches Ok(p) ==> p.spec_minimum_interval() == minimum_interval,
            policy matches Err(e) ==> e == PersistenceError::InvalidCheckpointPolicy,
    {
        if minimum_interval.nanos < MIN_CHECKPOINT_INTERVAL_NANOS || minimum_interval.nanos > MAX_CHECKPOINT_INTERVAL_NANOS {
            return Err(PersistenceError::InvalidCheckpointPolicy);
        }
        Ok(CheckpointPolicy { minimum_interval })
    }

    /// Configured minimum interval between routine writes for one task.
    pub fn minimum_interval(self) -> (interval: Duration)
        ensures
            interval == self.spec_minimum_interval(),
    {
        self.minimum_interval
    }

    /// Whether a routine progress checkpoint may be written now, given how
    /// long ago the last one was written.
    pub fn progress_due(self, since_last: Duration) -> (due: bool)
        ensures
            due == (since_last.nanos >= self.spec_minimum_interval().nanos),
    {
        since_last.nanos >= self.minimum_interval.nanos
    }
}

impl Default for CheckpointPolicy {
    fn default() -> (policy: Self)
        ensures
            policy.spec_minimum_interval().nanos == DEFAULT_CHECKPOINT_INTERVAL_NANOS,
    {
        CheckpointPolicy { minimum_interval: Duration { nanos: DEFAULT_CHECKPOINT_INTERVAL_NANOS } }
    }
}

/// A lowercase hexadecimal digit.
pub open spec fn is_lower_hex(c: char) -> bool {
    ('0' <= c <= '9') || ('a' <= c <= 'f')
}

/// Whether every character is a lowercase hexadecimal digit.
pub open spec fn all_lower_hex(s: Seq<char>) -> bool {
    forall|i: int| 0 <= i < s.len() ==> is_lower_hex(#[trigger] s[i])
}

/// The suffix of a temporary state file: `PROCESS-SEQUENCE-ATTEMPT` in
/// lowercase hexadecimal, with 1 to 8, exactly 16 and exactly 2 digits.
pub open spec fn is_temporary_suffix_text(value: Seq<char>) -> bool {
    exists|a: int, b: int| 0 <= a < b < value.len() && value[a] == '-' && value[b] == '-' && #[trigger] temporary_parts(value, a, b)
}

/// The three dash-separated parts at dash positions `a < b` have the
/// temporary-file shape, and no other dash occurs.
pub open spec fn temporary_parts(value: Seq<char>, a: int, b: int) -> bool {
    let process = value.take(a);
    let sequence = value.subrange(a + 1, b);
    let attempt = value.skip(b + 1);
    &&& 1 <= process.len() <= 8
    &&& sequence.len() == 16
    &&& attempt.len() == 2
    &&& all_lower_hex(process)
    &&& all_lower_hex(sequence)
    &&& all_lower_hex(attempt)
}

fn lower_hex_run(s: &[char], from: usize, to: usize) -> (hex: bool)
    requires
        from <= to <= s@.len(),
    ensures
        hex == all_lower_hex(s@.subrange(from as int, to as int)),
{
    let mut k: usize = from;
    while k < to
        invariant
            from <= k <= to <= s@.len(),
            forall|i: int| from <= i < k ==> is_lower_hex(#[trigger] s@[i]),
        decreases to - k,
    {
        let c = s[k];
        if !(('0' <= c && c <= '9') || ('a' <= c && c <= 'f')) {
            assert(s@.subrange(from as int, to as int)[k - from] == c);
            return false;
        }
        k += 1;
    }
    assert forall|i: int| 0 <= i < s@.subrange(from as int, to as int).len()
        implies is_lower_hex(#[trigger] s@.subrange(from as int, to as int)[i]) by {
        assert(s@.subrange(from as int, to as int)[i] == s@[from + i]);
    }
    true
}

/// Whether text after a temporary-file marker has the expected shape (see
/// [`is_temporary_suffix_text`]).
pub fn is_temporary_suffix(value: &str) -> (temporary: bool)
    ensures
        temporary == is_temporary_suffix_text(value@),
{
    let s = chars_of(value);
    let n = s.len();
    if n != 0 && n < 21 {
        proof {
            assert forall|a: int, b: int| 0 <= a < b < s@.len() && s@[a] == '-' && s@[b] == '-'
                implies !#[trigger] temporary_parts(s@, a, b) by {}
        }
        return false;
    }
    let mut dashes: Vec<usize> = Vec::new();
    let mut k: usize = 0;
    while k < n
        invariant
            n == s@.len(),
            0 <= k <= n,
            dashes@.len() <= 3,
            forall|i: int| 0 <= i < dashes@.len() ==> #[trigger] dashes@[i] < k && s@[dashes@[i] as int] == '-',
            forall|i: int, j: int| 0 <= i < j < dashes@.len() ==> #[trigger] dashes@[i] < #[trigger] dashes@[j],
            dashes@.len() < 3 ==> forall|p: int| 0 <= p < k && s@[p] == '-' ==> exists|i: int| 0 <= i < dashes@.len() && #[trigger] dashes@[i] == p,
        decreases n - k,
    {
        let ghost before = dashes@;
        if s[k] == '-' && dashes.len() < 3 {
            dashes.push(k);
        }
        proof {
            if dashes@.len() < 3 {
                assert forall|p: int| 0 <= p < k + 1 && s@[p] == '-' implies exists|i: int| 0 <= i < dashes@.len() && #[trigger] dashes@[i] == p by {
                    if p < k {
                        let i = choose|i: int| 0 <= i < before.len() && #[trigger] before[i] == p;
                        assert(dashes@[i] == p);
                    } else {
                        assert(dashes@[dashes@.len() - 1] == p);
                    }
                }
            }
        }
        k += 1;
    }
    if dashes.len() != 2 {
        proof {
            assert forall|a: int, b: int| 0 <= a < b < s@.len() && s@[a] == '-' && s@[b] == '-'
                implies !#[trigger] temporary_parts(s@, a, b) by {
                if dashes@.len() < 2 {
                    let ia = choose|i: int| 0 <= i < dashes@.len() && #[trigger] dashes@[i] == a;
                    let ib = choose|i: int| 0 <= i < dashes@.len() && #[trigger] dashes@[i] == b;
                } else {
                    let d = dashes@[2] as int;
                    if temporary_parts(s@, a, b) {
                        if d < a {
                            assert(s@.take(a)[d] == '-');
                        } else if a < d && d < b {
                            assert(s@.subrange(a + 1, b)[d - a - 1] == '-');
                        } else if d > b {
                            assert(s@.skip(b + 1)[d - b - 1] == '-');
                        } else if d == a {
                            let d0 = dashes@[0] as int;
                            assert(s@.take(a)[d0] == '-');
                        } else {
                            let d1 = dashes@[1] as int;
                            let d0 = dashes@[0] as int;
                            if d0 < a {
                                assert(s@.take(a)[d0] == '-');
                            } else {
                                assert(s@.subrange(a + 1, b)[d1 - a - 1] == '-');
                            }
                        }
                    }
                }
            }
        }
        return false;
    }
    let a = dashes[0];
    let b = dashes[1];
    let process_ok = 1 <= a && a <= 8 && lower_hex_run(s.as_slice(), 0, a);
    let sequence_ok = b - a - 1 == 16 && lower_hex_run(s.as_slice(), a + 1, b);
    let attempt_ok = n - b - 1 == 2 && lower_hex_run(s.as_slice(), b + 1, n);
    proof {
        assert(s@.subrange(0, a as int) =~= s@.take(a as int));
        assert(s@.subrange(b + 1, n as int) =~= s@.skip(b + 1));
        assert forall|x: int, y: int| 0 <= x < y < s@.len() && s@[x] == '-' && s@[y] == '-' && #[trigger] temporary_parts(s@, x, y)
            implies x == a && y == b by {
            let ix = choose|i: int| 0 <= i < dashes@.len() && #[trigger] dashes@[i] == x;
            let iy = choose|i: int| 0 <= i < dashes@.len() && #[trigger] dashes@[i] == y;
        }
        if process_ok && sequence_ok && attempt_ok {
            assert(temporary_parts(s@, a as int, b as int));
        }
    }
    process_ok && sequence_ok && attempt_ok
}

} // verus!

verus! {

/// How a task's lifecycle state must agree with its resource, partial and
/// final files, and completed coverage.
pub open spec fn state_consistency(
    state: TaskState,
    resource: Option<(Option<u64>, TransferMode)>,
    has_partial: bool,
    has_final: bool,
    completed: Seq<FileRange>,
) -> Result<(), StateValidationError> {
    if resource is None && (has_partial || has_final || completed.len() > 0) {
        Err(StateValidationError::InconsistentState)
    } else if (resource matches Some((size, mode)) && size is None
        && (mode != TransferMode::Single || has_final || completed.len() > 0)) {
        Err(StateValidationError::InconsistentState)
    } else if (state == TaskState::Downloading || state == TaskState::Paused) && (resource is None || !has_partial) {
        Err(StateValidationError::InconsistentState)
    } else if state == TaskState::Validating || state == TaskState::Promoting || state == TaskState::Completed {
        match resource {
            Some((Some(size), _)) => if !is_exact_coverage(completed, size as int) {
                Err(StateValidationError::InconsistentState)
            } else if state == TaskState::Validating && !has_partial {
                Err(StateValidationError::InconsistentState)
            } else if state == TaskState::Promoting && !has_partial && !has_final {
                Err(StateValidationError::InconsistentState)
            } else if state == TaskState::Completed && !has_final {
                Err(StateValidationError::InconsistentState)
            } else if has_final && !(state == TaskState::Promoting || state == TaskState::Completed) {
                Err(StateValidationError::InconsistentState)
            } else {
                Ok(())
            },
            _ => Err(StateValidationError::InconsistentState),
        }
    } else if has_final {
        Err(StateValidationError::InconsistentState)
    } else {
        Ok(())
    }
}

/// Everything a persisted task must satisfy, checked in order: revision and
/// timestamps, worker count, canonical original URL, destination syntax,
/// already-sanitized display name, a valid resource identity, confined
/// partial and final paths, valid completed coverage, and lifecycle
/// consistency. The path checks are given by their outcomes.
pub open spec fn task_check(
    revision: u64,
    created_at: u64,
    updated_at: u64,
    workers: u8,
    original_url: Seq<char>,
    destination_check: Result<(), StateValidationError>,
    display_name: Seq<char>,
    resource: Option<ResourceIdentity>,
    partial_check: Option<Result<(), StateValidationError>>,
    final_check: Option<Result<(), StateValidationError>>,
    completed: Seq<FileRange>,
    state: TaskState,
) -> Result<(), StateValidationError> {
    let expected_size = match resource { Some(r) => r.spec_expected_size(), None => None };
    if revision == 0 || updated_at < created_at {
        Err(StateValidationError::InvalidRevision)
    } else if !valid_worker_count(workers) {
        Err(StateValidationError::InvalidWorkerCount)
    } else if normalized_url_of(original_url) != Some(original_url) {
        Err(StateValidationError::InvalidUrl)
    } else if destination_check is Err {
        Err(StateValidationError::InvalidDestination)
    } else if crate::filename::sanitized(display_name) != display_name {
        Err(StateValidationError::InvalidFilename)
    } else if (resource matches Some(r) && resource_identity_of(r.spec_final_url(), r.spec_expected_size(),
        validators_view(r.spec_validators()), r.spec_transfer_mode()) is Err) {
        Err(resource_identity_of(resource->Some_0.spec_final_url(), resource->Some_0.spec_expected_size(),
            validators_view(resource->Some_0.spec_validators()), resource->Some_0.spec_transfer_mode())->Err_0)
    } else if (partial_check matches Some(Err(_))) {
        Err(StateValidationError::InvalidPartialPath)
    } else if (final_check matches Some(Err(_))) {
        Err(StateValidationError::InvalidFinalPath)
    } else if !valid_completed_ranges(completed, expected_size) {
        Err(StateValidationError::InvalidCompletedRanges)
    } else {
        state_consistency(
            state,
            match resource { Some(r) => Some((r.spec_expected_size(), r.spec_transfer_mode())), None => None },
            partial_check is Some,
            final_check is Some,
            completed,
        )
    }
}

/// Checks a task's persisted fields (see [`task_check`]).
pub fn validate_task(
    revision: u64,
    created_at: TimestampMillis,
    updated_at: TimestampMillis,
    workers: u8,
    original_url: &str,
    destination_check: Result<(), StateValidationError>,
    display_name: &str,
    resource: &Option<ResourceIdentity>,
    partial_check: Option<Result<(), StateValidationError>>,
    final_check: Option<Result<(), StateValidationError>>,
    completed: &[FileRange],
    state: TaskState,
) -> (result: Result<(), StateValidationError>)
    requires
        forall|i: int| 0 <= i < completed@.len() ==> (#[trigger] completed@[i]).wf(),
    ensures
        result == task_check(revision, created_at.spec_get(), updated_at.spec_get(), workers, original_url@,
            destination_check, display_name@, *resource, partial_check, final_check, completed@, state),
{
    if revision == 0 || updated_at.is_before(created_at) {
        return Err(StateValidationError::InvalidRevision);
    }
    match validate_worker_count(workers) {
        Ok(()) => {}
        Err(e) => return Err(e),
    }
    match require_canonical_url(original_url) {
        Ok(_) => {}
        Err(e) => return Err(e),
    }
    if destination_check.is_err() {
        return Err(StateValidationError::InvalidDestination);
    }
    let sanitized = crate::filename::sanitize_filename(display_name);
    let a = chars_of(sanitized.as_str());
    let b = chars_of(display_name);
    if !crate::filename::same_chars(a.as_slice(), b.as_slice()) {
        return Err(StateValidationError::InvalidFilename);
    }
    let expected_size = match resource {
        Some(r) => {
            match ResourceIdentity::new(r.final_url(), r.expected_size(), r.validators().clone(), r.transfer_mode()) {
                Ok(_) => {}
                Err(e) => return Err(e),
            }
            r.expected_size()
        }
        None => None,
    };
    if let Some(Err(_)) = partial_check {
        return Err(StateValidationError::InvalidPartialPath);
    }
    if let Some(Err(_)) = final_check {
        return Err(StateValidationError::InvalidFinalPath);
    }
    match validate_completed_ranges(completed, expected_size) {
        Ok(()) => {}
        Err(e) => return Err(e),
    }
    let shape = match resource {
        Some(r) => Some((r.expected_size(), r.transfer_mode())),
        None => None,
    };
    check_state_consistency(state, shape, partial_check.is_some(), final_check.is_some(), completed)
}

/// Checks lifecycle consistency (see [`state_consistency`]).
pub fn check_state_consistency(
    state: TaskState,
    resource: Option<(Option<u64>, TransferMode)>,
    has_partial: bool,
    has_final: bool,
    completed: &[FileRange],
) -> (result: Result<(), StateValidationError>)
    ensures
        result == state_consistency(state, resource, has_partial, has_final, completed@),
{
    if resource.is_none() && (has_partial || has_final || completed.len() > 0) {
        return Err(StateValidationError::InconsistentState);
    }
    if let Some((size, mode)) = resource {
        if size.is_none() && (mode != TransferMode::Single || has_final || completed.len() > 0) {
            return Err(StateValidationError::InconsistentState);
        }
    }
    if (state == TaskState::Downloading || state == TaskState::Paused) && (resource.is_none() || !has_partial) {
        return Err(StateValidationError::InconsistentState);
    }
    if state == TaskState::Validating || state == TaskState::Promoting || state == TaskState::Completed {
        let size = match resource {
            Some((Some(size), _)) => size,
            _ => return Err(StateValidationError::InconsistentState),
        };
        if !has_exact_coverage(completed, size) {
            return Err(StateValidationError::InconsistentState);
        }
        if state == TaskState::Validating && !has_partial {
            return Err(StateValidationError::InconsistentState);
        }
        if state == TaskState::Promoting && !has_partial && !has_final {
            return Err(StateValidationError::InconsistentState);
        }
        if state == TaskState::Completed && !has_final {
            return Err(StateValidationError::InconsistentState);
        }
    }
    if has_final && !(state == TaskState::Promoting || state == TaskState::Completed) {
        return Err(StateValidationError::InconsistentState);
    }
    Ok(())
}

/// Advances the revision for a mutation at `at`: time may not move backwards
/// and the revision may not overflow.
pub open spec fn bumped_revision(revision: u64, updated_at: u64, at: u64) -> Result<u64, StateValidationError> {
    if at < updated_at {
        Err(StateValidationError::InvalidTimestamp)
    } else if revision == u64::MAX {
        Err(StateValidationError::InvalidRevision)
    } else {
        Ok((revision + 1) as u64)
    }
}

/// The revision after one more mutation (see [`bumped_revision`]).
pub fn bump_revision(revision: u64, updated_at: TimestampMillis, at: TimestampMillis) -> (next: Result<u64, StateValidationError>)
    ensures
        next == bumped_revision(revision, updated_at.spec_get(), at.spec_get()),
{
    if at.is_before(updated_at) {
        return Err(StateValidationError::InvalidTimestamp);
    }
    match revision.checked_add(1) {
        Some(next) => Ok(next),
        None => Err(StateValidationError::InvalidRevision),
    }
}

/// The header of a lifecycle transition: the edge must be allowed and the
/// revision bump valid; the caller then re-validates the whole task.
pub fn plan_transition(current: TaskState, next: TaskState, revision: u64, updated_at: TimestampMillis, at: TimestampMillis)
    -> (planned: Result<u64, StateValidationError>)
    ensures
        !edge(current, next) ==> planned == Err::<u64, StateValidationError>(StateValidationError::InvalidTransition),
        edge(current, next) ==> planned == bumped_revision(revision, updated_at.spec_get(), at.spec_get()),
{
    if !current.allows(next) {
        return Err(StateValidationError::InvalidTransition);
    }
    bump_revision(revision, updated_at, at)
}

} // verus!

verus! {

/// What inspecting one recorded file path found.
#[derive(Debug, Clone, Copy, PartialEq, Eq, Structural)]
pub enum FileObservation {
    /// The path does not exist.
    Missing,
    /// Inspecting the path failed otherwise.
    Failed(IoFailure),
    /// The path is a link, reparse point, directory, or not canonical.
    Unsafe,
    /// An ordinary canonical file of this length.
    File { len: u64 },
}

/// Whether recovery needs a task's partial file to exist.
pub open spec fn partial_required(state: TaskState, has_final: bool) -> bool {
    state == TaskState::Downloading || state == TaskState::Paused || state == TaskState::Validating
        || (state == TaskState::Promoting && !has_final)
}

/// Whether an observed file disagrees with a known size.
pub open spec fn length_conflict(expected_size: Option<u64>, len: u64) -> bool {
    expected_size matches Some(e) && len != e
}

/// Whether a recovered task's files still match its metadata, checked in
/// order: the destination, the partial file (present where the state needs
/// it, safe, of the expected length), the final file (present, safe, of the
/// expected length), and that an existing partial and the final file are
/// one file.
pub open spec fn recovery_check(
    state: TaskState,
    expected_size: Option<u64>,
    destination_ok: bool,
    partial: Option<FileObservation>,
    final_file: Option<FileObservation>,
    same_file: Option<Result<bool, IoFailure>>,
) -> Result<(), LoadFailureReason> {
    let partial_exists = partial matches Some(FileObservation::File { .. });
    if !destination_ok {
        Err(LoadFailureReason::DestinationUnavailable)
    } else if (partial matches Some(FileObservation::Unsafe)) {
        Err(LoadFailureReason::UnsafePartial)
    } else if (partial matches Some(FileObservation::File { len }) && length_conflict(expected_size, len)) {
        Err(LoadFailureReason::PartialLengthMismatch { expected: expected_size->Some_0, actual: partial->Some_0->len })
    } else if (partial matches Some(FileObservation::Missing)) && partial_required(state, final_file is Some) {
        Err(LoadFailureReason::PartialMissing)
    } else if (partial matches Some(FileObservation::Failed(f))) {
        Err(LoadFailureReason::ReadFailed(partial->Some_0->Failed_0))
    } else {
        match final_file {
            None => Ok(()),
            Some(FileObservation::Missing) => Err(LoadFailureReason::FinalMissing),
            Some(FileObservation::Failed(f)) => Err(LoadFailureReason::FinalInspectionFailed(f)),
            Some(FileObservation::Unsafe) => Err(LoadFailureReason::UnsafeFinal),
            Some(FileObservation::File { len }) => if length_conflict(expected_size, len) {
                Err(LoadFailureReason::FinalLengthMismatch { expected: expected_size->Some_0, actual: len })
            } else if partial_exists {
                match same_file {
                    Some(Err(f)) => Err(LoadFailureReason::FinalInspectionFailed(f)),
                    Some(Ok(false)) => Err(LoadFailureReason::PublicationIdentityMismatch),
                    _ => Ok(()),
                }
            } else {
                Ok(())
            },
        }
    }
}

/// A task is recovered only with its destination available and with every
/// partial or final file it keeps of the size the record expects.
pub proof fn lemma_recovered_files_have_expected_length(
    state: TaskState,
    expected_size: Option<u64>,
    destination_ok: bool,
    partial: Option<FileObservation>,
    final_file: Option<FileObservation>,
    same_file: Option<Result<bool, IoFailure>>,
)
    ensures
        recovery_check(state, expected_size, destination_ok, partial, final_file, same_file) is Ok ==> {
            &&& destination_ok
            &&& (expected_size is Some && (partial matches Some(FileObservation::File { .. })) ==> partial->Some_0->len
                == expected_size->Some_0)
            &&& (expected_size is Some && (final_file matches Some(FileObservation::File { .. })) ==> final_file->Some_0->len
                == expected_size->Some_0)
        },
{
}

/// A final file whose length differs from the expected size is refused with
/// both lengths, whatever the state, when the destination is available and
/// the partial file is absent from the observation or present at the
/// expected size.
pub proof fn lemma_final_length_mismatch_is_reported(
    state: TaskState,
    expected: u64,
    actual: u64,
    partial: Option<FileObservation>,
    same_file: Option<Result<bool, IoFailure>>,
)
    requires
        actual != expected,
        partial is None || partial == Some(FileObservation::File { len: expected }),
    ensures
        recovery_check(state, Some(expected), true, partial, Some(FileObservation::File { len: actual }), same_file)
            == Err::<(), LoadFailureReason>(LoadFailureReason::FinalLengthMismatch { expected, actual }),
{
}

/// Decides whether a loaded task's files allow recovery (see
/// [`recovery_check`]); the caller inspects the paths.
pub fn recovery_verdict(
    state: TaskState,
    expected_size: Option<u64>,
    destination_ok: bool,
    partial: Option<FileObservation>,
    final_file: Option<FileObservation>,
    same_file: Option<Result<bool, IoFailure>>,
) -> (verdict: Result<(), LoadFailureReason>)
    requires
        (partial matches Some(FileObservation::File { .. })) && (final_file matches Some(FileObservation::File { .. }))
            ==> same_file is Some,
    ensures
        verdict == recovery_check(state, expected_size, destination_ok, partial, final_file, same_file),
        verdict is Ok ==> destination_ok,
        verdict is Ok && expected_size is Some && (partial matches Some(FileObservation::File { .. }))
            ==> partial->Some_0->len == expected_size->Some_0,
        verdict is Ok && expected_size is Some && (final_file matches Some(FileObservation::File { .. }))
            ==> final_file->Some_0->len == expected_size->Some_0,
{
    proof {
        lemma_recovered_files_have_expected_length(state, expected_size, destination_ok, partial, final_file, same_file);
    }
    if !destination_ok {
        return Err(LoadFailureReason::DestinationUnavailable);
    }
    let mut partial_exists = false;
    match partial {
        Some(FileObservation::Unsafe) => return Err(LoadFailureReason::UnsafePartial),
        Some(FileObservation::File { len }) => {
            if let Some(expected) = expected_size {
                if len != expected {
                    return Err(LoadFailureReason::PartialLengthMismatch { expected, actual: len });
                }
            }
            partial_exists = true;
        }
        Some(FileObservation::Missing) => {
            let required = state == TaskState::Downloading || state == TaskState::Paused
                || state == TaskState::Validating || (state == TaskState::Promoting && final_file.is_none());
            if required {
                return Err(LoadFailureReason::PartialMissing);
            }
        }
        Some(FileObservation::Failed(failure)) => return Err(LoadFailureReason::ReadFailed(failure)),
        None => {}
    }
    match final_file {
        None => Ok(()),
        Some(FileObservation::Missing) => Err(LoadFailureReason::FinalMissing),
        Some(FileObservation::Failed(failure)) => Err(LoadFailureReason::FinalInspectionFailed(failure)),
        Some(FileObservation::Unsafe) => Err(LoadFailureReason::UnsafeFinal),
        Some(FileObservation::File { len }) => {
            if let Some(expected) = expected_size {
                if len != expected {
                    return Err(LoadFailureReason::FinalLengthMismatch { expected, actual: len });
                }
            }
            if partial_exists {
                match same_file {
                    Some(Err(failure)) => return Err(LoadFailureReason::FinalInspectionFailed(failure)),
                    Some(Ok(false)) => return Err(LoadFailureReason::PublicationIdentityMismatch),
                    _ => {}
                }
            }
            Ok(())
        }
    }
}

} // verus!

verus! {

/// Rebuilds persisted validators: the entity tag text must parse, and the
/// whole must pass [`validate_validators`].
pub fn persisted_validators(etag: Option<&str>, last_modified: Option<String>) -> (validators: Result<Validators, StateValidationError>)
    ensures
        validators is Ok <==> (etag matches Some(t) ==> etag_parts(t@) is Some) && valid_validators((
            match etag { Some(t) => etag_parts(t@), None => None },
            match last_modified { Some(d) => Some(d@), None => None },
        )),
        validators matches Ok(v) ==> validators_view(v) == (
            match etag { Some(t) => etag_parts(t@), None => None },
            match last_modified { Some(d) => Some(d@), None => None },
        ),
        validators matches Err(e) ==> e == StateValidationError::InvalidValidator,
{
    let tag = match etag {
        Some(text) => match EntityTag::parse(text) {
            Ok(tag) => Some(tag),
            Err(_) => return Err(StateValidationError::InvalidValidator),
        },
        None => None,
    };
    let validators = Validators { etag: tag, last_modified };
    match validate_validators(&validators) {
        Ok(()) => Ok(validators),
        Err(e) => Err(e),
    }
}

/// The resource a persisted task records: none before probing (with no
/// size or validators), otherwise a valid identity at a canonical final URL.
pub open spec fn persisted_resource_of(
    mode: TransferMode,
    final_url: Option<Seq<char>>,
    expected_size: Option<u64>,
    validators: Validators,
) -> Result<Option<Seq<char>>, StateValidationError> {
    match (mode, final_url) {
        (TransferMode::Pending, None) => if expected_size is Some || validators.etag is Some || validators.last_modified is Some {
            Err(StateValidationError::InvalidResource)
        } else {
            Ok(None)
        },
        (TransferMode::Pending, Some(_)) => Err(StateValidationError::InvalidResource),
        (_, None) => Err(StateValidationError::InvalidResource),
        (_, Some(url)) => if normalized_url_of(url) != Some(url) {
            Err(StateValidationError::InvalidUrl)
        } else {
            match resource_identity_of(url, expected_size, validators_view(validators), mode) {
                Ok(canonical) => Ok(Some(canonical)),
                Err(e) => Err(e),
            }
        },
    }
}

/// Rebuilds the resource identity of a persisted task (see
/// [`persisted_resource_of`]).
pub fn persisted_resource(mode: TransferMode, final_url: Option<&str>, expected_size: Option<u64>, validators: Validators)
    -> (resource: Result<Option<ResourceIdentity>, StateValidationError>)
    ensures
        resource is Ok <==> persisted_resource_of(mode, match final_url { Some(u) => Some(u@), None => None }, expected_size, validators) is Ok,
        resource matches Ok(None) ==> persisted_resource_of(mode, match final_url { Some(u) => Some(u@), None => None }, expected_size, validators)
            == Ok::<Option<Seq<char>>, StateValidationError>(None),
        resource matches Ok(Some(r)) ==> persisted_resource_of(mode, match final_url { Some(u) => Some(u@), None => None }, expected_size, validators)
                == Ok::<Option<Seq<char>>, StateValidationError>(Some(r.spec_final_url()))
            && r.spec_expected_size() == expected_size && r.spec_validators() == validators && r.spec_transfer_mode() == mode,
        resource matches Err(e) ==> persisted_resource_of(mode, match final_url { Some(u) => Some(u@), None => None }, expected_size, validators)
            == Err::<Option<Seq<char>>, StateValidationError>(e),
{
    match (mode, final_url) {
        (TransferMode::Pending, None) => {
            if expected_size.is_some() || validators.etag.is_some() || validators.last_modified.is_some() {
                return Err(StateValidationError::InvalidResource);
            }
            Ok(None)
        }
        (TransferMode::Pending, Some(_)) => Err(StateValidationError::InvalidResource),
        (_, None) => Err(StateValidationError::InvalidResource),
        (mode, Some(url)) => {
            let canonical = match require_canonical_url(url) {
                Ok(canonical) => canonical,
                Err(e) => return Err(e),
            };
            match ResourceIdentity::new(canonical.as_str(), expected_size, validators, mode) {
                Ok(identity) => Ok(Some(identity)),
                Err(e) => Err(e),
            }
        }
    }
}

/// Rebuilds persisted completed ranges; an empty or reversed pair is
/// rejected.
pub fn persisted_ranges(pairs: &[(u64, u64)]) -> (ranges: Result<Vec<FileRange>, StateValidationError>)
    ensures
        ranges is Ok <==> forall|i: int| 0 <= i < pairs@.len() ==> (#[trigger] pairs@[i]).0 < pairs@[i].1,
        ranges matches Ok(r) ==> r@.len() == pairs@.len() && forall|i: int| 0 <= i < pairs@.len()
            ==> (#[trigger] r@[i]).start == pairs@[i].0 && r@[i].end == pairs@[i].1,
        ranges matches Err(e) ==> e == StateValidationError::InvalidCompletedRanges,
{
    let mut out: Vec<FileRange> = Vec::new();
    let mut k: usize = 0;
    while k < pairs.len()
        invariant
            0 <= k <= pairs@.len(),
            out@.len() == k,
            forall|i: int| 0 <= i < k ==> (#[trigger] pairs@[i]).0 < pairs@[i].1,
            forall|i: int| 0 <= i < k ==> (#[trigger] out@[i]).start == pairs@[i].0 && out@[i].end == pairs@[i].1,
        decreases pairs@.len() - k,
    {
        let (start, end) = pairs[k];
        match FileRange::new(start, end) {
            Ok(range) => out.push(range),
            Err(_) => return Err(StateValidationError::InvalidCompletedRanges),
        }
        k += 1;
    }
    Ok(out)
}

} // verus!

verus! {

/// What `uuid::Uuid::parse_str` accepts, as the identifier's 128-bit value
/// (`Uuid::as_u128`); `None` where it rejects the text.
pub uninterp spec fn uuid_parse_of(text: Seq<char>) -> Option<u128>;

/// The canonical lowercase hyphenated text of an identifier, as
/// `Uuid::from_u128(value).hyphenated().to_string()` gives it.
pub uninterp spec fn uuid_hyphenated_of(value: u128) -> Seq<char>;

/// The identifier's version: the high nibble of byte 6.
pub open spec fn uuid_version(value: u128) -> u128 {
    (value >> 76u128) & 0xfu128
}

/// Whether the identifier has the RFC 4122 variant: byte 8 starts with the
/// bits `10`.
pub open spec fn uuid_is_rfc4122(value: u128) -> bool {
    (value >> 62u128) & 0x3u128 == 2u128
}

/// Calls `uuid::Uuid::new_v4` and reads the value with `as_u128`. The value
/// is random; the source masks in version 4 and the RFC 4122 variant, and
/// that is all that is claimed.
#[verifier::external_body]
fn random_uuid_v4() -> (value: u128)
    ensures
        uuid_version(value) == 4,
        uuid_is_rfc4122(value),
{
    uuid::Uuid::new_v4().as_u128()
}

/// Calls `uuid::Uuid::parse_str` and reads the value with `as_u128`.
/// Claimed: the result is the named reading of the text, nothing more.
#[verifier::external_body]
fn parse_uuid(text: &str) -> (value: Option<u128>)
    ensures
        value == uuid_parse_of(text@),
{
    uuid::Uuid::parse_str(text).ok().map(|parsed| parsed.as_u128())
}

/// Calls `uuid::Uuid::from_u128`, then `hyphenated().to_string()`.
/// Claimed: the result is the named text, and `Uuid::parse_str` reads that
/// text back as the same identifier (the hyphenated form is one the parser
/// accepts).
#[verifier::external_body]
fn uuid_text(value: u128) -> (text: String)
    ensures
        text@ == uuid_hyphenated_of(value),
        uuid_parse_of(text@) == Some(value),
{
    uuid::Uuid::from_u128(value).hyphenated().to_string()
}

/// The identifier that canonical task-id text denotes: parsed text whose
/// canonical rendering is the text itself, of version 4 and the RFC 4122
/// variant.
pub open spec fn task_id_value(text: Seq<char>, parsed: Option<u128>) -> Option<u128> {
    match parsed {
        Some(value) => if uuid_hyphenated_of(value) == text && uuid_version(value) == 4 && uuid_is_rfc4122(value) {
            Some(value)
        } else {
            None
        },
        None => None,
    }
}

/// Stable opaque task identifier represented canonically as a lowercase UUID.
#[derive(Debug, Clone, Copy, PartialEq, Eq, Structural, PartialOrd, Ord, Hash)]
pub struct TaskId {
    value: u128,
}

impl TaskId {
    #[verifier::type_invariant]
    spec fn random_v4(self) -> bool {
        uuid_version(self.value) == 4 && uuid_is_rfc4122(self.value)
    }

    pub closed spec fn spec_value(self) -> u128 {
        self.value
    }

    /// Creates a random RFC 4122 version-4 identifier from the operating
    /// system's randomness.
    pub fn new() -> (id: TaskId)
        ensures
            uuid_version(id.spec_value()) == 4,
            uuid_is_rfc4122(id.spec_value()),
    {
        TaskId { value: random_uuid_v4() }
    }

    /// Accepts the value that parsing `text` gave when `text` is its
    /// canonical rendering and it is a version-4 RFC 4122 identifier.
    pub fn from_parsed(text: &str, parsed: Option<u128>) -> (id: Result<TaskId, StateValidationError>)
        ensures
            id is Ok <==> task_id_value(text@, parsed) is Some,
            id matches Ok(t) ==> task_id_value(text@, parsed) == Some(t.spec_value()),
            id matches Err(e) ==> e == StateValidationError::InvalidTaskId,
    {
        let value = match parsed {
            Some(v) => v,
            None => return Err(StateValidationError::InvalidTaskId),
        };
        let canonical = uuid_text(value);
        if !same_text(canonical.as_str(), text) {
            return Err(StateValidationError::InvalidTaskId);
        }
        if (value >> 76u128) & 0xfu128 != 4 || (value >> 62u128) & 0x3u128 != 2 {
            return Err(StateValidationError::InvalidTaskId);
        }
        Ok(TaskId { value })
    }

    /// Parses one canonical lowercase hyphenated UUID; alternate UUID text
    /// forms and other versions or variants are rejected.
    pub fn parse(text: &str) -> (id: Result<TaskId, StateValidationError>)
        ensures
            id is Ok <==> task_id_value(text@, uuid_parse_of(text@)) is Some,
            id matches Ok(t) ==> task_id_value(text@, uuid_parse_of(text@)) == Some(t.spec_value()),
            id matches Err(e) ==> e == StateValidationError::InvalidTaskId,
    {
        let parsed = parse_uuid(text);
        TaskId::from_parsed(text, parsed)
    }

    /// The identifier's 128-bit value.
    pub fn value(self) -> (value: u128)
        ensures
            value == self.spec_value(),
            uuid_version(value) == 4,
            uuid_is_rfc4122(value),
    {
        proof { use_type_invariant(&self); }
        self.value
    }

    /// The canonical lowercase hyphenated text, which parses back as this
    /// identifier.
    pub fn to_text(self) -> (text: String)
        ensures
            text@ == uuid_hyphenated_of(self.spec_value()),
            uuid_parse_of(text@) == Some(self.spec_value()),
    {
        uuid_text(self.value)
    }

    /// Identifiers are equal exactly when their values are.
    pub proof fn lemma_value_identifies(a: TaskId, b: TaskId)
        ensures
            a.spec_value() == b.spec_value() <==> a == b,
    {
    }
}

impl Default for TaskId {
    /// A fresh random identifier.
    fn default() -> (id: Self)
        ensures
            uuid_version(id.spec_value()) == 4,
            uuid_is_rfc4122(id.spec_value()),
    {
        TaskId::new()
    }
}

} // verus!

verus! {

/// Largest number of task-state files listed.
pub const MAX_TASK_FILES: usize = 10_000;
/// Largest number of directory entries examined while listing.
pub const MAX_DIRECTORY_ENTRIES: usize = 20_000;

/// `.task.json`
pub open spec fn task_file_suffix() -> Seq<char> {
    seq!['.', 't', 'a', 's', 'k', '.', 'j', 's', 'o', 'n']
}

/// The task-id text of a task-state file name: the name without the
/// `.task.json` suffix; `None` for any other name.
pub open spec fn task_file_stem(name: Seq<char>) -> Option<Seq<char>> {
    if name.len() >= task_file_suffix().len() && name.skip(name.len() - task_file_suffix().len()) == task_file_suffix() {
        Some(name.take(name.len() - task_file_suffix().len()))
    } else {
        None
    }
}

/// One task-state file that could not be loaded.
#[derive(Debug, Clone, Copy, PartialEq, Eq, Structural)]
pub struct LoadFailure {
    /// The task the file names, when its name is a canonical task id.
    pub task_id: Option<TaskId>,
    /// Why the file was not loaded.
    pub reason: LoadFailureReason,
}

impl LoadFailure {
    /// The task the file names, when its name is a canonical task id.
    pub fn task_id(&self) -> (id: Option<TaskId>)
        ensures
            id == self.task_id,
    {
        self.task_id
    }

    /// Why the file was not loaded.
    pub fn reason(&self) -> (reason: LoadFailureReason)
        ensures
            reason == self.reason,
    {
        self.reason
    }
}

/// What listing the task directory does with one entry.
#[derive(Debug, Clone, Copy, PartialEq, Eq, Structural)]
pub enum ListedEntry {
    /// Not a task-state file.
    Skip,
    /// A task-state file that is reported and not loaded.
    Failed(LoadFailure),
    /// A task-state file that is read next, for the task it names.
    Load(TaskId),
}

/// Counts of a directory listing in progress.
#[derive(Debug, Clone, Copy, PartialEq, Eq, Structural)]
pub struct TaskListing {
    /// Directory entries examined.
    pub entries: usize,
    /// Task-state files seen.
    pub task_files: usize,
}

/// The task id a listed file names, if any.
pub open spec fn listed_task(stem: Seq<char>) -> Option<u128> {
    task_id_value(stem, uuid_parse_of(stem))
}

/// One step of listing the task directory: `before` and `after` are the
/// counts around examining an entry named `name` (when valid Unicode) whose
/// type reading is `kind`, and `listed` is the decision.
pub open spec fn listing_step(
    before: TaskListing,
    name: Option<Seq<char>>,
    kind: Result<(bool, bool), IoFailure>,
    after: TaskListing,
    listed: Result<ListedEntry, PersistenceError>,
) -> bool {
    &&& after.task_files == before.task_files + if counts_task_file(listed) { 1int } else { 0int }
    &&& before.entries >= MAX_DIRECTORY_ENTRIES ==> listed == Err::<ListedEntry, PersistenceError>(PersistenceError::TooManyTaskFiles)
    &&& before.entries < MAX_DIRECTORY_ENTRIES ==> after.entries == before.entries + 1
    &&& before.entries < MAX_DIRECTORY_ENTRIES && (name is None || task_file_stem(name->Some_0) is None)
        ==> listed == Ok::<ListedEntry, PersistenceError>(ListedEntry::Skip) && after.task_files == before.task_files
    &&& before.entries < MAX_DIRECTORY_ENTRIES && name is Some && task_file_stem(name->Some_0) is Some ==> {
        let stem = task_file_stem(name->Some_0)->Some_0;
        let id = listed_task(stem);
        &&& before.task_files < MAX_TASK_FILES ==> after.task_files == before.task_files + 1
        &&& before.task_files >= MAX_TASK_FILES ==> listed == Err::<ListedEntry, PersistenceError>(PersistenceError::TooManyTaskFiles)
        &&& before.task_files < MAX_TASK_FILES ==> match kind {
            Err(failure) => listed matches Ok(ListedEntry::Failed(f)) && names_task(f.task_id, id)
                && f.reason == LoadFailureReason::ReadFailed(failure),
            Ok((is_file, is_link)) => if !is_file || is_link {
                listed matches Ok(ListedEntry::Failed(f)) && names_task(f.task_id, id)
                    && f.reason == LoadFailureReason::UnsafeFileType
            } else if id is None {
                listed == Ok::<ListedEntry, PersistenceError>(ListedEntry::Failed(LoadFailure {
                    task_id: None,
                    reason: LoadFailureReason::InvalidFilename,
                }))
            } else {
                listed matches Ok(ListedEntry::Load(t)) && t.spec_value() == id->Some_0
            },
        }
    }
}

/// Whether a listing decision is about a task-state file: one that is either
/// reported as a failure or loaded.
pub open spec fn counts_task_file(listed: Result<ListedEntry, PersistenceError>) -> bool {
    match listed {
        Ok(ListedEntry::Failed(_)) | Ok(ListedEntry::Load(_)) => true,
        _ => false,
    }
}

/// Whether a listed decision names the task whose value is `value`.
pub open spec fn names_task(id: Option<TaskId>, value: Option<u128>) -> bool {
    match (id, value) {
        (Some(t), Some(v)) => t.spec_value() == v,
        (None, None) => true,
        _ => false,
    }
}

impl TaskListing {
    /// Nothing listed yet.
    pub fn new() -> (listing: TaskListing)
        ensures
            listing == (TaskListing { entries: 0, task_files: 0 }),
    {
        TaskListing { entries: 0, task_files: 0 }
    }

    /// Examines the next directory entry: `name` is its file name when that is
    /// valid Unicode, and `kind` says whether it is a regular file and whether
    /// it is a link (or how reading its type failed). Listing fails with
    /// `TooManyTaskFiles` past 20,000 entries or 10,000 task-state files.
    /// Other names are skipped. A task-state file is loaded when it is a
    /// regular file, not a link, named by a canonical task id; otherwise it is
    /// a failure: its type could not be read, its type is unsafe, or its name
    /// is not a task id, in that order.
    pub fn observe(&mut self, name: Option<&str>, kind: Result<(bool, bool), IoFailure>) -> (listed: Result<ListedEntry, PersistenceError>)
        ensures
            listing_step(*old(self), match name { Some(n) => Some(n@), None => None }, kind, *final(self), listed),
    {
        if self.entries >= MAX_DIRECTORY_ENTRIES {
            return Err(PersistenceError::TooManyTaskFiles);
        }
        self.entries = self.entries + 1;
        let name = match name {
            Some(n) => n,
            None => return Ok(ListedEntry::Skip),
        };
        let chars = chars_of(name);
        let suffix: Vec<char> = vec!['.', 't', 'a', 's', 'k', '.', 'j', 's', 'o', 'n'];
        proof {
            assert(suffix@ =~= task_file_suffix());
        }
        if chars.len() < suffix.len() {
            return Ok(ListedEntry::Skip);
        }
        let cut = chars.len() - suffix.len();
        let tail = crate::text::copy_range(chars.as_slice(), cut, chars.len());
        proof {
            assert(tail@ =~= name@.skip(cut as int));
        }
        if !crate::filename::same_chars(tail.as_slice(), suffix.as_slice()) {
            return Ok(ListedEntry::Skip);
        }
        let stem_chars = crate::text::copy_range(chars.as_slice(), 0, cut);
        proof {
            assert(stem_chars@ =~= name@.take(cut as int));
        }
        if self.task_files >= MAX_TASK_FILES {
            return Err(PersistenceError::TooManyTaskFiles);
        }
        self.task_files = self.task_files + 1;
        let stem = crate::text::string_from_chars(stem_chars.as_slice());
        let task_id = match TaskId::parse(stem.as_str()) {
            Ok(id) => Some(id),
            Err(_) => None,
        };
        match kind {
            Err(failure) => Ok(ListedEntry::Failed(LoadFailure { task_id, reason: LoadFailureReason::ReadFailed(failure) })),
            Ok((is_file, is_link)) => {
                if !is_file || is_link {
                    Ok(ListedEntry::Failed(LoadFailure { task_id, reason: LoadFailureReason::UnsafeFileType }))
                } else {
                    match task_id {
                        Some(id) => Ok(ListedEntry::Load(id)),
                        None => Ok(ListedEntry::Failed(LoadFailure { task_id: None, reason: LoadFailureReason::InvalidFilename })),
                    }
                }
            }
        }
    }
}

} // verus!

verus! {

/// Longest path text, in UTF-16 units, that the platform accepts.
pub const MAX_PATH_UTF16_UNITS: usize = 32_767;

/// The textual part of the path rules: non-empty, within the platform's
/// length bound in UTF-16 units, and without a NUL character.
pub open spec fn path_text_ok(text: Seq<char>) -> bool {
    &&& text.len() > 0
    &&& crate::filename::utf16_units(text) <= MAX_PATH_UTF16_UNITS
    &&& forall|i: int| 0 <= i < text.len() ==> text[i] != '\0'
}

/// Checks the textual part of the path rules (see [`path_text_ok`]).
pub fn check_path_text(text: &str) -> (ok: bool)
    ensures
        ok == path_text_ok(text@),
{
    let chars = chars_of(text);
    if chars.len() == 0 {
        return false;
    }
    let mut units: usize = 0;
    let mut k: usize = 0;
    while k < chars.len()
        invariant
            chars@ == text@,
            0 <= k <= chars@.len(),
            units == crate::filename::utf16_units(chars@.take(k as int)),
            units <= MAX_PATH_UTF16_UNITS,
            forall|i: int| 0 <= i < k ==> chars@[i] != '\0',
        decreases chars@.len() - k,
    {
        proof {
            assert(chars@.take(k + 1).drop_last() =~= chars@.take(k as int));
        }
        if chars[k] == '\0' {
            return false;
        }
        units = units + crate::filename::len_utf16(chars[k]);
        k += 1;
        if units > MAX_PATH_UTF16_UNITS {
            proof {
                crate::filename::lemma_utf16_units_prefix_le(chars@, k as int);
            }
            return false;
        }
    }
    proof {
        assert(chars@.take(chars@.len() as int) =~= chars@);
    }
    true
}

/// Which recorded file a confined path names.
#[derive(Debug, Clone, Copy, PartialEq, Eq, Structural)]
pub enum PathKind {
    /// The partial file.
    Partial,
    /// The published file.
    Final,
}

/// The file-name part of a confined path: an already-sanitized name, and
/// for a partial a name this library gives partials.
pub open spec fn confined_name_of(kind: PathKind, name: Seq<char>) -> Result<(), StateValidationError> {
    match kind {
        PathKind::Partial => if crate::filename::sanitized(name) != name
            || !crate::storage::is_managed_partial_text(name) {
            Err(StateValidationError::InvalidPartialPath)
        } else {
            Ok(())
        },
        PathKind::Final => if crate::filename::sanitized(name) != name {
            Err(StateValidationError::InvalidFinalPath)
        } else {
            Ok(())
        },
    }
}

/// Checks the file name of a confined path (see [`confined_name_of`]).
pub fn check_confined_name(kind: PathKind, name: &str) -> (result: Result<(), StateValidationError>)
    ensures
        result == confined_name_of(kind, name@),
{
    let sanitized = crate::filename::sanitize_filename(name);
    let same = same_text(sanitized.as_str(), name);
    match kind {
        PathKind::Partial => if !same || !crate::storage::is_managed_partial_filename(name) {
            Err(StateValidationError::InvalidPartialPath)
        } else {
            Ok(())
        },
        PathKind::Final => if !same {
            Err(StateValidationError::InvalidFinalPath)
        } else {
            Ok(())
        },
    }
}

} // verus!
