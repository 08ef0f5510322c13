//! Decisions of one controlled transfer: the strategy that the probe and the
//! partial file allow, what a worker response must prove before its body is
//! written, when a body ends at the exact boundary, and the counters that are
//! reported as progress and as the final summary.
use vstd::prelude::*;
use crate::clock::Instant;
use crate::network::{
    HeaderField, OK_STATUS, PARTIAL_CONTENT, ProbeMode, RangeAssignment, RangeValidationError, ResourceProbe,
    ResponseHeaders, ValidatedRange, Validators, content_length_header, content_length_name, encoding_check,
    optional_u64_header, optional_u64_of, parse_validators, range_response_check, reject_unexpected_encoding,
    retry_after_at, retry_after_of, strong_identity, validate_expected_validators, validate_range_response,
    validators_check, validators_of, validators_view,
};
use crate::text::{decimal, push_decimal, same_text, string_from_chars};
use crate::scheduler::{
    MAX_COMPLETED_RANGES, MAX_RANGE_REQUESTS, MAX_WORKERS, SchedulerError, WorkerCount, is_missing,
    missing_ranges, planned_chunk_size, request_chunk_size, request_count, validate_request_plan,
};
use crate::storage::{
    FileRange, StorageError, canonical_within, covers, has_exact_coverage, is_exact_coverage, lemma_total_len_bounded, total_len,
};

verus! {

/// Absolute transfer counters suitable for coalesced progress sampling.
#[derive(Debug, Clone, Copy, PartialEq, Eq, Structural)]
pub struct TransferProgress {
    bytes_completed: u64,
    expected_size: Option<u64>,
    active_workers: u8,
}

impl TransferProgress {
    pub closed spec fn spec_bytes_completed(self) -> u64 {
        self.bytes_completed
    }

    pub closed spec fn spec_expected_size(self) -> Option<u64> {
        self.expected_size
    }

    pub closed spec fn spec_active_workers(self) -> u8 {
        self.active_workers
    }

    /// Bytes represented by this invocation's durable baseline plus safe
    /// in-process progress.
    pub fn bytes_completed(self) -> (n: u64)
        ensures
            n == self.spec_bytes_completed(),
    {
        self.bytes_completed
    }

    /// Expected complete length, or `None` until an unknown stream reaches EOF.
    pub fn expected_size(self) -> (size: Option<u64>)
        ensures
            size == self.spec_expected_size(),
    {
        self.expected_size
    }

    /// Worker requests currently sending or receiving a response.
    pub fn active_workers(self) -> (n: u8)
        ensures
            n == self.spec_active_workers(),
    {
        self.active_workers
    }
}

impl Default for TransferProgress {
    /// No bytes, no known size, no active worker.
    fn default() -> (progress: Self)
        ensures
            progress.spec_bytes_completed() == 0,
            progress.spec_expected_size() is None,
            progress.spec_active_workers() == 0,
    {
        TransferProgress { bytes_completed: 0, expected_size: None, active_workers: 0 }
    }
}

/// Transfer strategy actually executed.
#[derive(Debug, Clone, Copy, PartialEq, Eq, Structural)]
pub enum TransferKind {
    /// Validated ranged requests over a known-size resource.
    Segmented,
    /// One sequential response, with a known or EOF-discovered size.
    Single,
    /// A proven empty resource requiring no body request.
    Empty,
}

/// Bounded transfer statistics for integration with later progress events.
#[derive(Debug, Clone, Copy, PartialEq, Eq, Structural)]
pub struct TransferSummary {
    kind: TransferKind,
    bytes_written: u64,
    requests_started: u64,
    ranges_completed: u64,
    hedged_requests: u64,
    workers_used: u8,
}

impl TransferSummary {
    pub closed spec fn spec_kind(self) -> TransferKind {
        self.kind
    }

    pub closed spec fn spec_bytes_written(self) -> u64 {
        self.bytes_written
    }

    pub closed spec fn spec_requests_started(self) -> u64 {
        self.requests_started
    }

    pub closed spec fn spec_ranges_completed(self) -> u64 {
        self.ranges_completed
    }

    pub closed spec fn spec_hedged_requests(self) -> u64 {
        self.hedged_requests
    }

    pub closed spec fn spec_workers_used(self) -> u8 {
        self.workers_used
    }

    /// Transfer strategy that ran.
    pub fn kind(self) -> (kind: TransferKind)
        ensures
            kind == self.spec_kind(),
    {
        self.kind
    }

    /// Bytes newly committed to storage by this invocation.
    pub fn bytes_written(self) -> (n: u64)
        ensures
            n == self.spec_bytes_written(),
    {
        self.bytes_written
    }

    /// HTTP requests started, including one optional tail hedge.
    pub fn requests_started(self) -> (n: u64)
        ensures
            n == self.spec_requests_started(),
    {
        self.requests_started
    }

    /// Storage ranges completed by this invocation.
    pub fn ranges_completed(self) -> (n: u64)
        ensures
            n == self.spec_ranges_completed(),
    {
        self.ranges_completed
    }

    /// Duplicate tail requests started after the bounded hedge delay.
    pub fn hedged_requests(self) -> (n: u64)
        ensures
            n == self.spec_hedged_requests(),
    {
        self.hedged_requests
    }

    /// Configured workers used for this transfer mode.
    pub fn workers_used(self) -> (n: u8)
        ensures
            n == self.spec_workers_used(),
    {
        self.workers_used
    }
}

/// `a + b` wrapped modulo 2^64, as an atomic counter adds.
pub open spec fn add_wrapped(a: u64, b: u64) -> u64 {
    if a + b > u64::MAX {
        (a + b - 0x1_0000_0000_0000_0000) as u64
    } else {
        (a + b) as u64
    }
}

/// `a + 1` wrapped modulo the `usize` range.
pub open spec fn usize_incremented(a: usize) -> usize {
    if a == usize::MAX { 0 } else { (a + 1) as usize }
}

/// `a - 1` wrapped modulo the `usize` range.
pub open spec fn usize_decremented(a: usize) -> usize {
    if a == 0 { usize::MAX } else { (a - 1) as usize }
}

/// The counters of one transfer, updated as its workers run. Each counter
/// wraps on overflow as an atomic counter does.
#[derive(Debug, Clone, Copy, PartialEq, Eq, Structural)]
pub struct TransferMetrics {
    /// Durable baseline plus bytes committed or streamed so far.
    pub bytes_completed: u64,
    /// Expected complete length, once known.
    pub expected_size: Option<u64>,
    /// Requests currently sending or receiving a response.
    pub active_workers: usize,
    /// Bytes newly committed by this transfer.
    pub bytes_written: u64,
    /// Requests started, hedges included.
    pub requests_started: u64,
    /// Ranges committed by this transfer.
    pub ranges_completed: u64,
    /// Tail hedges started.
    pub hedged_requests: u64,
}

impl TransferMetrics {
    /// Counters for a transfer that starts from `bytes_completed` durable bytes.
    pub fn new(bytes_completed: u64, expected_size: Option<u64>) -> (metrics: Self)
        ensures
            metrics == (TransferMetrics {
                bytes_completed,
                expected_size,
                active_workers: 0,
                bytes_written: 0,
                requests_started: 0,
                ranges_completed: 0,
                hedged_requests: 0,
            }),
    {
        TransferMetrics {
            bytes_completed,
            expected_size,
            active_workers: 0,
            bytes_written: 0,
            requests_started: 0,
            ranges_completed: 0,
            hedged_requests: 0,
        }
    }

    /// Counts one started request, and one hedge if it is one.
    pub fn record_request(&mut self, hedged: bool)
        ensures
            *final(self) == (TransferMetrics {
                requests_started: add_wrapped(old(self).requests_started, 1),
                hedged_requests: if hedged { add_wrapped(old(self).hedged_requests, 1) } else { old(self).hedged_requests },
                ..*old(self)
            }),
    {
        self.requests_started = self.requests_started.wrapping_add(1);
        if hedged {
            self.hedged_requests = self.hedged_requests.wrapping_add(1);
        }
    }

    /// A request began sending.
    pub fn worker_started(&mut self)
        ensures
            *final(self) == (TransferMetrics { active_workers: usize_incremented(old(self).active_workers), ..*old(self) }),
    {
        self.active_workers = self.active_workers.wrapping_add(1);
    }

    /// A request finished, whatever its outcome.
    pub fn worker_stopped(&mut self)
        ensures
            *final(self) == (TransferMetrics { active_workers: usize_decremented(old(self).active_workers), ..*old(self) }),
    {
        self.active_workers = self.active_workers.wrapping_sub(1);
    }

    /// A range of `bytes` bytes was committed.
    pub fn record_range(&mut self, bytes: u64)
        ensures
            *final(self) == (TransferMetrics {
                bytes_written: add_wrapped(old(self).bytes_written, bytes),
                ranges_completed: add_wrapped(old(self).ranges_completed, 1),
                bytes_completed: add_wrapped(old(self).bytes_completed, bytes),
                ..*old(self)
            }),
    {
        self.bytes_written = self.bytes_written.wrapping_add(bytes);
        self.ranges_completed = self.ranges_completed.wrapping_add(1);
        self.bytes_completed = self.bytes_completed.wrapping_add(bytes);
    }

    /// A sequential stream has written `bytes` bytes in all.
    pub fn record_stream_progress(&mut self, bytes: u64)
        ensures
            *final(self) == (TransferMetrics { bytes_completed: bytes, ..*old(self) }),
    {
        self.bytes_completed = bytes;
    }

    /// A sequential stream completed with `bytes` bytes: one range unless empty.
    pub fn complete_single(&mut self, bytes: u64)
        ensures
            *final(self) == (TransferMetrics {
                bytes_written: bytes,
                ranges_completed: if bytes > 0 { 1 } else { 0 },
                bytes_completed: bytes,
                ..*old(self)
            }),
    {
        self.bytes_written = bytes;
        self.ranges_completed = if bytes > 0 { 1 } else { 0 };
        self.bytes_completed = bytes;
    }

    /// The expected length became known (or unknown again).
    pub fn set_expected_size(&mut self, expected_size: Option<u64>)
        ensures
            *final(self) == (TransferMetrics { expected_size, ..*old(self) }),
    {
        self.expected_size = expected_size;
    }

    /// The sample published after each update: active workers are reported
    /// up to the worker maximum.
    pub fn progress(&self) -> (sample: TransferProgress)
        ensures
            sample.spec_bytes_completed() == self.bytes_completed,
            sample.spec_expected_size() == self.expected_size,
            sample.spec_active_workers() == if self.active_workers < MAX_WORKERS { self.active_workers as u8 } else { MAX_WORKERS },
    {
        let active = if self.active_workers < MAX_WORKERS as usize { self.active_workers as u8 } else { MAX_WORKERS };
        TransferProgress { bytes_completed: self.bytes_completed, expected_size: self.expected_size, active_workers: active }
    }

    /// The statistics reported when a transfer of `kind` ends.
    pub fn summary(&self, kind: TransferKind, workers_used: u8) -> (summary: TransferSummary)
        ensures
            summary.spec_kind() == kind,
            summary.spec_bytes_written() == self.bytes_written,
            summary.spec_requests_started() == self.requests_started,
            summary.spec_ranges_completed() == self.ranges_completed,
            summary.spec_hedged_requests() == self.hedged_requests,
            summary.spec_workers_used() == workers_used,
    {
        TransferSummary {
            kind,
            bytes_written: self.bytes_written,
            requests_started: self.requests_started,
            ranges_completed: self.ranges_completed,
            hedged_requests: self.hedged_requests,
            workers_used,
        }
    }
}

} // verus!

verus! {

/// What a transfer does once its up-front checks pass.
#[derive(Debug, Clone, Copy, PartialEq, Eq, Structural)]
pub enum TransferStep {
    /// A proven empty resource: no body is requested.
    Empty,
    /// Ranged requests over a known, non-zero size.
    Segmented { total: u64 },
    /// One sequential response; `size` is the proven length where known.
    Single { size: Option<u64> },
}

/// The up-front checks of a transfer, in order: a cancelled transfer stops;
/// the durable baseline (the sum of completed lengths) must fit in `u64`,
/// and reused bytes need a strong entity tag; then the probe's mode and size
/// must agree with the partial file's expected length and baseline. The value
/// is the baseline and the next step.
pub open spec fn transfer_plan(
    cancelled: bool,
    mode: ProbeMode,
    size: Option<u64>,
    strong: bool,
    completed: Seq<FileRange>,
    expected_len: Option<u64>,
) -> Result<(u64, TransferStep), SchedulerError> {
    let baseline = total_len(completed);
    if cancelled {
        Err(SchedulerError::Cancelled)
    } else if baseline > u64::MAX {
        Err(SchedulerError::InvalidCompletedCoverage)
    } else if baseline > 0 && !strong {
        Err(SchedulerError::InvalidCompletedCoverage)
    } else {
        match mode {
            ProbeMode::Segmented => match size {
                None => Err(SchedulerError::ProbeStorageMismatch),
                Some(total) => if total == 0 || expected_len != Some(total) || baseline > total {
                    Err(SchedulerError::ProbeStorageMismatch)
                } else {
                    Ok((baseline as u64, TransferStep::Segmented { total }))
                },
            },
            ProbeMode::SingleStream(_) => if expected_len != size || (size matches Some(t) && baseline > t) {
                Err(SchedulerError::ProbeStorageMismatch)
            } else {
                Ok((baseline as u64, TransferStep::Single { size }))
            },
            ProbeMode::Empty => if size != Some(0u64) || expected_len != Some(0u64) || baseline != 0 {
                Err(SchedulerError::ProbeStorageMismatch)
            } else {
                Ok((0u64, TransferStep::Empty))
            },
        }
    }
}

proof fn lemma_total_len_prefix(s: Seq<FileRange>, i: int)
    requires
        0 <= i <= s.len(),
        forall|k: int| 0 <= k < s.len() ==> (#[trigger] s[k]).wf(),
    ensures
        0 <= total_len(s.take(i)) <= total_len(s),
    decreases s.len(), i,
{
    if i == s.len() {
        assert(s.take(i) =~= s);
        if s.len() > 0 {
            lemma_total_len_prefix(s, i - 1);
            assert(s.take(i).drop_last() =~= s.take(i - 1));
            assert(s[i - 1].wf());
        }
    } else {
        let shorter = s.drop_last();
        assert(shorter.take(i) =~= s.take(i));
        assert forall|k: int| 0 <= k < shorter.len() implies (#[trigger] shorter[k]).wf() by {
            assert(shorter[k] == s[k]);
        }
        lemma_total_len_prefix(shorter, i);
        lemma_total_len_prefix(shorter, shorter.len() as int);
        assert(shorter.take(shorter.len() as int) =~= shorter);
        assert(s.last().wf());
    }
}

/// The sum of the completed ranges' lengths, or `None` past `u64::MAX`.
pub fn completed_bytes(completed: &[FileRange]) -> (total: Option<u64>)
    requires
        forall|i: int| 0 <= i < completed@.len() ==> (#[trigger] completed@[i]).wf(),
    ensures
        total is Some <==> total_len(completed@) <= u64::MAX,
        total matches Some(n) ==> n == total_len(completed@),
{
    let mut sum: u64 = 0;
    let mut index: usize = 0;
    while index < completed.len()
        invariant
            0 <= index <= completed@.len(),
            forall|i: int| 0 <= i < completed@.len() ==> (#[trigger] completed@[i]).wf(),
            sum == total_len(completed@.take(index as int)),
        decreases completed@.len() - index,
    {
        let range = completed[index];
        proof {
            assert(completed@.take(index + 1).drop_last() =~= completed@.take(index as int));
            assert(completed@[index as int].wf());
        }
        sum = match sum.checked_add(range.end - range.start) {
            Some(next) => next,
            None => {
                proof {
                    lemma_total_len_prefix(completed@, index + 1);
                }
                return None;
            }
        };
        index += 1;
    }
    proof {
        assert(completed@.take(completed@.len() as int) =~= completed@);
    }
    Some(sum)
}

/// Runs the up-front checks of a transfer of `probe` into a partial file
/// whose durable coverage is `completed` and whose expected length is
/// `expected_len`.
pub fn plan_transfer(
    cancelled: bool,
    probe: &ResourceProbe,
    completed: &[FileRange],
    expected_len: Option<u64>,
) -> (plan: Result<(u64, TransferStep), SchedulerError>)
    requires
        forall|i: int| 0 <= i < completed@.len() ==> (#[trigger] completed@[i]).wf(),
    ensures
        plan == transfer_plan(
            cancelled,
            probe.spec_mode(),
            probe.spec_size(),
            strong_identity(probe.spec_validators()),
            completed@,
            expected_len,
        ),
{
    if cancelled {
        return Err(SchedulerError::Cancelled);
    }
    let baseline = match completed_bytes(completed) {
        Some(n) => n,
        None => return Err(SchedulerError::InvalidCompletedCoverage),
    };
    if baseline > 0 && !probe.validators().has_strong_identity() {
        return Err(SchedulerError::InvalidCompletedCoverage);
    }
    let size = probe.size();
    match probe.mode() {
        ProbeMode::Segmented => {
            let total = match size {
                Some(total) => total,
                None => return Err(SchedulerError::ProbeStorageMismatch),
            };
            let same_len = match expected_len {
                Some(len) => len == total,
                None => false,
            };
            if total == 0 || !same_len || baseline > total {
                return Err(SchedulerError::ProbeStorageMismatch);
            }
            Ok((baseline, TransferStep::Segmented { total }))
        }
        ProbeMode::SingleStream(_) => {
            let same_len = match (expected_len, size) {
                (Some(a), Some(b)) => a == b,
                (None, None) => true,
                _ => false,
            };
            let beyond = match size {
                Some(total) => baseline > total,
                None => false,
            };
            if !same_len || beyond {
                return Err(SchedulerError::ProbeStorageMismatch);
            }
            Ok((baseline, TransferStep::Single { size }))
        }
        ProbeMode::Empty => {
            let empty_size = match size {
                Some(n) => n == 0,
                None => false,
            };
            let empty_len = match expected_len {
                Some(n) => n == 0,
                None => false,
            };
            if !empty_size || !empty_len || baseline != 0 {
                return Err(SchedulerError::ProbeStorageMismatch);
            }
            Ok((0, TransferStep::Empty))
        }
    }
}

} // verus!

verus! {

/// Ranged work of a segmented transfer: the gaps still missing and the
/// request chunk size.
#[derive(Debug)]
pub struct SegmentPlan {
    /// Canonical missing ranges, in order.
    pub missing: Vec<FileRange>,
    /// Bytes per ranged request.
    pub chunk_size: u64,
}

/// Whether `missing` is the canonical set of gaps that `completed` leaves in
/// `0..total`.
pub open spec fn gaps_of(missing: Seq<FileRange>, completed: Seq<FileRange>, total: int) -> bool {
    &&& canonical_within(missing, total)
    &&& forall|b: int| covers(missing, b) <==> is_missing(completed, total, b)
}

/// Plans a segmented transfer of `total` bytes over durable coverage
/// `completed`: `None` when nothing is missing, otherwise the gaps and a
/// chunk size that splits them evenly across the workers.
///
/// Fails with `InvalidCompletedCoverage` exactly when the coverage is not
/// canonical within `0..total` (or has more than 8,192 ranges), and with
/// `RequestPlanTooLarge` when the gaps would need more than one million
/// requests.
pub fn plan_segments(total: u64, completed: &[FileRange], workers: WorkerCount) -> (plan: Result<Option<SegmentPlan>, SchedulerError>)
    requires
        forall|i: int| 0 <= i < completed@.len() ==> (#[trigger] completed@[i]).wf(),
    ensures
        plan matches Err(SchedulerError::InvalidCompletedCoverage) <==> !(completed@.len() <= MAX_COMPLETED_RANGES
            && canonical_within(completed@, total as int)),
        plan matches Ok(None) <==> (completed@.len() <= MAX_COMPLETED_RANGES && canonical_within(completed@, total as int)
            && forall|b: int| !is_missing(completed@, total as int, b)),
        plan matches Ok(Some(p)) ==> gaps_of(p.missing@, completed@, total as int)
            && p.missing@.len() > 0
            && p.chunk_size == planned_chunk_size(total_len(p.missing@), workers.count() as int)
            && request_count(p.missing@, p.chunk_size as int) <= MAX_RANGE_REQUESTS,
        plan matches Err(e) ==> e == SchedulerError::InvalidCompletedCoverage || (e == SchedulerError::RequestPlanTooLarge
            && exists|m: Seq<FileRange>| gaps_of(m, completed@, total as int)
                && request_count(m, planned_chunk_size(total_len(m), workers.count() as int)) > MAX_RANGE_REQUESTS),
{
    let missing = match missing_ranges(total, completed) {
        Ok(m) => m,
        Err(e) => return Err(e),
    };
    if missing.len() == 0 {
        proof {
            assert forall|b: int| !is_missing(completed@, total as int, b) by {
                if is_missing(completed@, total as int, b) {
                    assert(covers(missing@, b));
                }
            }
        }
        return Ok(None);
    }
    proof {
        assert(missing@[0].wf());
        assert(missing@[0].contains(missing@[0].start as int));
        assert(covers(missing@, missing@[0].start as int));
        lemma_total_len_bounded(missing@, total as int);
    }
    let missing_bytes = match completed_bytes(missing.as_slice()) {
        Some(n) => n,
        None => return Err(SchedulerError::InvalidCompletedCoverage),
    };
    let chunk_size = request_chunk_size(missing_bytes, workers);
    match validate_request_plan(missing.as_slice(), chunk_size) {
        Ok(()) => {}
        Err(e) => {
            proof {
                assert(gaps_of(missing@, completed@, total as int));
            }
            return Err(e);
        }
    }
    Ok(Some(SegmentPlan { missing, chunk_size }))
}

/// The up-front checks of a sequential transfer: done when durable coverage
/// already holds the whole known-length resource; otherwise no byte may be
/// durable, since the stream starts at byte zero.
pub open spec fn single_plan(total: Option<u64>, completed: Seq<FileRange>) -> Result<bool, SchedulerError> {
    if total matches Some(t) && is_exact_coverage(completed, t as int) {
        Ok(true)
    } else if completed.len() > 0 {
        Err(SchedulerError::ProbeStorageMismatch)
    } else {
        Ok(false)
    }
}

/// Decides whether a sequential transfer is already complete (`true`) or
/// must request the stream from byte zero (`false`).
pub fn plan_single(total: Option<u64>, completed: &[FileRange]) -> (done: Result<bool, SchedulerError>)
    ensures
        done == single_plan(total, completed@),
{
    if let Some(t) = total {
        if has_exact_coverage(completed, t) {
            return Ok(true);
        }
    }
    if completed.len() > 0 {
        Err(SchedulerError::ProbeStorageMismatch)
    } else {
        Ok(false)
    }
}

/// The outcome of a segmented transfer once every worker has stopped:
/// cancellation first, then the first worker error, then the requirement
/// that durable coverage is exactly `0..total`.
pub open spec fn segmented_outcome(
    cancelled: bool,
    first_error: Option<SchedulerError>,
    completed: Seq<FileRange>,
    total: u64,
) -> Result<(), SchedulerError> {
    if cancelled {
        Err(SchedulerError::Cancelled)
    } else {
        match first_error {
            Some(e) => Err(e),
            None => if !is_exact_coverage(completed, total as int) {
                Err(SchedulerError::InvalidCompletedCoverage)
            } else {
                Ok(())
            },
        }
    }
}

/// Settles a segmented transfer after its workers have stopped.
pub fn settle_segmented(
    cancelled: bool,
    first_error: Option<SchedulerError>,
    completed: &[FileRange],
    total: u64,
) -> (result: Result<(), SchedulerError>)
    ensures
        result == segmented_outcome(cancelled, first_error, completed@, total),
{
    if cancelled {
        return Err(SchedulerError::Cancelled);
    }
    if let Some(e) = first_error {
        return Err(e);
    }
    if !has_exact_coverage(completed, total) {
        return Err(SchedulerError::InvalidCompletedCoverage);
    }
    Ok(())
}

} // verus!

verus! {

/// The assignment a ranged worker requests for `range` of a `total`-byte
/// resource: its first and last byte.
pub fn work_assignment(range: FileRange, total: u64) -> (assignment: Result<RangeAssignment, SchedulerError>)
    requires
        range.wf(),
    ensures
        assignment is Ok <==> range.end <= total,
        assignment matches Ok(a) ==> a.spec_start() == range.start && a.spec_end() == range.end - 1
            && a.spec_total() == total,
        assignment matches Err(e) ==> e == SchedulerError::InvalidRange(RangeValidationError::InvalidAssignment),
{
    match RangeAssignment::new(range.start, range.end - 1, total) {
        Ok(a) => Ok(a),
        Err(e) => Err(SchedulerError::InvalidRange(e)),
    }
}

/// The `Range` header value for an assignment: `bytes=first-last`.
pub open spec fn range_request_text(assignment: RangeAssignment) -> Seq<char> {
    seq!['b', 'y', 't', 'e', 's', '='] + decimal(assignment.spec_start() as nat) + seq!['-'] + decimal(
        assignment.spec_end() as nat,
    )
}

/// Builds the `Range` header value requesting exactly an assignment.
pub fn range_request_value(assignment: RangeAssignment) -> (value: String)
    ensures
        value@ == range_request_text(assignment),
{
    let mut chars: Vec<char> = vec!['b', 'y', 't', 'e', 's', '='];
    push_decimal(&mut chars, assignment.start());
    chars.push('-');
    push_decimal(&mut chars, assignment.end());
    proof {
        assert(chars@ =~= range_request_text(assignment));
    }
    string_from_chars(chars.as_slice())
}

/// What a worker's ranged response must prove before its body is read: the
/// URL is still the probe's final URL; the status is `206`, else the status
/// and any retry guidance are the error; then the ranged metadata checks.
/// The value is the response's validators.
pub open spec fn worker_range_check(
    url_matches: bool,
    status: u16,
    fields: Seq<HeaderField>,
    assignment: RangeAssignment,
    expected: Validators,
    now: Instant,
) -> Result<(Option<(bool, Seq<char>)>, Option<Seq<char>>), SchedulerError> {
    if !url_matches {
        Err(SchedulerError::ResponseUrlChanged)
    } else if status != PARTIAL_CONTENT {
        Err(SchedulerError::HttpStatus { status, retry_after_seconds: retry_after_of(fields, now) })
    } else {
        match range_response_check(status, fields, assignment, expected) {
            Err(e) => Err(SchedulerError::InvalidRange(e)),
            Ok(v) => Ok(v),
        }
    }
}

/// Checks a worker's ranged response, received from `response_url`, against
/// its assignment and the probe's final URL and validators.
pub fn check_worker_response(
    response_url: &str,
    expected_url: &str,
    status: u16,
    headers: &ResponseHeaders,
    assignment: RangeAssignment,
    expected_validators: &Validators,
    now: Instant,
) -> (checked: Result<ValidatedRange, SchedulerError>)
    ensures
        checked is Ok <==> worker_range_check(
            response_url@ == expected_url@, status, headers.fields@, assignment, *expected_validators, now) is Ok,
        checked matches Ok(v) ==> v.assignment == assignment && worker_range_check(
            response_url@ == expected_url@, status, headers.fields@, assignment, *expected_validators, now)
            == Ok::<(Option<(bool, Seq<char>)>, Option<Seq<char>>), SchedulerError>(validators_view(v.validators)),
        checked matches Err(e) ==> worker_range_check(
            response_url@ == expected_url@, status, headers.fields@, assignment, *expected_validators, now)
            == Err::<(Option<(bool, Seq<char>)>, Option<Seq<char>>), SchedulerError>(e),
{
    if !same_text(response_url, expected_url) {
        return Err(SchedulerError::ResponseUrlChanged);
    }
    if status != PARTIAL_CONTENT {
        return Err(SchedulerError::HttpStatus { status, retry_after_seconds: retry_after_at(headers, now) });
    }
    match validate_range_response(status, headers, assignment, expected_validators) {
        Ok(v) => Ok(v),
        Err(e) => Err(SchedulerError::InvalidRange(e)),
    }
}

/// Buffer capacity for a ranged body: the assignment's length, which must be
/// addressable in memory.
pub fn range_body_capacity(assignment: RangeAssignment) -> (capacity: Result<usize, SchedulerError>)
    ensures
        capacity is Ok <==> assignment.spec_end() - assignment.spec_start() + 1 <= usize::MAX,
        capacity matches Ok(n) ==> n == assignment.spec_end() - assignment.spec_start() + 1,
        capacity matches Err(e) ==> e == SchedulerError::BodyLengthMismatch,
{
    let len = assignment.len();
    if len > usize::MAX as u64 {
        Err(SchedulerError::BodyLengthMismatch)
    } else {
        Ok(len as usize)
    }
}

/// Bytes of a ranged body after one more chunk; the body may never exceed
/// its capacity.
pub fn range_body_chunk(received: usize, chunk_len: usize, capacity: usize) -> (total: Result<usize, SchedulerError>)
    ensures
        total is Ok <==> received + chunk_len <= capacity,
        total matches Ok(n) ==> n == received + chunk_len,
        total matches Err(e) ==> e == SchedulerError::BodyLengthMismatch,
{
    match received.checked_add(chunk_len) {
        Some(n) => if n > capacity {
            Err(SchedulerError::BodyLengthMismatch)
        } else {
            Ok(n)
        },
        None => Err(SchedulerError::BodyLengthMismatch),
    }
}

/// A ranged body ends exactly at its capacity.
pub fn range_body_finish(received: usize, capacity: usize) -> (finished: Result<(), SchedulerError>)
    ensures
        finished is Ok <==> received == capacity,
        finished matches Err(e) ==> e == SchedulerError::BodyLengthMismatch,
{
    if received != capacity {
        Err(SchedulerError::BodyLengthMismatch)
    } else {
        Ok(())
    }
}

/// What a sequential response must satisfy before its body is written, in
/// order: the URL is still the probe's final URL; the status is `200`, else
/// the status and any retry guidance are the error; identity encoding; a
/// well-formed `Content-Length` that agrees with a known size, or stays
/// within the stream limit when the size is unknown; well-formed validators
/// that return every known validator unchanged. The value is the declared
/// length.
pub open spec fn single_response_check(
    url_matches: bool,
    status: u16,
    fields: Seq<HeaderField>,
    expected_size: Option<u64>,
    expected: Validators,
    stream_limit: u64,
    now: Instant,
) -> Result<Option<u64>, SchedulerError> {
    if !url_matches {
        Err(SchedulerError::ResponseUrlChanged)
    } else if status != OK_STATUS {
        Err(SchedulerError::HttpStatus { status, retry_after_seconds: retry_after_of(fields, now) })
    } else {
        match encoding_check(fields) {
            Err(e) => Err(SchedulerError::InvalidSingleResponse(e)),
            Ok(_) => match optional_u64_of(fields, content_length_name()) {
                Err(e) => Err(SchedulerError::InvalidSingleResponse(e)),
                Ok(declared) => if expected_size is Some && declared is Some && declared != expected_size {
                    Err(SchedulerError::BodyLengthMismatch)
                } else if expected_size is None && declared is Some && declared.unwrap() > stream_limit {
                    Err(SchedulerError::Storage(StorageError::StreamLimitExceeded { limit: stream_limit }))
                } else {
                    match validators_of(fields) {
                        Err(e) => Err(SchedulerError::InvalidSingleResponse(e)),
                        Ok(actual) => match validators_check(validators_view(expected), actual) {
                            Err(e) => Err(SchedulerError::InvalidSingleResponse(e)),
                            Ok(_) => Ok(declared),
                        },
                    }
                },
            },
        }
    }
}

/// Checks a sequential response before its body is written, returning its
/// declared length.
pub fn check_single_response(
    response_url: &str,
    expected_url: &str,
    status: u16,
    headers: &ResponseHeaders,
    expected_size: Option<u64>,
    expected_validators: &Validators,
    stream_limit: u64,
    now: Instant,
) -> (declared: Result<Option<u64>, SchedulerError>)
    ensures
        declared == single_response_check(
            response_url@ == expected_url@,
            status,
            headers.fields@,
            expected_size,
            *expected_validators,
            stream_limit,
            now,
        ),
{
    if !same_text(response_url, expected_url) {
        return Err(SchedulerError::ResponseUrlChanged);
    }
    if status != OK_STATUS {
        return Err(SchedulerError::HttpStatus { status, retry_after_seconds: retry_after_at(headers, now) });
    }
    match reject_unexpected_encoding(headers) {
        Err(e) => return Err(SchedulerError::InvalidSingleResponse(e)),
        Ok(()) => {}
    }
    let declared = match optional_u64_header(headers, content_length_header()) {
        Err(e) => return Err(SchedulerError::InvalidSingleResponse(e)),
        Ok(d) => d,
    };
    match (expected_size, declared) {
        (Some(expected), Some(length)) => {
            if length != expected {
                return Err(SchedulerError::BodyLengthMismatch);
            }
        }
        (None, Some(length)) => {
            if length > stream_limit {
                return Err(SchedulerError::Storage(StorageError::StreamLimitExceeded { limit: stream_limit }));
            }
        }
        _ => {}
    }
    let actual = match parse_validators(headers) {
        Err(e) => return Err(SchedulerError::InvalidSingleResponse(e)),
        Ok(v) => v,
    };
    match validate_expected_validators(expected_validators, &actual) {
        Err(e) => return Err(SchedulerError::InvalidSingleResponse(e)),
        Ok(()) => {}
    }
    Ok(declared)
}

/// A finished sequential body must have exactly the known size, and exactly
/// the declared length.
pub open spec fn single_body_ok(expected_size: Option<u64>, declared: Option<u64>, written: u64) -> bool {
    (expected_size is None || expected_size == Some(written)) && (declared is None || declared == Some(written))
}

/// Checks the length of a finished sequential body.
pub fn check_single_body(expected_size: Option<u64>, declared: Option<u64>, written: u64) -> (checked: Result<(), SchedulerError>)
    ensures
        checked is Ok <==> single_body_ok(expected_size, declared, written),
        checked matches Err(e) ==> e == SchedulerError::BodyLengthMismatch,
{
    let size_ok = match expected_size {
        Some(n) => n == written,
        None => true,
    };
    let declared_ok = match declared {
        Some(n) => n == written,
        None => true,
    };
    if size_ok && declared_ok {
        Ok(())
    } else {
        Err(SchedulerError::BodyLengthMismatch)
    }
}

} // verus!

verus! {

/// Requests a scheduler has in flight across its transfers, and the most it
/// ever had at once.
#[derive(Debug, Clone, Copy, PartialEq, Eq, Structural)]
pub struct RequestCounters {
    pub active: usize,
    pub peak: usize,
}

impl RequestCounters {
    /// No request yet.
    pub fn new() -> (counters: RequestCounters)
        ensures
            counters == (RequestCounters { active: 0, peak: 0 }),
    {
        RequestCounters { active: 0, peak: 0 }
    }

    /// A request began; the peak rises to it when it is a new maximum.
    pub fn begin(&mut self)
        requires
            old(self).active < usize::MAX,
        ensures
            final(self).active == old(self).active + 1,
            final(self).peak == if old(self).active + 1 > old(self).peak { (old(self).active + 1) as usize } else { old(self).peak },
            old(self).active <= old(self).peak ==> final(self).active <= final(self).peak,
    {
        self.active = self.active + 1;
        if self.active > self.peak {
            self.peak = self.active;
        }
    }

    /// A request ended.
    pub fn end(&mut self)
        requires
            old(self).active > 0,
        ensures
            final(self).active == old(self).active - 1,
            final(self).peak == old(self).peak,
            old(self).active <= old(self).peak ==> final(self).active <= final(self).peak,
    {
        self.active = self.active - 1;
    }

    /// Highest simultaneous request count observed.
    pub fn peak_global_requests(&self) -> (peak: usize)
        ensures
            peak == self.peak,
    {
        self.peak
    }
}

} // verus!
