//! Fixed-concurrency transfer scheduling over validated storage ranges:
//! worker and request limits, missing-range planning, bounded chunking and
//! the bookkeeping that decides which attempt may commit a chunk.
use vstd::prelude::*;
use std::collections::{BTreeMap, VecDeque};
use vstd::std_specs::iter::IteratorSpec;
use crate::clock::{Duration, Instant};
use crate::storage::{
    FileRange, StorageError, canonical_within, covers, separated, total_len, lemma_total_len_bounded,
};

verus! {

/// Default fixed worker count for a segmented task.
pub const DEFAULT_WORKERS: u8 = 4;
/// Initial per-task worker cap.
pub const MAX_WORKERS: u8 = 8;
/// Smallest ordinary ranged request produced by the planner.
pub const MIN_REQUEST_BYTES: u64 = 1024 * 1024;
/// Largest ranged response buffered before it can claim storage ownership.
pub const MAX_REQUEST_BYTES: u64 = 8 * 1024 * 1024;
/// Default safety bound for a response with no declared length.
pub const DEFAULT_UNKNOWN_STREAM_LIMIT: u64 = 64 * 1024 * 1024 * 1024;
/// Maximum canonical completed ranges accepted per task.
pub const MAX_COMPLETED_RANGES: usize = 8_192;
/// Largest number of ranged requests one transfer plan may need.
pub const MAX_RANGE_REQUESTS: u64 = 1_000_000;

pub const CHUNKS_PER_WORKER: u64 = 4;
pub const DEFAULT_PER_HOST_LIMIT: usize = 8;
pub const DEFAULT_GLOBAL_LIMIT: usize = 16;
pub const MAX_PER_HOST_LIMIT: usize = 8;
pub const MAX_GLOBAL_LIMIT: usize = 32;
pub const DEFAULT_TAIL_HEDGE_DELAY_NANOS: u128 = 250_000_000;
pub const MIN_TAIL_HEDGE_DELAY_NANOS: u128 = 10_000_000;
pub const MAX_TAIL_HEDGE_DELAY_NANOS: u128 = 30_000_000_000;
pub const MAX_UNKNOWN_STREAM_LIMIT: u64 = 16 * 1024 * 1024 * 1024 * 1024;

/// Supported fixed worker counts.
#[derive(Debug, Clone, Copy, PartialEq, Eq, Structural)]
pub enum WorkerCount {
    /// One worker.
    One,
    /// Two workers.
    Two,
    /// Four workers (the default).
    Four,
    /// Eight workers (the initial maximum).
    Eight,
}

impl WorkerCount {
    /// The number of workers a setting stands for.
    pub open spec fn count(self) -> u8 {
        match self {
            WorkerCount::One => 1,
            WorkerCount::Two => 2,
            WorkerCount::Four => 4,
            WorkerCount::Eight => 8,
        }
    }

    /// Number of workers represented by this setting.
    pub fn get(self) -> (n: u8)
        ensures
            n == self.count(),
    {
        match self {
            WorkerCount::One => 1,
            WorkerCount::Two => 2,
            WorkerCount::Four => 4,
            WorkerCount::Eight => 8,
        }
    }

    /// Accepts exactly 1, 2, 4 or 8.
    pub fn try_from(value: u8) -> (count: Result<WorkerCount, SchedulerConfigError>)
        ensures
            count is Ok <==> (value == 1 || value == 2 || value == 4 || value == 8),
            count matches Ok(c) ==> c.count() == value,
            count matches Err(e) ==> e == SchedulerConfigError::InvalidWorkerCount,
    {
        match value {
            1 => Ok(WorkerCount::One),
            2 => Ok(WorkerCount::Two),
            4 => Ok(WorkerCount::Four),
            8 => Ok(WorkerCount::Eight),
            _ => Err(SchedulerConfigError::InvalidWorkerCount),
        }
    }
}

impl Default for WorkerCount {
    /// Four workers.
    fn default() -> (count: Self)
        ensures
            count == WorkerCount::Four,
    {
        WorkerCount::Four
    }
}

/// Safe scheduler configuration failures.
#[derive(Debug, Clone, Copy, PartialEq, Eq, Structural)]
pub enum SchedulerConfigError {
    /// Worker count was not 1, 2, 4, or 8.
    InvalidWorkerCount,
    /// Host/global request limits were zero or above their caps.
    InvalidConcurrencyLimits,
    /// Tail hedge delay was too short or too long.
    InvalidHedgeDelay,
    /// Unknown-length response bound was zero or too large.
    InvalidUnknownStreamLimit,
}

/// Independently bounded host and process request concurrency.
#[derive(Debug, Clone, Copy, PartialEq, Eq, Structural)]
pub struct ConcurrencyLimits {
    per_host: usize,
    global: usize,
}

impl ConcurrencyLimits {
    #[verifier::type_invariant]
    spec fn bounded(self) -> bool {
        1 <= self.per_host <= MAX_PER_HOST_LIMIT && 1 <= self.global <= MAX_GLOBAL_LIMIT
    }

    /// Maximum simultaneous requests to one URL origin.
    pub closed spec fn spec_per_host(self) -> usize {
        self.per_host
    }

    /// Maximum simultaneous requests across the scheduler.
    pub closed spec fn spec_global(self) -> usize {
        self.global
    }

    /// Constructs bounded nonzero request limits; rejects zero, a per-host
    /// limit above 8, or a global limit above 32.
    pub fn new(per_host: usize, global: usize) -> (limits: Result<ConcurrencyLimits, SchedulerConfigError>)
        ensures
            limits is Ok <==> (1 <= per_host <= 8 && 1 <= global <= 32),
            limits matches Ok(l) ==> l.spec_per_host() == per_host && l.spec_global() == global,
            limits matches Err(e) ==> e == SchedulerConfigError::InvalidConcurrencyLimits,
    {
        if per_host == 0 || global == 0 || per_host > MAX_PER_HOST_LIMIT || global > MAX_GLOBAL_LIMIT {
            return Err(SchedulerConfigError::InvalidConcurrencyLimits);
        }
        Ok(ConcurrencyLimits { per_host, global })
    }

    /// Maximum simultaneous requests to one URL origin.
    pub fn per_host(self) -> (n: usize)
        ensures
            n == self.spec_per_host(),
            1 <= n <= 8,
    {
        proof { use_type_invariant(&self); }
        self.per_host
    }

    /// Maximum simultaneous requests across this scheduler.
    pub fn global(self) -> (n: usize)
        ensures
            n == self.spec_global(),
            1 <= n <= 32,
    {
        proof { use_type_invariant(&self); }
        self.global
    }
}

impl Default for ConcurrencyLimits {
    /// Eight requests per origin and sixteen overall.
    fn default() -> (limits: Self)
        ensures
            limits.spec_per_host() == 8,
            limits.spec_global() == 16,
    {
        ConcurrencyLimits { per_host: DEFAULT_PER_HOST_LIMIT, global: DEFAULT_GLOBAL_LIMIT }
    }
}

/// Validated scheduler construction options.
#[derive(Debug, Clone, Copy, PartialEq, Eq, Structural)]
pub struct SchedulerOptions {
    limits: ConcurrencyLimits,
    tail_hedge_delay: Duration,
    unknown_stream_limit: u64,
}

impl SchedulerOptions {
    #[verifier::type_invariant]
    spec fn bounded(self) -> bool {
        &&& MIN_TAIL_HEDGE_DELAY_NANOS <= self.tail_hedge_delay.nanos <= MAX_TAIL_HEDGE_DELAY_NANOS
        &&& 1 <= self.unknown_stream_limit <= MAX_UNKNOWN_STREAM_LIMIT
    }

    pub closed spec fn spec_limits(self) -> ConcurrencyLimits {
        self.limits
    }

    pub closed spec fn spec_tail_hedge_delay(self) -> Duration {
        self.tail_hedge_delay
    }

    pub closed spec fn spec_unknown_stream_limit(self) -> u64 {
        self.unknown_stream_limit
    }

    /// Creates scheduler options with explicit bounds; rejects hedge delays
    /// outside 10 ms through 30 seconds and unknown-body limits outside 1 byte
    /// through 16 TiB.
    pub fn new(limits: ConcurrencyLimits, tail_hedge_delay: Duration, unknown_stream_limit: u64) -> (options: Result<SchedulerOptions, SchedulerConfigError>)
        ensures
            !(MIN_TAIL_HEDGE_DELAY_NANOS <= tail_hedge_delay.nanos <= MAX_TAIL_HEDGE_DELAY_NANOS)
                ==> options == Err::<SchedulerOptions, SchedulerConfigError>(SchedulerConfigError::InvalidHedgeDelay),
            (MIN_TAIL_HEDGE_DELAY_NANOS <= tail_hedge_delay.nanos <= MAX_TAIL_HEDGE_DELAY_NANOS
                && !(1 <= unknown_stream_limit <= MAX_UNKNOWN_STREAM_LIMIT))
                ==> options == Err::<SchedulerOptions, SchedulerConfigError>(SchedulerConfigError::InvalidUnknownStreamLimit),
            options is Ok <==> (MIN_TAIL_HEDGE_DELAY_NANOS <= tail_hedge_delay.nanos <= MAX_TAIL_HEDGE_DELAY_NANOS
                && 1 <= unknown_stream_limit <= MAX_UNKNOWN_STREAM_LIMIT),
            options matches Ok(o) ==> o.spec_limits() == limits && o.spec_tail_hedge_delay() == tail_hedge_delay
                && o.spec_unknown_stream_limit() == unknown_stream_limit,
    {
        if tail_hedge_delay.nanos < MIN_TAIL_HEDGE_DELAY_NANOS || tail_hedge_delay.nanos > MAX_TAIL_HEDGE_DELAY_NANOS {
            return Err(SchedulerConfigError::InvalidHedgeDelay);
        }
        if unknown_stream_limit == 0 || unknown_stream_limit > MAX_UNKNOWN_STREAM_LIMIT {
            return Err(SchedulerConfigError::InvalidUnknownStreamLimit);
        }
        Ok(SchedulerOptions { limits, tail_hedge_delay, unknown_stream_limit })
    }

    /// Independent request concurrency limits.
    pub fn limits(self) -> (limits: ConcurrencyLimits)
        ensures
            limits == self.spec_limits(),
    {
        self.limits
    }

    /// Delay before an idle worker may hedge the sole slow tail.
    pub fn tail_hedge_delay(self) -> (delay: Duration)
        ensures
            delay == self.spec_tail_hedge_delay(),
            MIN_TAIL_HEDGE_DELAY_NANOS <= delay.nanos <= MAX_TAIL_HEDGE_DELAY_NANOS,
    {
        proof { use_type_invariant(&self); }
        self.tail_hedge_delay
    }

    /// Maximum bytes accepted from an undeclared-length response.
    pub fn unknown_stream_limit(self) -> (limit: u64)
        ensures
            limit == self.spec_unknown_stream_limit(),
            1 <= limit <= MAX_UNKNOWN_STREAM_LIMIT,
    {
        proof { use_type_invariant(&self); }
        self.unknown_stream_limit
    }
}

impl Default for SchedulerOptions {
    /// Default limits, a 250 ms tail hedge and a 64 GiB unknown-length bound.
    fn default() -> (options: Self)
        ensures
            options.spec_limits().spec_per_host() == 8,
            options.spec_limits().spec_global() == 16,
            options.spec_tail_hedge_delay().nanos == DEFAULT_TAIL_HEDGE_DELAY_NANOS,
            options.spec_unknown_stream_limit() == DEFAULT_UNKNOWN_STREAM_LIMIT,
    {
        SchedulerOptions {
            limits: ConcurrencyLimits::default(),
            tail_hedge_delay: Duration { nanos: DEFAULT_TAIL_HEDGE_DELAY_NANOS },
            unknown_stream_limit: DEFAULT_UNKNOWN_STREAM_LIMIT,
        }
    }
}

} // verus!

verus! {

/// Path-free transfer failures.
#[derive(Debug, Clone, Copy, PartialEq, Eq, Structural)]
pub enum SchedulerError {
    /// The conservatively configured HTTP client could not be built.
    ClientSetup,
    /// Probe mode/size and storage shape disagree.
    ProbeStorageMismatch,
    /// The final probe URL changed during a worker request.
    ResponseUrlChanged,
    /// Sending or streaming an HTTP request failed.
    Request,
    /// A worker received a status that cannot provide assigned bytes.
    HttpStatus { status: u16, retry_after_seconds: Option<u64> },
    /// Ranged response metadata did not prove the assignment.
    InvalidRange(crate::network::RangeValidationError),
    /// A sequential response had invalid encoding, singleton headers, or validators.
    InvalidSingleResponse(crate::network::RangeValidationError),
    /// Response EOF did not occur at the exact accepted byte boundary.
    BodyLengthMismatch,
    /// Missing-range metadata was not canonical or in bounds.
    InvalidCompletedCoverage,
    /// A known-size transfer would require too many bounded requests.
    RequestPlanTooLarge,
    /// Storage rejected assignment, writes, sealing, or publication state.
    Storage(StorageError),
    /// An internal worker task ended unexpectedly.
    WorkerJoin,
    /// Cooperative pause/cancel control stopped network work safely.
    Cancelled,
    /// Internal bounded coordination state was exhausted.
    Coordination,
}

proof fn lemma_covers_extend(s: Seq<FileRange>, i: int, b: int)
    requires
        0 <= i < s.len(),
    ensures
        covers(s.take(i + 1), b) <==> (covers(s.take(i), b) || s[i].contains(b)),
{
    if covers(s.take(i + 1), b) {
        let k = choose|k: int| 0 <= k < s.take(i + 1).len() && #[trigger] s.take(i + 1)[k].contains(b);
        if k < i {
            assert(s.take(i)[k] == s[k]);
        }
    }
    if covers(s.take(i), b) {
        let k = choose|k: int| 0 <= k < s.take(i).len() && #[trigger] s.take(i)[k].contains(b);
        assert(s.take(i + 1)[k] == s.take(i)[k]);
    }
    if s[i].contains(b) {
        assert(s.take(i + 1)[i] == s[i]);
    }
}

proof fn lemma_covers_push(s: Seq<FileRange>, r: FileRange, b: int)
    ensures
        covers(s.push(r), b) <==> (covers(s, b) || r.contains(b)),
{
    if covers(s.push(r), b) {
        let k = choose|k: int| 0 <= k < s.push(r).len() && #[trigger] s.push(r)[k].contains(b);
        if k < s.len() {
            assert(s[k] == s.push(r)[k]);
        }
    }
    if covers(s, b) {
        let k = choose|k: int| 0 <= k < s.len() && #[trigger] s[k].contains(b);
        assert(s.push(r)[k] == s[k]);
    }
    if r.contains(b) {
        assert(s.push(r)[s.len() as int] == r);
    }
}

/// The bytes of `0..total` that completed coverage does not hold.
pub open spec fn is_missing(completed: Seq<FileRange>, total: int, b: int) -> bool {
    0 <= b < total && !covers(completed, b)
}

/// Plans the gaps of `0..total` left by canonical completed coverage.
///
/// Fails with `InvalidCompletedCoverage` when there are more than 8,192
/// ranges, or they are not canonical within `0..total`. Otherwise the result
/// is canonical, and every byte of the resource lies in exactly one of the
/// completed and the missing ranges.
pub fn missing_ranges(total: u64, completed: &[FileRange]) -> (result: Result<Vec<FileRange>, SchedulerError>)
    requires
        forall|i: int| 0 <= i < completed@.len() ==> (#[trigger] completed@[i]).wf(),
    ensures
        result is Ok <==> (completed@.len() <= MAX_COMPLETED_RANGES && canonical_within(completed@, total as int)),
        result matches Err(e) ==> e == SchedulerError::InvalidCompletedCoverage,
        result matches Ok(missing) ==> canonical_within(missing@, total as int)
            && forall|b: int| covers(missing@, b) <==> is_missing(completed@, total as int, b),
{
    if completed.len() > MAX_COMPLETED_RANGES {
        return Err(SchedulerError::InvalidCompletedCoverage);
    }
    if total == 0 {
        if completed.len() == 0 {
            let empty: Vec<FileRange> = Vec::new();
            proof {
                assert forall|b: int| covers(empty@, b) <==> is_missing(completed@, 0, b) by {}
            }
            return Ok(empty);
        } else {
            proof {
                assert(completed@[0].wf());
            }
            return Err(SchedulerError::InvalidCompletedCoverage);
        }
    }
    let mut missing: Vec<FileRange> = Vec::new();
    let mut cursor: u64 = 0;
    let mut index: usize = 0;
    while index < completed.len()
        invariant
            0 <= index <= completed@.len(),
            forall|i: int| 0 <= i < completed@.len() ==> (#[trigger] completed@[i]).wf(),
            canonical_within(completed@.take(index as int), total as int),
            index == 0 ==> cursor == 0,
            index > 0 ==> cursor == completed@[index - 1].end,
            cursor <= total,
            canonical_within(missing@, cursor as int),
            missing@.len() > 0 ==> missing@.last().end < cursor,
            forall|b: int| covers(missing@, b) <==> (0 <= b < cursor && !covers(completed@.take(index as int), b)),
            forall|b: int| covers(completed@.take(index as int), b) ==> b < cursor,
        decreases completed@.len() - index,
    {
        let range = completed[index];
        if (index > 0 && range.start <= cursor) || range.end > total {
            proof {
                assert(completed@[index as int] == range);
                if range.end <= total {
                    assert(completed@[index - 1].end >= completed@[index as int].start);
                }
            }
            return Err(SchedulerError::InvalidCompletedCoverage);
        }
        let ghost prior = missing@;
        if range.start > cursor {
            let gap = FileRange { start: cursor, end: range.start };
            missing.push(gap);
            proof {
                assert forall|b: int| covers(missing@, b) <==> (covers(prior, b) || gap.contains(b)) by {
                    lemma_covers_push(prior, gap, b);
                }
                assert forall|p: int, q: int| 0 <= p < q < missing@.len() implies #[trigger] missing@[p].end < #[trigger] missing@[q].start by {
                    if q < prior.len() {
                        assert(missing@[p] == prior[p] && missing@[q] == prior[q]);
                    } else {
                        assert(missing@[p] == prior[p]);
                        if p < prior.len() - 1 {
                            assert(prior[p].end < prior.last().start);
                            assert(prior.last().wf());
                        }
                    }
                }
                assert forall|p: int| 0 <= p < missing@.len() implies (#[trigger] missing@[p]).wf() && missing@[p].end <= range.end by {
                    if p < prior.len() {
                        assert(missing@[p] == prior[p]);
                    }
                }
            }
        }
        proof {
            lemma_take_canonical_extend(completed@, index as int, total as int);
            assert forall|b: int| covers(completed@.take(index + 1), b) <==> (covers(completed@.take(index as int), b) || range.contains(b)) by {
                lemma_covers_extend(completed@, index as int, b);
            }
            assert forall|p: int| 0 <= p < missing@.len() implies (#[trigger] missing@[p]).wf() && missing@[p].end <= range.end by {
                if range.start <= cursor {
                    assert(missing@[p] == prior[p]);
                }
            }
        }
        let ghost old_cursor = cursor;
        cursor = range.end;
        index += 1;
        proof {
            assert forall|b: int| covers(missing@, b) <==> (0 <= b < cursor && !covers(completed@.take(index as int), b)) by {
                lemma_covers_extend(completed@, index - 1, b);
                if range.start > old_cursor {
                    lemma_covers_push(prior, FileRange { start: old_cursor, end: range.start }, b);
                }
                if b < old_cursor && index > 1 {
                    assert(completed@[index - 2].end < completed@[index - 1].start);
                }
            }
            assert forall|b: int| covers(completed@.take(index as int), b) implies b < cursor by {
                lemma_covers_extend(completed@, index - 1, b);
                if index > 1 {
                    assert(completed@[index - 2].end < completed@[index - 1].start);
                }
            }
        }
    }
    let ghost prior = missing@;
    if cursor < total {
        let tail = FileRange { start: cursor, end: total };
        missing.push(tail);
        proof {
            assert forall|b: int| covers(missing@, b) <==> (covers(prior, b) || tail.contains(b)) by {
                lemma_covers_push(prior, tail, b);
            }
            assert forall|p: int, q: int| 0 <= p < q < missing@.len() implies #[trigger] missing@[p].end < #[trigger] missing@[q].start by {
                if q < prior.len() {
                    assert(missing@[p] == prior[p] && missing@[q] == prior[q]);
                } else {
                    assert(missing@[p] == prior[p]);
                    if p < prior.len() - 1 {
                        assert(prior[p].end < prior.last().start);
                        assert(prior.last().wf());
                    }
                }
            }
            assert forall|p: int| 0 <= p < missing@.len() implies (#[trigger] missing@[p]).wf() && missing@[p].end <= total by {
                if p < prior.len() {
                    assert(missing@[p] == prior[p]);
                }
            }
        }
    }
    proof {
        assert(completed@.take(completed@.len() as int) =~= completed@);
        assert forall|b: int| covers(missing@, b) <==> is_missing(completed@, total as int, b) by {
            if cursor < total {
                lemma_covers_push(prior, FileRange { start: cursor, end: total }, b);
            }
        }
    }
    Ok(missing)
}

proof fn lemma_take_canonical_extend(s: Seq<FileRange>, i: int, limit: int)
    requires
        0 <= i < s.len(),
        canonical_within(s.take(i), limit),
        s[i].wf(),
        s[i].end <= limit,
        i > 0 ==> s[i - 1].end < s[i].start,
    ensures
        canonical_within(s.take(i + 1), limit),
{
    let next = s.take(i + 1);
    assert forall|p: int, q: int| 0 <= p < q < next.len() implies #[trigger] next[p].end < #[trigger] next[q].start by {
        assert(next[p] == s.take(i)[p] || p == i);
        if q < i {
            assert(next[q] == s.take(i)[q]);
        } else if p < i - 1 {
            assert(s.take(i)[p].end < s.take(i)[i - 1].start);
            assert(s.take(i)[i - 1].wf());
        }
    }
    assert forall|p: int| 0 <= p < next.len() implies (#[trigger] next[p]).wf() && next[p].end <= limit by {
        if p < i {
            assert(next[p] == s.take(i)[p]);
        }
    }
}

} // verus!

verus! {

/// The first chunk taken from a gap: at most `chunk_size` bytes from its start.
pub open spec fn chunk_end(gap: FileRange, chunk_size: int) -> int {
    if gap.start + chunk_size < gap.end { gap.start + chunk_size } else { gap.end as int }
}

/// Takes the next bounded chunk from the front gap of `pending`, returning any
/// unclaimed remainder of that gap to the front.
///
/// An empty queue yields `Ok(None)`. A zero chunk size cannot form a range:
/// the front gap is consumed and `Coordination` is returned.
pub fn pop_chunk(pending: &mut VecDeque<FileRange>, chunk_size: u64) -> (result: Result<Option<FileRange>, SchedulerError>)
    requires
        forall|i: int| 0 <= i < old(pending)@.len() ==> (#[trigger] old(pending)@[i]).wf(),
    ensures
        old(pending)@.len() == 0 ==> result == Ok::<Option<FileRange>, SchedulerError>(None) && final(pending)@ == old(pending)@,
        old(pending)@.len() > 0 && chunk_size == 0 ==> result == Err::<Option<FileRange>, SchedulerError>(SchedulerError::Coordination)
            && final(pending)@ == old(pending)@.drop_first(),
        old(pending)@.len() > 0 && chunk_size > 0 ==> ({
            let gap = old(pending)@[0];
            let end = chunk_end(gap, chunk_size as int);
            &&& result == Ok::<Option<FileRange>, SchedulerError>(Some(FileRange { start: gap.start, end: end as u64 }))
            &&& final(pending)@ == if end < gap.end {
                    seq![FileRange { start: end as u64, end: gap.end }] + old(pending)@.drop_first()
                } else {
                    old(pending)@.drop_first()
                }
        }),
{
    let gap = match pending.pop_front() {
        Some(gap) => gap,
        None => return Ok(None),
    };
    let end = if gap.start.saturating_add(chunk_size) < gap.end {
        gap.start.saturating_add(chunk_size)
    } else {
        gap.end
    };
    let chunk = match FileRange::new(gap.start, end) {
        Ok(chunk) => chunk,
        Err(_) => return Err(SchedulerError::Coordination),
    };
    if end < gap.end {
        let rest = match FileRange::new(end, gap.end) {
            Ok(rest) => rest,
            Err(_) => return Err(SchedulerError::Coordination),
        };
        pending.push_front(rest);
    }
    Ok(Some(chunk))
}

/// Ranged requests one gap needs at a given chunk size.
pub open spec fn chunks_for(range: FileRange, chunk_size: int) -> int {
    (range.end - range.start - 1) / chunk_size + 1
}

/// Ranged requests all gaps need at a given chunk size.
pub open spec fn request_count(ranges: Seq<FileRange>, chunk_size: int) -> int
    decreases ranges.len(),
{
    if ranges.len() == 0 {
        0
    } else {
        request_count(ranges.drop_last(), chunk_size) + chunks_for(ranges.last(), chunk_size)
    }
}

proof fn lemma_request_count_prefix(ranges: Seq<FileRange>, chunk_size: int, i: int)
    requires
        0 <= i <= ranges.len(),
        chunk_size > 0,
        forall|k: int| 0 <= k < ranges.len() ==> (#[trigger] ranges[k]).wf(),
    ensures
        request_count(ranges.take(i), chunk_size) <= request_count(ranges, chunk_size),
        request_count(ranges.take(i), chunk_size) >= 0,
    decreases ranges.len(),
{
    if i == ranges.len() {
        assert(ranges.take(i) =~= ranges);
        lemma_request_count_nonnegative(ranges, chunk_size);
    } else {
        let shorter = ranges.drop_last();
        assert(shorter.take(i) =~= ranges.take(i));
        assert forall|k: int| 0 <= k < shorter.len() implies (#[trigger] shorter[k]).wf() by {
            assert(shorter[k] == ranges[k]);
        }
        lemma_request_count_prefix(shorter, chunk_size, i);
        assert(ranges.last().wf());
        assert((ranges.last().end - ranges.last().start - 1) / chunk_size >= 0) by (nonlinear_arith)
            requires ranges.last().end - ranges.last().start - 1 >= 0, chunk_size > 0;
    }
}

proof fn lemma_request_count_nonnegative(ranges: Seq<FileRange>, chunk_size: int)
    requires
        chunk_size > 0,
        forall|k: int| 0 <= k < ranges.len() ==> (#[trigger] ranges[k]).wf(),
    ensures
        request_count(ranges, chunk_size) >= 0,
    decreases ranges.len(),
{
    if ranges.len() > 0 {
        let shorter = ranges.drop_last();
        assert forall|k: int| 0 <= k < shorter.len() implies (#[trigger] shorter[k]).wf() by {
            assert(shorter[k] == ranges[k]);
        }
        lemma_request_count_nonnegative(shorter, chunk_size);
        assert(ranges.last().wf());
        assert((ranges.last().end - ranges.last().start - 1) / chunk_size >= 0) by (nonlinear_arith)
            requires ranges.last().end - ranges.last().start - 1 >= 0, chunk_size > 0;
    }
}

/// Rejects a plan needing more than one million ranged requests.
pub fn validate_request_plan(missing: &[FileRange], chunk_size: u64) -> (result: Result<(), SchedulerError>)
    requires
        chunk_size > 0,
        forall|i: int| 0 <= i < missing@.len() ==> (#[trigger] missing@[i]).wf(),
    ensures
        result is Ok <==> request_count(missing@, chunk_size as int) <= MAX_RANGE_REQUESTS,
        result matches Err(e) ==> e == SchedulerError::RequestPlanTooLarge,
{
    let mut count: u64 = 0;
    let mut index: usize = 0;
    while index < missing.len()
        invariant
            0 <= index <= missing@.len(),
            chunk_size > 0,
            forall|i: int| 0 <= i < missing@.len() ==> (#[trigger] missing@[i]).wf(),
            count == request_count(missing@.take(index as int), chunk_size as int),
        decreases missing@.len() - index,
    {
        let range = missing[index];
        proof {
            assert(missing@.take(index + 1).drop_last() =~= missing@.take(index as int));
            assert(missing@[index as int].wf());
        }
        let chunks = (range.end - range.start - 1) / chunk_size + 1;
        count = match count.checked_add(chunks) {
            Some(total) => total,
            None => {
                proof {
                    lemma_request_count_prefix(missing@, chunk_size as int, index + 1);
                }
                return Err(SchedulerError::RequestPlanTooLarge);
            }
        };
        index += 1;
    }
    proof {
        assert(missing@.take(missing@.len() as int) =~= missing@);
    }
    if count > MAX_RANGE_REQUESTS {
        return Err(SchedulerError::RequestPlanTooLarge);
    }
    Ok(())
}

/// The request chunk size for a number of missing bytes: an even split into
/// four chunks per worker, rounded up, clamped to 1 MiB through 8 MiB.
pub open spec fn planned_chunk_size(missing_bytes: int, workers: int) -> int {
    let desired = workers * CHUNKS_PER_WORKER;
    let padded = if missing_bytes + desired - 1 > u64::MAX { u64::MAX as int } else { missing_bytes + desired - 1 };
    let ideal = padded / desired;
    if ideal < MIN_REQUEST_BYTES { MIN_REQUEST_BYTES as int } else if ideal > MAX_REQUEST_BYTES { MAX_REQUEST_BYTES as int } else { ideal }
}

/// The chunk size is the least one with which four requests per worker
/// cover every missing byte, unless that lies outside 1 MiB through 8 MiB,
/// where it is held at the nearer bound: below 8 MiB the requests cover the
/// missing bytes, and above 1 MiB one byte less per request would not.
pub proof fn lemma_chunk_size_splits_work(missing_bytes: u64, workers: WorkerCount)
    ensures
        MIN_REQUEST_BYTES <= planned_chunk_size(missing_bytes as int, workers.count() as int) <= MAX_REQUEST_BYTES,
        planned_chunk_size(missing_bytes as int, workers.count() as int) == MAX_REQUEST_BYTES
            || planned_chunk_size(missing_bytes as int, workers.count() as int) * (4 * workers.count()) >= missing_bytes,
        planned_chunk_size(missing_bytes as int, workers.count() as int) == MIN_REQUEST_BYTES
            || (planned_chunk_size(missing_bytes as int, workers.count() as int) - 1) * (4 * workers.count()) < missing_bytes,
{
    let m = missing_bytes as int;
    let n = workers.count() as int;
    let d = n * CHUNKS_PER_WORKER;
    assert(d == 4 * n);
    assert(d == 4 || d == 8 || d == 16 || d == 32);
    let padded = if m + d - 1 > u64::MAX { u64::MAX as int } else { m + d - 1 };
    let ideal = padded / d;
    assert(ideal * d <= padded < ideal * d + d) by (nonlinear_arith)
        requires
            d > 0,
            padded >= 0,
            ideal == padded / d,
    ;
    let size = planned_chunk_size(m, n);
    if MIN_REQUEST_BYTES < size < MAX_REQUEST_BYTES {
        assert(size == ideal);
    }
    assert(size == MAX_REQUEST_BYTES || size * d >= m) by (nonlinear_arith)
        requires
            size == MAX_REQUEST_BYTES || size >= ideal,
            size == MAX_REQUEST_BYTES || padded == m + d - 1,
            ideal * d <= padded < ideal * d + d,
            d > 0,
            size >= 0,
    ;
    assert(size == MIN_REQUEST_BYTES || (size - 1) * d < m) by (nonlinear_arith)
        requires
            size == MIN_REQUEST_BYTES || size <= ideal,
            ideal * d <= padded,
            padded <= m + d - 1,
            d > 0,
    ;
}

/// Chunk size that splits the missing bytes evenly across four chunks per
/// worker, bounded to 1 MiB through 8 MiB.
pub fn request_chunk_size(missing_bytes: u64, workers: WorkerCount) -> (size: u64)
    ensures
        size == planned_chunk_size(missing_bytes as int, workers.count() as int),
        MIN_REQUEST_BYTES <= size <= MAX_REQUEST_BYTES,
        size == MAX_REQUEST_BYTES || size * (4 * workers.count()) >= missing_bytes,
        size == MIN_REQUEST_BYTES || (size - 1) * (4 * workers.count()) < missing_bytes,
{
    proof {
        lemma_chunk_size_splits_work(missing_bytes, workers);
    }
    let desired_chunks = workers.get() as u64 * CHUNKS_PER_WORKER;
    let ideal = missing_bytes.saturating_add(desired_chunks - 1) / desired_chunks;
    if ideal < MIN_REQUEST_BYTES {
        MIN_REQUEST_BYTES
    } else if ideal > MAX_REQUEST_BYTES {
        MAX_REQUEST_BYTES
    } else {
        ideal
    }
}

} // verus!

verus! {

/// One unit of ranged work handed to a worker.
#[derive(Debug, Clone, Copy, PartialEq, Eq, Structural)]
pub struct Work {
    /// Chunk identifier shared by a chunk's original and hedged attempts.
    pub id: u64,
    /// Bytes the attempt must fetch.
    pub range: FileRange,
    /// Whether this is the single duplicate attempt for a slow tail chunk.
    pub hedged: bool,
}

/// Whether a chunk's bytes are still being fetched or one attempt owns the
/// commit.
#[derive(Debug, Clone, Copy, PartialEq, Eq, Structural)]
pub enum ChunkPhase {
    InFlight,
    Committing,
}

/// Bookkeeping for one chunk that left the pending queue.
#[derive(Debug, Clone, Copy, PartialEq, Eq, Structural)]
pub struct ChunkState {
    pub range: FileRange,
    pub phase: ChunkPhase,
    /// Attempts ever started: the original, then at most one hedge.
    pub attempts_started: u8,
    /// Attempts still running.
    pub active_attempts: u8,
    /// When the original attempt started.
    pub first_started: Instant,
}

/// What a worker should do next.
#[derive(Debug, Clone, Copy, PartialEq, Eq, Structural)]
pub enum NextWork {
    /// No more work for this transfer (finished, aborted or cancelled).
    Stop,
    /// Fetch this work.
    Assign(Work),
    /// Nothing to hand out yet: wait for a change, or at most this long
    /// before asking again.
    Wait(Option<Duration>),
}

/// Whether some in-flight chunk holds byte `b`.
pub open spec fn in_flight_covers(chunks: Map<u64, ChunkState>, b: int) -> bool {
    exists|id: u64| #[trigger] chunks.contains_key(id) && chunks[id].range.contains(b)
}

/// Shared chunk bookkeeping of one transfer: pending gaps, chunks in flight
/// by identifier, the next identifier, and the abort flag.
pub struct WorkState {
    pending: VecDeque<FileRange>,
    in_flight: BTreeMap<u64, ChunkState>,
    next_id: u64,
    aborted: bool,
    chunk_size: u64,
    hedge_delay: Duration,
    missing: Ghost<Set<int>>,
    committed: Ghost<Set<int>>,
    lost: Ghost<bool>,
}

impl WorkState {
    /// Gaps not yet handed out, front first.
    pub closed spec fn pending_ranges(&self) -> Seq<FileRange> {
        self.pending@
    }

    /// Chunks in flight, by identifier.
    pub closed spec fn chunks(&self) -> Map<u64, ChunkState> {
        self.in_flight@
    }

    /// Identifier the next chunk will receive.
    pub closed spec fn spec_next_id(&self) -> u64 {
        self.next_id
    }

    /// Whether the transfer was aborted.
    pub closed spec fn spec_aborted(&self) -> bool {
        self.aborted
    }

    /// Largest chunk handed out at once.
    pub closed spec fn spec_chunk_size(&self) -> u64 {
        self.chunk_size
    }

    /// How long the sole tail chunk runs alone before it is hedged.
    pub closed spec fn spec_hedge_delay(&self) -> Duration {
        self.hedge_delay
    }

    /// The bytes the transfer had to fetch.
    pub closed spec fn missing_bytes(&self) -> Set<int> {
        self.missing@
    }

    /// Bytes of chunks whose commit succeeded.
    pub closed spec fn committed_bytes(&self) -> Set<int> {
        self.committed@
    }

    /// Whether an internal coordination failure dropped pending bytes.
    pub closed spec fn lost_bytes(&self) -> bool {
        self.lost@
    }

    /// Structural invariant: non-empty ranges, identifiers below `next_id`,
    /// at most one hedge per chunk, and — unless aborted or failed — every
    /// missing byte pending, in flight, or committed.
    pub closed spec fn wf(&self) -> bool {
        &&& forall|i: int| 0 <= i < self.pending@.len() ==> (#[trigger] self.pending@[i]).wf()
        &&& forall|id: u64| #[trigger] self.in_flight@.contains_key(id) ==> chunk_ok(id, self.in_flight@[id], self.next_id)
        &&& 1 <= self.next_id
        &&& self.conserves()
    }

    /// Conservation: while the transfer is neither aborted nor failed
    /// internally, a byte is missing exactly when it is pending, in flight,
    /// or committed.
    pub closed spec fn conserves(&self) -> bool {
        !self.aborted && !self.lost@ ==> forall|b: int| #[trigger] self.missing@.contains(b) <==> (
            covers(self.pending@, b) || in_flight_covers(self.in_flight@, b) || self.committed@.contains(b))
    }
}

} // verus!

verus! {

broadcast use vstd::laws_cmp::group_laws_cmp, vstd::std_specs::btree::group_btree_axioms;

/// What remains of the pending queue after the front chunk is taken.
pub open spec fn after_pop(pending: Seq<FileRange>, chunk_size: int) -> Seq<FileRange> {
    let gap = pending[0];
    let end = chunk_end(gap, chunk_size);
    if end < gap.end {
        seq![FileRange { start: end as u64, end: gap.end }] + pending.drop_first()
    } else {
        pending.drop_first()
    }
}

/// The chunk taken from the front of the pending queue.
pub open spec fn front_chunk(pending: Seq<FileRange>, chunk_size: int) -> FileRange {
    FileRange { start: pending[0].start, end: chunk_end(pending[0], chunk_size) as u64 }
}

/// Time from `start` to `now`, or zero when `now` is earlier.
pub open spec fn elapsed_since(now: Instant, start: Instant) -> int {
    if now.nanos >= start.nanos { now.nanos - start.nanos } else { 0 }
}

/// One in-flight chunk is well formed: its identifier was handed out, its
/// range is non-empty, it was attempted at most twice, and no more attempts
/// are active than were started.
pub open spec fn chunk_ok(id: u64, chunk: ChunkState, next_id: u64) -> bool {
    &&& 1 <= id < next_id
    &&& chunk.range.wf()
    &&& 1 <= chunk.attempts_started <= 2
    &&& chunk.active_attempts <= chunk.attempts_started
}

/// The identifier of the chunk in flight, when exactly one is.
pub open spec fn sole_chunk(chunks: Map<u64, ChunkState>) -> u64 {
    chunks.dom().choose()
}

/// Whether exactly one chunk is in flight and it is still its original,
/// uncommitted attempt, and thus a hedging candidate.
pub open spec fn sole_hedge_candidate(chunks: Map<u64, ChunkState>) -> bool {
    chunks.len() == 1 && chunks[sole_chunk(chunks)].phase == ChunkPhase::InFlight
        && chunks[sole_chunk(chunks)].attempts_started == 1
}

proof fn lemma_covers_front(s: Seq<FileRange>, b: int)
    requires
        s.len() > 0,
    ensures
        covers(s, b) <==> (s[0].contains(b) || covers(s.drop_first(), b)),
{
    if covers(s, b) {
        let k = choose|k: int| 0 <= k < s.len() && #[trigger] s[k].contains(b);
        if k > 0 {
            assert(s.drop_first()[k - 1] == s[k]);
        }
    }
    if covers(s.drop_first(), b) {
        let k = choose|k: int| 0 <= k < s.drop_first().len() && #[trigger] s.drop_first()[k].contains(b);
        assert(s[k + 1] == s.drop_first()[k]);
    }
}

proof fn lemma_in_flight_insert_new(chunks: Map<u64, ChunkState>, id: u64, chunk: ChunkState, b: int)
    requires
        !chunks.contains_key(id),
    ensures
        in_flight_covers(chunks.insert(id, chunk), b) <==> (in_flight_covers(chunks, b) || chunk.range.contains(b)),
{
    let grown = chunks.insert(id, chunk);
    if in_flight_covers(grown, b) {
        let k = choose|k: u64| #[trigger] grown.contains_key(k) && grown[k].range.contains(b);
        if k != id {
            assert(chunks.contains_key(k));
        }
    }
    if in_flight_covers(chunks, b) {
        let k = choose|k: u64| #[trigger] chunks.contains_key(k) && chunks[k].range.contains(b);
        assert(grown.contains_key(k));
    }
    if chunk.range.contains(b) {
        assert(grown.contains_key(id));
    }
}

proof fn lemma_in_flight_replace(chunks: Map<u64, ChunkState>, id: u64, chunk: ChunkState, b: int)
    requires
        chunks.contains_key(id),
        chunks[id].range == chunk.range,
    ensures
        in_flight_covers(chunks.insert(id, chunk), b) <==> in_flight_covers(chunks, b),
{
    let after = chunks.insert(id, chunk);
    if in_flight_covers(after, b) {
        let k = choose|k: u64| #[trigger] after.contains_key(k) && after[k].range.contains(b);
        assert(chunks.contains_key(k));
    }
    if in_flight_covers(chunks, b) {
        let k = choose|k: u64| #[trigger] chunks.contains_key(k) && chunks[k].range.contains(b);
        assert(after.contains_key(k));
    }
}

proof fn lemma_in_flight_remove(chunks: Map<u64, ChunkState>, id: u64, b: int)
    requires
        chunks.contains_key(id),
    ensures
        in_flight_covers(chunks, b) <==> (in_flight_covers(chunks.remove(id), b) || chunks[id].range.contains(b)),
{
    let rest = chunks.remove(id);
    if in_flight_covers(chunks, b) {
        let k = choose|k: u64| #[trigger] chunks.contains_key(k) && chunks[k].range.contains(b);
        if k != id {
            assert(rest.contains_key(k));
        }
    }
    if in_flight_covers(rest, b) {
        let k = choose|k: u64| #[trigger] rest.contains_key(k) && rest[k].range.contains(b);
        assert(chunks.contains_key(k));
    }
}

/// A set of one element holds no other.
proof fn lemma_single_element(s: Set<u64>, a: u64, b: u64)
    requires
        s.finite(),
        s.len() == 1,
        s.contains(a),
        s.contains(b),
    ensures
        a == b,
{
    if a != b {
        assert(s.remove(a).contains(b));
        assert(s.remove(a).len() == 0);
        assert(s.remove(a) =~= Set::<u64>::empty()) by {
            vstd::set_lib::lemma_set_empty_equivalency_len(s.remove(a));
        }
    }
}

impl WorkState {
    /// Starts bookkeeping for the given missing gaps.
    pub fn new(missing: Vec<FileRange>, chunk_size: u64, hedge_delay: Duration) -> (state: WorkState)
        requires
            forall|i: int| 0 <= i < missing@.len() ==> (#[trigger] missing@[i]).wf(),
        ensures
            state.wf(),
            state.pending_ranges() == missing@,
            state.chunks() == Map::<u64, ChunkState>::empty(),
            state.spec_next_id() == 1,
            !state.spec_aborted(),
            !state.lost_bytes(),
            state.spec_chunk_size() == chunk_size,
            state.spec_hedge_delay() == hedge_delay,
            state.missing_bytes() == Set::new(|b: int| covers(missing@, b)),
            state.committed_bytes() == Set::<int>::empty(),
    {
        let mut pending: VecDeque<FileRange> = VecDeque::new();
        let mut k: usize = 0;
        while k < missing.len()
            invariant
                0 <= k <= missing@.len(),
                pending@ == missing@.take(k as int),
            decreases missing@.len() - k,
        {
            pending.push_back(missing[k]);
            proof {
                assert(missing@.take(k + 1) =~= missing@.take(k as int).push(missing@[k as int]));
            }
            k += 1;
        }
        proof {
            assert(missing@.take(missing@.len() as int) =~= missing@);
        }
        let state = WorkState {
            pending,
            in_flight: BTreeMap::new(),
            next_id: 1,
            aborted: false,
            chunk_size,
            hedge_delay,
            missing: Ghost(Set::new(|b: int| covers(missing@, b))),
            committed: Ghost(Set::empty()),
            lost: Ghost(false),
        };
        proof {
            assert forall|b: int| #[trigger] state.missing@.contains(b) <==> (
                covers(state.pending@, b) || in_flight_covers(state.in_flight@, b) || state.committed@.contains(b)) by {
                assert(!in_flight_covers(state.in_flight@, b));
            }
        }
        state
    }

    /// The in-flight chunk of least identifier, if any.
    fn first_chunk(&self) -> (first: Option<(u64, ChunkState)>)
        ensures
            first is None <==> self.in_flight@.len() == 0,
            first matches Some((id, chunk)) ==> self.in_flight@.contains_key(id) && self.in_flight@[id] == chunk,
    {
        let ghost entries = vstd::std_specs::btree::spec_btree_map_iter(&self.in_flight).remaining();
        let mut first: Option<(u64, ChunkState)> = None;
        for entry in it: self.in_flight.iter()
            invariant
                entries == vstd::std_specs::btree::spec_btree_map_iter(&self.in_flight).remaining(),
                first is None <==> it.index() == 0,
                first matches Some((id, chunk)) ==> id == *entries[0].0 && chunk == *entries[0].1,
        {
            proof {
                assert(it.seq() == entries);
            }
            if first.is_none() {
                first = Some((*entry.0, *entry.1));
            }
        }
        proof {
            if self.in_flight@.len() > 0 {
                assert(self.in_flight@.contains_key(*entries[0].0));
            }
        }
        first
    }
}

} // verus!

verus! {

impl WorkState {
    /// Decides the next work for a worker: stop when aborted or cancelled;
    /// otherwise take a bounded chunk from the front gap; otherwise stop when
    /// nothing is in flight; otherwise hedge the sole original tail chunk once
    /// it has run for the hedge delay, or say how long until it may be; in any
    /// other case wait for a change.
    pub fn next_step(&mut self, cancelled: bool, now: Instant) -> (step: Result<NextWork, SchedulerError>)
        requires
            old(self).wf(),
        ensures
            final(self).wf(),
            final(self).missing_bytes() == old(self).missing_bytes(),
            final(self).spec_chunk_size() == old(self).spec_chunk_size(),
            final(self).spec_hedge_delay() == old(self).spec_hedge_delay(),
            final(self).spec_aborted() == old(self).spec_aborted(),
            old(self).spec_aborted() || cancelled ==> step == Ok::<NextWork, SchedulerError>(NextWork::Stop)
                && *final(self) == *old(self),
            !old(self).spec_aborted() && !cancelled && old(self).pending_ranges().len() > 0 ==> {
                let pending = old(self).pending_ranges();
                let size = old(self).spec_chunk_size();
                if size == 0 {
                    &&& step == Err::<NextWork, SchedulerError>(SchedulerError::Coordination)
                    &&& final(self).pending_ranges() == pending.drop_first()
                    &&& final(self).chunks() == old(self).chunks()
                    &&& final(self).spec_next_id() == old(self).spec_next_id()
                } else if old(self).spec_next_id() == u64::MAX {
                    &&& step == Err::<NextWork, SchedulerError>(SchedulerError::Coordination)
                    &&& final(self).pending_ranges() == after_pop(pending, size as int)
                    &&& final(self).chunks() == old(self).chunks()
                    &&& final(self).spec_next_id() == old(self).spec_next_id()
                } else {
                    let id = old(self).spec_next_id();
                    let range = front_chunk(pending, size as int);
                    &&& step == Ok::<NextWork, SchedulerError>(NextWork::Assign(Work { id, range, hedged: false }))
                    &&& final(self).pending_ranges() == after_pop(pending, size as int)
                    &&& !old(self).chunks().contains_key(id)
                    &&& final(self).chunks() == old(self).chunks().insert(id, ChunkState {
                        range,
                        phase: ChunkPhase::InFlight,
                        attempts_started: 1,
                        active_attempts: 1,
                        first_started: now,
                    })
                    &&& final(self).spec_next_id() == id + 1
                    &&& final(self).committed_bytes() == old(self).committed_bytes()
                    &&& final(self).lost_bytes() == old(self).lost_bytes()
                }
            },
            !old(self).spec_aborted() && !cancelled && old(self).pending_ranges().len() == 0 ==> {
                let chunks = old(self).chunks();
                if chunks.len() == 0 {
                    step == Ok::<NextWork, SchedulerError>(NextWork::Stop) && *final(self) == *old(self)
                } else if sole_hedge_candidate(chunks) {
                    let id = sole_chunk(chunks);
                    let chunk = chunks[id];
                    let elapsed = elapsed_since(now, chunk.first_started);
                    let delay = old(self).spec_hedge_delay().nanos;
                    if elapsed >= delay {
                        &&& step == Ok::<NextWork, SchedulerError>(NextWork::Assign(Work { id, range: chunk.range, hedged: true }))
                        &&& final(self).chunks() == chunks.insert(id, ChunkState {
                            attempts_started: 2,
                            active_attempts: (chunk.active_attempts + 1) as u8,
                            ..chunk
                        })
                        &&& final(self).pending_ranges() == old(self).pending_ranges()
                        &&& final(self).spec_next_id() == old(self).spec_next_id()
                        &&& final(self).committed_bytes() == old(self).committed_bytes()
                        &&& final(self).lost_bytes() == old(self).lost_bytes()
                    } else {
                        &&& step == Ok::<NextWork, SchedulerError>(NextWork::Wait(Some(Duration { nanos: (delay - elapsed) as u128 })))
                        &&& *final(self) == *old(self)
                    }
                } else {
                    step == Ok::<NextWork, SchedulerError>(NextWork::Wait(None)) && *final(self) == *old(self)
                }
            },
    {
        if self.aborted || cancelled {
            return Ok(NextWork::Stop);
        }
        if self.pending.len() > 0 {
            let ghost old_pending = self.pending@;
            let popped = pop_chunk(&mut self.pending, self.chunk_size);
            let range = match popped {
                Ok(Some(range)) => range,
                _ => {
                    proof {
                        self.lost@ = true;
                    }
                    return Err(SchedulerError::Coordination);
                }
            };
            if self.next_id == u64::MAX {
                proof {
                    self.lost@ = true;
                }
                return Err(SchedulerError::Coordination);
            }
            let id = self.next_id;
            let entry = (id, ChunkState {
                range,
                phase: ChunkPhase::InFlight,
                attempts_started: 1,
                active_attempts: 1,
                first_started: now,
            });
            let ghost old_flights = self.in_flight@;
            proof {
                assert(!old_flights.contains_key(id)) by {
                    if old_flights.contains_key(id) {
                        assert(chunk_ok(id, old_flights[id], id));
                    }
                }
            }
            self.in_flight.insert(entry.0, entry.1);
            self.next_id = id + 1;
            proof {
                let gap = old_pending[0];
                let end = chunk_end(gap, self.chunk_size as int);
                assert forall|b: int| covers(old_pending, b) <==> (range.contains(b) || covers(self.pending@, b)) by {
                    lemma_covers_front(old_pending, b);
                    if end < gap.end {
                        lemma_covers_front(self.pending@, b);
                        assert(self.pending@.drop_first() =~= old_pending.drop_first());
                    }
                }
                assert forall|b: int| in_flight_covers(self.in_flight@, b) <==> (in_flight_covers(old_flights, b) || range.contains(b)) by {
                    lemma_in_flight_insert_new(old_flights, id, entry.1, b);
                }
                assert forall|k: u64| #[trigger] self.in_flight@.contains_key(k) implies chunk_ok(k, self.in_flight@[k], self.next_id) by {
                    if k != id {
                        assert(old_flights.contains_key(k));
                    }
                }
            }
            return Ok(NextWork::Assign(Work { id, range, hedged: false }));
        }
        if self.in_flight.len() == 0 {
            return Ok(NextWork::Stop);
        }
        if self.in_flight.len() == 1 {
            if let Some((id, chunk)) = self.first_chunk() {
                proof {
                    let m = self.in_flight@;
                    assert(m.dom().contains(m.dom().choose()));
                    lemma_single_element(m.dom(), id, sole_chunk(m));
                }
                if chunk.phase == ChunkPhase::InFlight && chunk.attempts_started == 1 {
                    let elapsed = now.saturating_duration_since(chunk.first_started);
                    if elapsed.nanos >= self.hedge_delay.nanos {
                        let updated = ChunkState {
                            attempts_started: 2,
                            active_attempts: chunk.active_attempts + 1,
                            ..chunk
                        };
                        let ghost old_flights = self.in_flight@;
                        self.in_flight.insert(id, updated);
                        proof {
                            assert forall|b: int| in_flight_covers(self.in_flight@, b) <==> in_flight_covers(old_flights, b) by {
                                lemma_in_flight_replace(old_flights, id, updated, b);
                            }
                            assert forall|k: u64| #[trigger] self.in_flight@.contains_key(k) implies chunk_ok(k, self.in_flight@[k], self.next_id) by {
                                assert(old_flights.contains_key(k));
                            }
                        }
                        return Ok(NextWork::Assign(Work { id, range: chunk.range, hedged: true }));
                    }
                    let remaining = self.hedge_delay.saturating_sub(elapsed);
                    return Ok(NextWork::Wait(Some(remaining)));
                }
            }
        }
        Ok(NextWork::Wait(None))
    }
}

} // verus!

verus! {

/// A commit claim on a chunk: it wins only while the chunk is still being
/// fetched; either way the claiming attempt stops counting as active and the
/// chunk is being committed afterwards.
pub open spec fn claim_outcome(chunk: ChunkState) -> (bool, ChunkState) {
    let active = if chunk.active_attempts > 0 { (chunk.active_attempts - 1) as u8 } else { 0u8 };
    (chunk.phase == ChunkPhase::InFlight, ChunkState { active_attempts: active, phase: ChunkPhase::Committing, ..chunk })
}

impl WorkState {
    /// Whether an attempt of chunk `id` should stop: the transfer was aborted
    /// or cancelled, or the chunk is no longer being fetched.
    pub fn should_cancel(&self, cancelled: bool, id: u64) -> (stop: bool)
        requires
            self.wf(),
        ensures
            stop == (self.spec_aborted() || cancelled || !self.chunks().contains_key(id)
                || self.chunks()[id].phase != ChunkPhase::InFlight),
    {
        if self.aborted || cancelled {
            return true;
        }
        match self.in_flight.get(&id) {
            Some(chunk) => chunk.phase != ChunkPhase::InFlight,
            None => true,
        }
    }

    /// Replaces the state of in-flight chunk `id` by one over the same range.
    fn replace_chunk(&mut self, id: u64, updated: ChunkState)
        requires
            old(self).wf(),
            old(self).in_flight@.contains_key(id),
            old(self).in_flight@[id].range == updated.range,
            chunk_ok(id, updated, old(self).next_id),
        ensures
            final(self).wf(),
            final(self).in_flight@ == old(self).in_flight@.insert(id, updated),
            final(self).pending@ == old(self).pending@,
            final(self).next_id == old(self).next_id,
            final(self).aborted == old(self).aborted,
            final(self).missing@ == old(self).missing@,
            final(self).committed@ == old(self).committed@,
            final(self).lost@ == old(self).lost@,
            final(self).chunk_size == old(self).chunk_size,
            final(self).hedge_delay == old(self).hedge_delay,
    {
        let ghost old_flights = self.in_flight@;
        self.in_flight.insert(id, updated);
        proof {
            assert forall|b: int| in_flight_covers(self.in_flight@, b) <==> in_flight_covers(old_flights, b) by {
                lemma_in_flight_replace(old_flights, id, updated, b);
            }
            assert forall|k: u64| #[trigger] self.in_flight@.contains_key(k) implies chunk_ok(k, self.in_flight@[k], self.next_id) by {
                assert(old_flights.contains_key(k));
            }
        }
    }

    /// Removes in-flight chunk `id`, returning it.
    fn remove_chunk(&mut self, id: u64) -> (chunk: ChunkState)
        requires
            old(self).wf(),
            old(self).in_flight@.contains_key(id),
        ensures
            chunk == old(self).in_flight@[id],
            final(self).in_flight@ == old(self).in_flight@.remove(id),
            forall|k: u64| #[trigger] final(self).in_flight@.contains_key(k) ==> chunk_ok(k, final(self).in_flight@[k], final(self).next_id),
            forall|b: int| in_flight_covers(old(self).in_flight@, b) <==> (in_flight_covers(final(self).in_flight@, b) || chunk.range.contains(b)),
            final(self).pending@ == old(self).pending@,
            final(self).next_id == old(self).next_id,
            final(self).aborted == old(self).aborted,
            final(self).missing@ == old(self).missing@,
            final(self).committed@ == old(self).committed@,
            final(self).lost@ == old(self).lost@,
            final(self).chunk_size == old(self).chunk_size,
            final(self).hedge_delay == old(self).hedge_delay,
    {
        let ghost old_flights = self.in_flight@;
        let chunk = *self.in_flight.get(&id).unwrap();
        self.in_flight.remove(&id);
        proof {
            assert forall|b: int| in_flight_covers(old_flights, b) <==> (in_flight_covers(self.in_flight@, b) || chunk.range.contains(b)) by {
                lemma_in_flight_remove(old_flights, id, b);
            }
            assert forall|k: u64| #[trigger] self.in_flight@.contains_key(k) implies chunk_ok(k, self.in_flight@[k], self.next_id) by {
                assert(old_flights.contains_key(k));
            }
        }
        chunk
    }

    /// One attempt of chunk `id` finished fetching and asks to own the
    /// commit. Its attempt stops counting as active; it wins only when the
    /// transfer is live and no other attempt claimed the chunk first.
    pub fn claim_commit(&mut self, cancelled: bool, id: u64) -> (claimed: bool)
        requires
            old(self).wf(),
        ensures
            final(self).wf(),
            old(self).spec_aborted() || cancelled || !old(self).chunks().contains_key(id) ==> !claimed && *final(self) == *old(self),
            !old(self).spec_aborted() && !cancelled && old(self).chunks().contains_key(id) ==> {
                let (won, after) = claim_outcome(old(self).chunks()[id]);
                &&& claimed == won
                &&& final(self).chunks() == old(self).chunks().insert(id, after)
                &&& final(self).pending_ranges() == old(self).pending_ranges()
                &&& final(self).spec_next_id() == old(self).spec_next_id()
                &&& final(self).spec_aborted() == old(self).spec_aborted()
                &&& final(self).missing_bytes() == old(self).missing_bytes()
                &&& final(self).committed_bytes() == old(self).committed_bytes()
                &&& final(self).lost_bytes() == old(self).lost_bytes()
                &&& final(self).spec_chunk_size() == old(self).spec_chunk_size()
                &&& final(self).spec_hedge_delay() == old(self).spec_hedge_delay()
            },
    {
        if self.aborted || cancelled {
            return false;
        }
        let chunk = match self.in_flight.get(&id) {
            Some(c) => *c,
            None => return false,
        };
        let claimed = chunk.phase == ChunkPhase::InFlight;
        let updated = ChunkState {
            active_attempts: chunk.active_attempts.saturating_sub(1),
            phase: ChunkPhase::Committing,
            ..chunk
        };
        self.replace_chunk(id, updated);
        claimed
    }

    /// An attempt that lost the commit to another attempt of chunk `id`
    /// stops counting as active.
    pub fn finish_superseded(&mut self, id: u64)
        requires
            old(self).wf(),
        ensures
            final(self).wf(),
            !old(self).chunks().contains_key(id) ==> *final(self) == *old(self),
            old(self).chunks().contains_key(id) ==> {
                let chunk = old(self).chunks()[id];
                let active = if chunk.active_attempts > 0 { (chunk.active_attempts - 1) as u8 } else { 0u8 };
                &&& final(self).chunks() == old(self).chunks().insert(id, ChunkState { active_attempts: active, ..chunk })
                &&& final(self).pending_ranges() == old(self).pending_ranges()
                &&& final(self).spec_next_id() == old(self).spec_next_id()
                &&& final(self).spec_aborted() == old(self).spec_aborted()
                &&& final(self).missing_bytes() == old(self).missing_bytes()
                &&& final(self).committed_bytes() == old(self).committed_bytes()
                &&& final(self).lost_bytes() == old(self).lost_bytes()
                &&& final(self).spec_chunk_size() == old(self).spec_chunk_size()
                &&& final(self).spec_hedge_delay() == old(self).spec_hedge_delay()
            },
    {
        let found = match self.in_flight.get(&id) {
            Some(c) => Some(*c),
            None => None,
        };
        if let Some(chunk) = found {
            let updated = ChunkState { active_attempts: chunk.active_attempts.saturating_sub(1), ..chunk };
            self.replace_chunk(id, updated);
        }
    }

    /// A failed attempt of chunk `id` stops counting as active. When it was
    /// the chunk's last active attempt and nobody is committing the chunk, the
    /// chunk is dropped and the transfer aborted; the result says whether
    /// that happened.
    pub fn finish_failed_attempt(&mut self, id: u64) -> (fatal: bool)
        requires
            old(self).wf(),
        ensures
            final(self).wf(),
            !old(self).chunks().contains_key(id) ==> !fatal && *final(self) == *old(self),
            old(self).chunks().contains_key(id) ==> {
                let chunk = old(self).chunks()[id];
                let active = if chunk.active_attempts > 0 { (chunk.active_attempts - 1) as u8 } else { 0u8 };
                &&& fatal == (chunk.phase != ChunkPhase::Committing && active == 0)
                &&& fatal ==> final(self).chunks() == old(self).chunks().remove(id) && final(self).spec_aborted()
                &&& !fatal ==> final(self).chunks() == old(self).chunks().insert(id, ChunkState { active_attempts: active, ..chunk })
                    && final(self).spec_aborted() == old(self).spec_aborted()
                &&& final(self).pending_ranges() == old(self).pending_ranges()
                &&& final(self).spec_next_id() == old(self).spec_next_id()
                &&& final(self).missing_bytes() == old(self).missing_bytes()
                &&& final(self).committed_bytes() == old(self).committed_bytes()
                &&& final(self).lost_bytes() == old(self).lost_bytes()
                &&& final(self).spec_chunk_size() == old(self).spec_chunk_size()
                &&& final(self).spec_hedge_delay() == old(self).spec_hedge_delay()
            },
    {
        let chunk = match self.in_flight.get(&id) {
            Some(c) => *c,
            None => return false,
        };
        let active = chunk.active_attempts.saturating_sub(1);
        if chunk.phase == ChunkPhase::Committing || active > 0 {
            let updated = ChunkState { active_attempts: active, ..chunk };
            self.replace_chunk(id, updated);
            return false;
        }
        self.remove_chunk(id);
        self.aborted = true;
        true
    }

    /// The attempt that owned the commit of chunk `id` finished: the chunk
    /// leaves the in-flight set; its bytes count as committed on success,
    /// and a failed commit aborts the transfer.
    pub fn finish_commit(&mut self, id: u64, succeeded: bool)
        requires
            old(self).wf(),
        ensures
            final(self).wf(),
            final(self).spec_aborted() == (old(self).spec_aborted() || !succeeded),
            final(self).pending_ranges() == old(self).pending_ranges(),
            final(self).spec_next_id() == old(self).spec_next_id(),
            final(self).missing_bytes() == old(self).missing_bytes(),
            final(self).lost_bytes() == old(self).lost_bytes(),
            final(self).spec_chunk_size() == old(self).spec_chunk_size(),
            final(self).spec_hedge_delay() == old(self).spec_hedge_delay(),
            final(self).chunks() == old(self).chunks().remove(id),
            !old(self).chunks().contains_key(id) ==> final(self).committed_bytes() == old(self).committed_bytes(),
            old(self).chunks().contains_key(id) ==> final(self).committed_bytes() == if succeeded {
                old(self).committed_bytes().union(old(self).chunks()[id].range.bytes())
            } else {
                old(self).committed_bytes()
            },
    {
        if self.in_flight.contains_key(&id) {
            let ghost old_flights = self.in_flight@;
            let ghost old_committed = self.committed@;
            let chunk = self.remove_chunk(id);
            if succeeded {
                proof {
                    self.committed@ = self.committed@.union(chunk.range.bytes());
                    if !self.aborted && !self.lost@ {
                        assert forall|b: int| #[trigger] self.missing@.contains(b) <==> (covers(self.pending@, b)
                            || in_flight_covers(self.in_flight@, b) || self.committed@.contains(b)) by {
                            assert(in_flight_covers(old_flights, b) <==> (in_flight_covers(self.in_flight@, b)
                                || chunk.range.contains(b)));
                            assert(self.committed@.contains(b) <==> (old_committed.contains(b) || chunk.range.contains(b)));
                        }
                    }
                }
            }
        } else {
            proof {
                assert(self.in_flight@.remove(id) =~= self.in_flight@);
            }
        }
        if !succeeded {
            self.aborted = true;
        }
    }

    /// Stops handing out work for this transfer.
    pub fn abort(&mut self)
        requires
            old(self).wf(),
        ensures
            final(self).wf(),
            final(self).spec_aborted(),
            final(self).pending_ranges() == old(self).pending_ranges(),
            final(self).chunks() == old(self).chunks(),
            final(self).spec_next_id() == old(self).spec_next_id(),
            final(self).missing_bytes() == old(self).missing_bytes(),
            final(self).committed_bytes() == old(self).committed_bytes(),
            final(self).lost_bytes() == old(self).lost_bytes(),
            final(self).spec_chunk_size() == old(self).spec_chunk_size(),
            final(self).spec_hedge_delay() == old(self).spec_hedge_delay(),
    {
        self.aborted = true;
    }
}

} // verus!

verus! {

/// While a transfer is neither aborted nor failed internally, a byte it had
/// to fetch is exactly one that is pending, in flight, or committed: handing
/// out, hedging, claiming and committing chunks never loses or invents bytes.
pub proof fn lemma_work_conservation(state: WorkState, b: int)
    requires
        state.wf(),
        !state.spec_aborted(),
        !state.lost_bytes(),
    ensures
        state.missing_bytes().contains(b) <==> (covers(state.pending_ranges(), b)
            || in_flight_covers(state.chunks(), b) || state.committed_bytes().contains(b)),
{
}

/// Every chunk in flight has an identifier below the next one, was
/// attempted at most twice (its original and one hedge), and has no more
/// active attempts than started ones.
pub proof fn lemma_chunk_bookkeeping(state: WorkState, id: u64)
    requires
        state.wf(),
        state.chunks().contains_key(id),
    ensures
        1 <= id < state.spec_next_id(),
        1 <= state.chunks()[id].attempts_started <= 2,
        state.chunks()[id].active_attempts <= state.chunks()[id].attempts_started,
{
}

/// Only one attempt can own a chunk's commit: once a claim has been made,
/// every later claim on the same chunk loses.
pub proof fn lemma_commit_claimed_once(chunk: ChunkState)
    ensures
        !claim_outcome(claim_outcome(chunk).1).0,
{
}

} // verus!
