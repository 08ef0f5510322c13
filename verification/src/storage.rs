//! Collision-safe partial-file bookkeeping: half-open byte ranges, canonical
//! completed coverage, assignment ownership, filename sanitization and
//! path-free failure classification.
//!
//! Ranges are half-open (`start..end`). A segment writer owns one disjoint
//! assignment and advances sequentially within it. Only fully written
//! assignments become completed coverage.
use vstd::prelude::*;
use std::collections::BTreeMap;
use vstd::std_specs::iter::IteratorSpec;
use crate::integrity::{ExpectedSha256, Sha256State, sha256_finalize, sha256_input, sha256_new, sha256_of, sha256_update};

verus! {

broadcast use vstd::laws_cmp::group_laws_cmp, vstd::std_specs::btree::group_btree_axioms;

/// Filesystem operation associated with a structured I/O failure.
#[derive(Debug, Clone, Copy, PartialEq, Eq, Structural)]
pub enum StorageOperation {
    /// Inspect or canonicalize the destination directory.
    InspectDestination,
    /// Create a collision-safe partial file.
    CreatePartial,
    /// Reopen and validate a recoverable partial file.
    OpenPartial,
    /// Establish the partial file's expected logical length.
    Preallocate,
    /// Write assigned bytes.
    Write,
    /// Read file metadata or flush file contents.
    Flush,
    /// Stream integrity validation through the owned file.
    Validate,
    /// Atomically publish a completed file.
    Publish,
    /// Remove a checkpointed redundant partial link.
    CleanupPartial,
}

impl StorageOperation {
    /// Path-free operation name used in failure text.
    pub fn describe(&self) -> (text: &'static str)
        ensures
            text@ == match *self {
                StorageOperation::InspectDestination => "inspect destination"@,
                StorageOperation::CreatePartial => "create partial file"@,
                StorageOperation::OpenPartial => "open partial file"@,
                StorageOperation::Preallocate => "preallocate partial file"@,
                StorageOperation::Write => "write partial file"@,
                StorageOperation::Flush => "flush partial file"@,
                StorageOperation::Validate => "validate partial file"@,
                StorageOperation::Publish => "publish final file"@,
                StorageOperation::CleanupPartial => "remove redundant partial link"@,
            },
    {
        match self {
            StorageOperation::InspectDestination => "inspect destination",
            StorageOperation::CreatePartial => "create partial file",
            StorageOperation::OpenPartial => "open partial file",
            StorageOperation::Preallocate => "preallocate partial file",
            StorageOperation::Write => "write partial file",
            StorageOperation::Flush => "flush partial file",
            StorageOperation::Validate => "validate partial file",
            StorageOperation::Publish => "publish final file",
            StorageOperation::CleanupPartial => "remove redundant partial link",
        }
    }
}

/// Stable, path-free classification of a filesystem failure.
#[derive(Debug, Clone, Copy, PartialEq, Eq, Structural)]
pub enum IoFailure {
    /// The target volume has no usable capacity.
    DiskFull,
    /// Access control rejected the operation.
    AccessDenied,
    /// Another process holds an incompatible sharing or byte-range lock.
    FileLocked,
    /// A create-new name already exists.
    AlreadyExists,
    /// A required path no longer exists.
    NotFound,
    /// The filesystem cannot provide the required primitive.
    Unsupported,
    /// An I/O failure without a more specific stable classification.
    Other,
}

impl IoFailure {
    /// Path-free failure text.
    pub fn describe(&self) -> (text: &'static str)
        ensures
            text@ == match *self {
                IoFailure::DiskFull => "disk full"@,
                IoFailure::AccessDenied => "access denied"@,
                IoFailure::FileLocked => "file locked"@,
                IoFailure::AlreadyExists => "name already exists"@,
                IoFailure::NotFound => "path not found"@,
                IoFailure::Unsupported => "operation unsupported by filesystem"@,
                IoFailure::Other => "filesystem I/O error"@,
            },
    {
        match self {
            IoFailure::DiskFull => "disk full",
            IoFailure::AccessDenied => "access denied",
            IoFailure::FileLocked => "file locked",
            IoFailure::AlreadyExists => "name already exists",
            IoFailure::NotFound => "path not found",
            IoFailure::Unsupported => "operation unsupported by filesystem",
            IoFailure::Other => "filesystem I/O error",
        }
    }
}

/// Safe storage-layer failures; none carries a path.
#[derive(Debug, Clone, Copy, PartialEq, Eq, Structural)]
pub enum StorageError {
    /// Optional supplied digest did not match the owned complete file.
    ChecksumMismatch,
    /// Cooperative cancellation interrupted validation before publication.
    ValidationCancelled,
    /// A half-open range was empty or reversed.
    InvalidRange { start: u64, end: u64 },
    /// An assignment exceeds the expected file length.
    RangeOutOfBounds { range: FileRange, expected_len: u64 },
    /// An assignment intersects active or completed ownership.
    OverlappingAssignment { range: FileRange },
    /// An assignment identifier exhausted its bounded counter.
    AssignmentIdExhausted,
    /// A writer was used after completion or after its assignment disappeared.
    AssignmentClosed,
    /// A write would exceed the writer's assignment.
    WriteOutOfBounds { range: FileRange, offset: u64, bytes: u64 },
    /// Completion was requested before all assigned bytes were written.
    IncompleteAssignment { expected: u64, written: u64 },
    /// The file cannot be published while assignments are active.
    ActiveAssignments { count: usize },
    /// Range assignment or publication requires a known file length.
    LengthUnknown,
    /// A sequential unknown-length stream is already active or unavailable.
    StreamUnavailable,
    /// The configured unknown-length stream bound is zero.
    InvalidStreamLimit,
    /// A sequential stream exceeded its configured byte bound.
    StreamLimitExceeded { limit: u64 },
    /// Recovered completed ranges are not canonical and in bounds.
    InvalidCompletedCoverage,
    /// Completed ranges do not cover the expected file exactly.
    IncompleteCoverage,
    /// The partial file's logical length changed unexpectedly.
    FileLengthChanged { expected: u64, actual: u64 },
    /// The destination path is not an ordinary directory.
    InvalidDestination,
    /// No bounded create-new partial name remained available.
    PartialNameExhausted,
    /// No bounded final-name candidate remained available.
    FinalNameExhausted,
    /// The storage object has already begun or completed publication.
    NotActive,
    /// A path-free, classified operating-system failure.
    Io { operation: StorageOperation, failure: IoFailure, os_code: Option<i32> },
}

/// A validated half-open byte range `start..end` in a partial file.
#[derive(Debug, Clone, Copy, PartialEq, Eq, Structural)]
pub struct FileRange {
    pub start: u64,
    pub end: u64,
}

impl FileRange {
    /// A constructed range is never empty.
    pub open spec fn wf(self) -> bool {
        self.start < self.end
    }

    /// Whether byte `b` lies inside this range.
    pub open spec fn contains(self, b: int) -> bool {
        self.start <= b < self.end
    }

    /// The bytes of this range as a set.
    pub open spec fn bytes(self) -> Set<int> {
        Set::new(|b: int| self.start <= b < self.end)
    }

    /// Whether two ranges share at least one byte.
    pub open spec fn spec_overlaps(self, other: FileRange) -> bool {
        self.start < other.end && other.start < self.end
    }

    /// Creates a non-empty half-open range.
    pub fn new(start: u64, end: u64) -> (range: Result<FileRange, StorageError>)
        ensures
            range is Ok <==> start < end,
            range matches Ok(r) ==> r.start == start && r.end == end && r.wf(),
            range matches Err(e) ==> e == (StorageError::InvalidRange { start, end }),
    {
        if start >= end {
            return Err(StorageError::InvalidRange { start, end });
        }
        Ok(FileRange { start, end })
    }

    /// First byte in the range.
    pub fn start(self) -> (start: u64)
        ensures
            start == self.start,
    {
        self.start
    }

    /// Exclusive upper bound.
    pub fn end(self) -> (end: u64)
        ensures
            end == self.end,
    {
        self.end
    }

    /// Number of bytes in the range.
    pub fn len(self) -> (len: u64)
        requires
            self.wf(),
        ensures
            len == self.end - self.start,
            len > 0,
    {
        self.end - self.start
    }

    /// A validated range is never empty.
    pub fn is_empty(self) -> (empty: bool)
        requires
            self.wf(),
        ensures
            !empty,
            empty == (self.end - self.start == 0),
    {
        false
    }

    /// Whether two ranges share a byte.
    pub fn overlaps(self, other: FileRange) -> (overlap: bool)
        ensures
            overlap == self.spec_overlaps(other),
    {
        self.start < other.end && other.start < self.end
    }
}

/// Every range is non-empty and ends at or before `limit`, and the ranges
/// are ordered with a gap of at least one byte between neighbours (no overlap
/// and no adjacency).
pub open spec fn canonical_within(ranges: Seq<FileRange>, limit: int) -> bool {
    &&& forall|i: int| 0 <= i < ranges.len() ==> (#[trigger] ranges[i]).wf() && ranges[i].end <= limit
    &&& separated(ranges)
}

/// Ordered with a gap of at least one byte between any two ranges.
pub open spec fn separated(ranges: Seq<FileRange>) -> bool {
    forall|i: int, j: int| 0 <= i < j < ranges.len() ==> #[trigger] ranges[i].end < #[trigger] ranges[j].start
}

/// Whether byte `b` is covered by one of the ranges.
pub open spec fn covers(ranges: Seq<FileRange>, b: int) -> bool {
    exists|i: int| 0 <= i < ranges.len() && #[trigger] ranges[i].contains(b)
}

/// Sum of range lengths.
pub open spec fn total_len(ranges: Seq<FileRange>) -> int
    decreases ranges.len(),
{
    if ranges.len() == 0 {
        0
    } else {
        total_len(ranges.drop_last()) + (ranges.last().end - ranges.last().start)
    }
}

/// Exactly the single range `0..size`, or nothing for an empty resource.
pub open spec fn is_exact_coverage(ranges: Seq<FileRange>, size: int) -> bool {
    if size == 0 {
        ranges.len() == 0
    } else {
        ranges.len() == 1 && ranges[0].start == 0 && ranges[0].end == size
    }
}

/// The total length of canonical ranges never exceeds the end of the last one.
pub proof fn lemma_total_len_bounded(ranges: Seq<FileRange>, limit: int)
    requires
        canonical_within(ranges, limit),
    ensures
        total_len(ranges) <= (if ranges.len() == 0 { 0 } else { ranges.last().end as int }),
        total_len(ranges) <= limit || ranges.len() == 0,
        total_len(ranges) >= 0,
    decreases ranges.len(),
{
    if ranges.len() > 0 {
        let prefix = ranges.drop_last();
        assert(canonical_within(prefix, limit)) by {
            assert forall|i: int, j: int| 0 <= i < j < prefix.len() implies #[trigger] prefix[i].end < #[trigger] prefix[j].start by {
                assert(prefix[i] == ranges[i] && prefix[j] == ranges[j]);
            }
            assert forall|i: int| 0 <= i < prefix.len() implies (#[trigger] prefix[i]).wf() && prefix[i].end <= limit by {
                assert(prefix[i] == ranges[i]);
            }
        }
        lemma_total_len_bounded(prefix, limit);
        if prefix.len() > 0 {
            assert(ranges[prefix.len() - 1].end < ranges[ranges.len() - 1].start);
        }
        assert(ranges.last().wf());
    }
}

/// Whether the completed ranges are exactly `0..size` (or empty for size 0).
pub fn has_exact_coverage(completed: &[FileRange], size: u64) -> (exact: bool)
    ensures
        exact == is_exact_coverage(completed@, size as int),
{
    if size == 0 {
        completed.len() == 0
    } else {
        completed.len() == 1 && completed[0].start == 0 && completed[0].end == size
    }
}

} // verus!

verus! {

proof fn lemma_take_extend(s: Seq<FileRange>, i: int)
    requires
        0 <= i < s.len(),
    ensures
        s.take(i + 1).drop_last() =~= s.take(i),
        s.take(i + 1).last() == s[i],
        total_len(s.take(i + 1)) == total_len(s.take(i)) + (s[i].end - s[i].start),
{
    assert(s.take(i + 1).drop_last() =~= s.take(i));
}

/// Recovered completed coverage must be canonical and within the expected file.
///
/// Returns `InvalidCompletedCoverage` exactly when some range ends past
/// `expected_len` or does not start strictly after its predecessor ends.
pub fn validate_recovered_coverage(completed: &[FileRange], expected_len: u64) -> (result: Result<(), StorageError>)
    requires
        forall|i: int| 0 <= i < completed@.len() ==> (#[trigger] completed@[i]).wf(),
    ensures
        result is Ok <==> canonical_within(completed@, expected_len as int),
        result matches Err(e) ==> e == StorageError::InvalidCompletedCoverage,
{
    let mut previous_end: Option<u64> = None;
    let mut total: u64 = 0;
    let mut index: usize = 0;
    while index < completed.len()
        invariant
            0 <= index <= completed@.len(),
            forall|i: int| 0 <= i < completed@.len() ==> (#[trigger] completed@[i]).wf(),
            canonical_within(completed@.take(index as int), expected_len as int),
            index == 0 ==> previous_end is None && total == 0,
            index > 0 ==> previous_end == Some(completed@[index - 1].end),
            total == total_len(completed@.take(index as int)),
            index > 0 ==> total <= completed@[index - 1].end,
        decreases completed@.len() - index,
    {
        let range = completed[index];
        let out_of_order = match previous_end {
            Some(end) => range.start <= end,
            None => false,
        };
        if range.end > expected_len || out_of_order {
            proof {
                if range.end > expected_len {
                    assert(!canonical_within(completed@, expected_len as int)) by {
                        assert(completed@[index as int] == range);
                    }
                } else {
                    assert(completed@[index - 1].end >= completed@[index as int].start);
                }
            }
            return Err(StorageError::InvalidCompletedCoverage);
        }
        proof {
            lemma_take_extend(completed@, index as int);
            let next = completed@.take(index + 1);
            assert forall|i: int, j: int| 0 <= i < j < next.len() implies #[trigger] next[i].end < #[trigger] next[j].start by {
                if j < index {
                    assert(completed@.take(index as int)[i] == next[i]);
                    assert(completed@.take(index as int)[j] == next[j]);
                } else {
                    if i < index - 1 {
                        assert(completed@.take(index as int)[i] == next[i]);
                        assert(completed@.take(index as int)[index - 1] == next[index - 1]);
                        assert(completed@[index - 1].wf());
                    }
                }
            }
            assert forall|i: int| 0 <= i < next.len() implies (#[trigger] next[i]).wf() && next[i].end <= expected_len by {
                if i < index {
                    assert(completed@.take(index as int)[i] == next[i]);
                }
            }
        }
        total = match total.checked_add(range.end - range.start) {
            Some(sum) => sum,
            None => return Err(StorageError::InvalidCompletedCoverage),
        };
        previous_end = Some(range.end);
        index += 1;
    }
    proof {
        assert(completed@.take(completed@.len() as int) =~= completed@);
    }
    if total > expected_len {
        return Err(StorageError::InvalidCompletedCoverage);
    }
    Ok(())
}

} // verus!

verus! {

/// Ranges that are each non-empty and pairwise ordered with gaps.
pub open spec fn canonical(ranges: Seq<FileRange>) -> bool {
    &&& forall|i: int| 0 <= i < ranges.len() ==> (#[trigger] ranges[i]).wf()
    &&& separated(ranges)
}

/// Adds a newly completed range that overlaps no existing coverage, merging
/// it with neighbours it touches so the list stays canonical.
#[verifier::spinoff_prover]
#[verifier::rlimit(80)]
pub fn insert_completed(completed: &mut Vec<FileRange>, range: FileRange)
    requires
        canonical(old(completed)@),
        range.wf(),
        forall|i: int| 0 <= i < old(completed)@.len() ==> !(#[trigger] old(completed)@[i]).spec_overlaps(range),
    ensures
        canonical(final(completed)@),
        forall|b: int| #[trigger] covers(final(completed)@, b) <==> (covers(old(completed)@, b) || range.contains(b)),
        final(completed)@.len() <= old(completed)@.len() + 1,
{
    let ghost old_ranges = completed@;
    let n = completed.len();
    let mut merged: Vec<FileRange> = Vec::new();
    let mut i: usize = 0;
    while i < n && completed[i].end < range.start
        invariant
            completed@ == old_ranges,
            n == old_ranges.len(),
            0 <= i <= n,
            merged@ =~= old_ranges.take(i as int),
            forall|k: int| 0 <= k < i ==> (#[trigger] old_ranges[k]).end < range.start,
        decreases n - i,
    {
        merged.push(completed[i]);
        i += 1;
    }
    let before = i;
    let mut start = range.start;
    if i < n && completed[i].end == range.start {
        start = completed[i].start;
        i += 1;
    }
    let mut end = range.end;
    if i < n && completed[i].start == range.end {
        end = completed[i].end;
        i += 1;
    }
    let middle = i;
    proof {
        assert(forall|k: int| middle <= k < n ==> (#[trigger] old_ranges[k]).start > end) by {
            assert forall|k: int| middle <= k < n implies (#[trigger] old_ranges[k]).start > end by {
                assert(!old_ranges[k].spec_overlaps(range));
                if middle > before {
                    assert(old_ranges[middle - 1].end < old_ranges[k].start || middle - 1 == k);
                }
                if before < n {
                    assert(old_ranges[before as int].end >= range.start);
                    if k > before {
                        assert(old_ranges[before as int].end < old_ranges[k].start);
                    }
                }
            }
        }
        assert(start <= range.start && end >= range.end);
        assert(forall|k: int| 0 <= k < before ==> (#[trigger] old_ranges[k]).end < start) by {
            assert forall|k: int| 0 <= k < before implies (#[trigger] old_ranges[k]).end < start by {
                if start < range.start {
                    assert(old_ranges[k].end < old_ranges[before as int].start);
                }
            }
        }
    }
    merged.push(FileRange { start, end });
    while i < n
        invariant
            completed@ == old_ranges,
            n == old_ranges.len(),
            middle <= i <= n,
            merged@.len() == before + 1 + (i - middle),
            merged@.take(before as int) =~= old_ranges.take(before as int),
            merged@[before as int] == (FileRange { start, end }),
            forall|k: int| before < k < merged@.len() ==> #[trigger] merged@[k] == old_ranges[k - before - 1 + middle],
        decreases n - i,
    {
        merged.push(completed[i]);
        i += 1;
    }
    proof {
        let res = merged@;
        assert forall|k: int| 0 <= k < res.len() implies (#[trigger] res[k]).wf() by {
            if k < before {
                assert(res.take(before as int)[k] == res[k]);
                assert(old_ranges.take(before as int)[k] == old_ranges[k]);
            } else if k > before {
                assert(old_ranges[k - before - 1 + middle].wf());
            }
        }
        assert forall|p: int, q: int| 0 <= p < q < res.len() implies #[trigger] res[p].end < #[trigger] res[q].start by {
            if p < before {
                assert(res.take(before as int)[p] == res[p]);
                assert(old_ranges.take(before as int)[p] == old_ranges[p]);
                if q < before {
                    assert(res.take(before as int)[q] == res[q]);
                    assert(old_ranges.take(before as int)[q] == old_ranges[q]);
                } else if q > before {
                    let qq = q - before - 1 + middle;
                    assert(old_ranges[p].end < start);
                    assert(old_ranges[qq].start > end);
                    assert(old_ranges[before as int].wf() || before == n);
                }
            } else if p == before {
                let qq = q - before - 1 + middle;
                assert(old_ranges[qq].start > end);
            } else {
                let pp = p - before - 1 + middle;
                let qq = q - before - 1 + middle;
                assert(old_ranges[pp].end < old_ranges[qq].start);
            }
        }
        assert forall|b: int| covers(res, b) <==> (covers(old_ranges, b) || range.contains(b)) by {
            if covers(res, b) {
                let k = choose|k: int| 0 <= k < res.len() && #[trigger] res[k].contains(b);
                if k < before {
                    assert(res.take(before as int)[k] == res[k]);
                    assert(old_ranges.take(before as int)[k] == old_ranges[k]);
                    assert(old_ranges[k].contains(b));
                } else if k > before {
                    assert(old_ranges[k - before - 1 + middle].contains(b));
                } else {
                    if !range.contains(b) {
                        if b < range.start {
                            assert(old_ranges[before as int].contains(b));
                        } else {
                            assert(old_ranges[middle - 1].contains(b));
                        }
                    }
                }
            }
            if range.contains(b) {
                assert(res[before as int].contains(b));
            }
            if covers(old_ranges, b) {
                let k = choose|k: int| 0 <= k < old_ranges.len() && #[trigger] old_ranges[k].contains(b);
                if k < before {
                    assert(res.take(before as int)[k] == res[k]);
                    assert(old_ranges.take(before as int)[k] == old_ranges[k]);
                    assert(res[k].contains(b));
                } else if k >= middle {
                    assert(res[k - middle + before + 1] == old_ranges[k]);
                    assert(res[k - middle + before + 1].contains(b));
                } else {
                    assert(res[before as int].contains(b));
                }
            }
        }
    }
    *completed = merged;
}

} // verus!

pub use crate::filename::{MAX_FILENAME_UTF16_UNITS, SanitizedFilename, numbered_filename, sanitize_filename, truncate_utf16};

verus! {

/// Publication lifecycle of one partial file.
#[derive(Debug, Clone, Copy, PartialEq, Eq, Structural)]
pub enum WritePhase {
    /// Writers may be assigned and write.
    Active,
    /// Writers are frozen while the complete file is checked.
    Validating,
    /// The complete file passed validation and may be published.
    Validated,
    /// Create-new publication is in progress.
    Publishing,
    /// The final name exists; the partial accepts no further work.
    Published,
}

/// One reserved byte range and how far its writer has written.
#[derive(Debug, Clone, Copy, PartialEq, Eq, Structural)]
pub struct ActiveAssignment {
    pub range: FileRange,
    pub next_offset: u64,
}

/// Whether a range overlaps none of the given ranges.
pub open spec fn disjoint_from(range: FileRange, ranges: Seq<FileRange>) -> bool {
    forall|k: int| 0 <= k < ranges.len() ==> !(#[trigger] ranges[k]).spec_overlaps(range)
}

/// Whether a range overlaps no active assignment.
pub open spec fn disjoint_from_active(range: FileRange, active: Map<u64, ActiveAssignment>) -> bool {
    forall|id: u64| #[trigger] active.contains_key(id) ==> !active[id].range.spec_overlaps(range)
}

/// Ownership ledger of one partial file: which byte ranges are completed,
/// which are reserved by an active writer, whether a sequential stream owns
/// the file, and how far publication has progressed.
#[derive(Debug)]
pub struct WriteLedger {
    phase: WritePhase,
    expected_len: Option<u64>,
    next_assignment_id: u64,
    active: BTreeMap<u64, ActiveAssignment>,
    stream_active: bool,
    completed: Vec<FileRange>,
}

impl WriteLedger {
    pub closed spec fn spec_phase(&self) -> WritePhase {
        self.phase
    }

    pub closed spec fn spec_expected_len(&self) -> Option<u64> {
        self.expected_len
    }

    pub closed spec fn completed_ranges(&self) -> Seq<FileRange> {
        self.completed@
    }

    /// The active assignments by identifier.
    pub closed spec fn assignments(&self) -> Map<u64, ActiveAssignment> {
        self.active@
    }

    pub closed spec fn spec_next_assignment_id(&self) -> u64 {
        self.next_assignment_id
    }

    pub closed spec fn spec_stream_active(&self) -> bool {
        self.stream_active
    }

    /// One active assignment lies inside the known file, advances within its
    /// non-empty range, and overlaps no completed coverage.
    pub closed spec fn assignment_ok(&self, id: u64, a: ActiveAssignment) -> bool {
        &&& 1 <= id < self.next_assignment_id
        &&& a.range.wf()
        &&& a.range.start <= a.next_offset <= a.range.end
        &&& self.expected_len is Some
        &&& a.range.end <= self.expected_len->Some_0
        &&& disjoint_from(a.range, self.completed@)
    }

    /// Ownership invariant: completed coverage is canonical and inside the
    /// file; active assignments have identifiers below the next one, lie
    /// inside the file, advance within their range, and overlap neither each
    /// other nor completed coverage; a stream excludes every other owner.
    pub closed spec fn wf(&self) -> bool {
        &&& canonical(self.completed@)
        &&& (self.expected_len matches Some(len) ==> canonical_within(self.completed@, len as int))
        &&& 1 <= self.next_assignment_id
        &&& forall|id: u64| #[trigger] self.active@.contains_key(id) ==> self.assignment_ok(id, self.active@[id])
        &&& forall|i: u64, j: u64| #[trigger] self.active@.contains_key(i) && #[trigger] self.active@.contains_key(j) && i != j
            ==> !self.active@[i].range.spec_overlaps(self.active@[j].range)
        &&& self.stream_active ==> self.active@.len() == 0 && self.expected_len is None && self.completed@.len() == 0
    }

    /// A ledger for a fresh or recovered partial: known-length files start
    /// from canonical in-bounds coverage, unknown-length ones from none.
    pub fn new(expected_len: Option<u64>, completed: Vec<FileRange>) -> (ledger: Result<WriteLedger, StorageError>)
        ensures
            ledger is Ok <==> match expected_len {
                Some(len) => canonical_within(completed@, len as int),
                None => completed@.len() == 0,
            },
            ledger matches Ok(l) ==> l.wf() && l.spec_phase() == WritePhase::Active
                && l.spec_expected_len() == expected_len && l.completed_ranges() == completed@
                && l.assignments() == Map::<u64, ActiveAssignment>::empty() && !l.spec_stream_active() && l.spec_next_assignment_id() == 1,
            ledger matches Err(e) ==> e == StorageError::InvalidCompletedCoverage,
    {
        match expected_len {
            Some(len) => {
                let mut k: usize = 0;
                while k < completed.len()
                    invariant
                        0 <= k <= completed@.len(),
                        forall|i: int| 0 <= i < k ==> (#[trigger] completed@[i]).wf(),
                    decreases completed@.len() - k,
                {
                    if completed[k].start >= completed[k].end {
                        return Err(StorageError::InvalidCompletedCoverage);
                    }
                    k += 1;
                }
                match validate_recovered_coverage(completed.as_slice(), len) {
                    Ok(()) => {}
                    Err(e) => return Err(e),
                }
            }
            None => {
                if completed.len() != 0 {
                    return Err(StorageError::InvalidCompletedCoverage);
                }
            }
        }
        Ok(WriteLedger {
            phase: WritePhase::Active,
            expected_len,
            next_assignment_id: 1,
            active: BTreeMap::new(),
            stream_active: false,
            completed,
        })
    }
}

} // verus!

verus! {

impl WriteLedger {
    fn overlaps_completed(&self, range: FileRange) -> (overlap: bool)
        ensures
            overlap == !disjoint_from(range, self.completed@),
    {
        let mut k: usize = 0;
        while k < self.completed.len()
            invariant
                0 <= k <= self.completed@.len(),
                forall|i: int| 0 <= i < k ==> !(#[trigger] self.completed@[i]).spec_overlaps(range),
            decreases self.completed@.len() - k,
        {
            if range.overlaps(self.completed[k]) {
                return true;
            }
            k += 1;
        }
        false
    }

    fn overlaps_active(&self, range: FileRange) -> (overlap: bool)
        ensures
            overlap == !disjoint_from_active(range, self.active@),
    {
        let ghost entries = vstd::std_specs::btree::spec_btree_map_iter(&self.active).remaining();
        for entry in it: self.active.iter()
            invariant
                entries == vstd::std_specs::btree::spec_btree_map_iter(&self.active).remaining(),
                forall|i: int| 0 <= i < it.index() ==> !(#[trigger] entries[i]).1.range.spec_overlaps(range),
        {
            proof {
                assert(it.seq() == entries);
                assert(self.active@.contains_key(*entries[it.index()].0));
            }
            if range.overlaps(entry.1.range) {
                return true;
            }
        }
        proof {
            assert forall|id: u64| #[trigger] self.active@.contains_key(id) implies !self.active@[id].range.spec_overlaps(range) by {
                assert(entries.contains((&id, &self.active@[id])));
                let j = choose|j: int| 0 <= j < entries.len() && entries[j] == (&id, &self.active@[id]);
                assert(!entries[j].1.range.spec_overlaps(range));
            }
        }
        false
    }

    /// Reserves a range for one writer. Fails, in this order, when writing is
    /// over (`NotActive`), a stream owns the file, the length is unknown, the
    /// range leaves the file, it overlaps completed or reserved bytes, or
    /// identifiers are exhausted. On success the range is reserved under a
    /// fresh identifier with nothing written yet.
    pub fn assign(&mut self, range: FileRange) -> (id: Result<u64, StorageError>)
        requires
            old(self).wf(),
            range.wf(),
        ensures
            final(self).wf(),
            final(self).spec_phase() == old(self).spec_phase(),
            final(self).spec_expected_len() == old(self).spec_expected_len(),
            final(self).completed_ranges() == old(self).completed_ranges(),
            final(self).spec_stream_active() == old(self).spec_stream_active(),
            id is Err ==> *final(self) == *old(self),
            id == (if old(self).spec_phase() != WritePhase::Active {
                Err::<u64, StorageError>(StorageError::NotActive)
            } else if old(self).spec_stream_active() {
                Err(StorageError::StreamUnavailable)
            } else {
                match old(self).spec_expected_len() {
                    None => Err(StorageError::LengthUnknown),
                    Some(len) => if range.end > len {
                        Err(StorageError::RangeOutOfBounds { range, expected_len: len })
                    } else if !disjoint_from(range, old(self).completed_ranges())
                        || !disjoint_from_active(range, old(self).assignments()) {
                        Err(StorageError::OverlappingAssignment { range })
                    } else if old(self).spec_next_assignment_id() == u64::MAX {
                        Err(StorageError::AssignmentIdExhausted)
                    } else {
                        Ok(old(self).spec_next_assignment_id())
                    },
                }
            }),
            id is Ok ==> !old(self).assignments().contains_key(old(self).spec_next_assignment_id())
                && final(self).assignments() == old(self).assignments().insert(
                old(self).spec_next_assignment_id(), ActiveAssignment { range, next_offset: range.start })
                && final(self).spec_next_assignment_id() == old(self).spec_next_assignment_id() + 1,
    {
        if self.phase != WritePhase::Active {
            return Err(StorageError::NotActive);
        }
        if self.stream_active {
            return Err(StorageError::StreamUnavailable);
        }
        let expected_len = match self.expected_len {
            Some(len) => len,
            None => return Err(StorageError::LengthUnknown),
        };
        if range.end > expected_len {
            return Err(StorageError::RangeOutOfBounds { range, expected_len });
        }
        if self.overlaps_completed(range) || self.overlaps_active(range) {
            return Err(StorageError::OverlappingAssignment { range });
        }
        if self.next_assignment_id == u64::MAX {
            return Err(StorageError::AssignmentIdExhausted);
        }
        let id = self.next_assignment_id;
        let ghost old_active = self.active@;
        proof {
            assert(!old_active.contains_key(id)) by {
                if old_active.contains_key(id) {
                    assert(self.assignment_ok(id, old_active[id]));
                }
            }
        }
        self.active.insert(id, ActiveAssignment { range, next_offset: range.start });
        self.next_assignment_id = id + 1;
        proof {
            let m = self.active@;
            assert forall|k: u64| #[trigger] m.contains_key(k) implies self.assignment_ok(k, m[k]) by {
                if k != id {
                    assert(old_active.contains_key(k));
                }
            }
            assert forall|i: u64, j: u64| #[trigger] m.contains_key(i) && #[trigger] m.contains_key(j) && i != j
                implies !m[i].range.spec_overlaps(m[j].range) by {
                if i != id && j != id {
                    assert(old_active.contains_key(i) && old_active.contains_key(j));
                } else if i != id {
                    assert(old_active.contains_key(i));
                    assert(!old_active[i].range.spec_overlaps(range));
                } else {
                    assert(old_active.contains_key(j));
                    assert(!old_active[j].range.spec_overlaps(range));
                }
            }
        }
        Ok(id)
    }

    /// Gives one sequential stream sole ownership of an unknown-length file.
    /// Fails with `InvalidStreamLimit` for a zero bound, else with
    /// `StreamUnavailable` unless writing is open, nothing is reserved or
    /// completed, and the length is still unknown.
    pub fn begin_stream(&mut self, maximum_len: u64) -> (started: Result<(), StorageError>)
        requires
            old(self).wf(),
        ensures
            final(self).wf(),
            started == (if maximum_len == 0 {
                Err::<(), StorageError>(StorageError::InvalidStreamLimit)
            } else if old(self).spec_phase() != WritePhase::Active || old(self).spec_stream_active()
                || old(self).assignments().len() > 0 || old(self).completed_ranges().len() > 0
                || old(self).spec_expected_len() is Some {
                Err(StorageError::StreamUnavailable)
            } else {
                Ok(())
            }),
            started is Err ==> *final(self) == *old(self),
            started is Ok ==> final(self).spec_stream_active() && final(self).spec_phase() == old(self).spec_phase()
                && final(self).spec_expected_len() == old(self).spec_expected_len()
                && final(self).completed_ranges() == old(self).completed_ranges()
                && final(self).assignments() == old(self).assignments()
                && final(self).spec_next_assignment_id() == old(self).spec_next_assignment_id(),
    {
        if maximum_len == 0 {
            return Err(StorageError::InvalidStreamLimit);
        }
        if self.phase != WritePhase::Active || self.stream_active || self.active.len() > 0
            || self.completed.len() > 0 || self.expected_len.is_some() {
            return Err(StorageError::StreamUnavailable);
        }
        self.stream_active = true;
        Ok(())
    }

    /// Checks one streamed chunk of `byte_count` bytes after `written` bytes
    /// against the stream bound and ownership, returning where it ends.
    pub fn check_stream_write(&self, finished: bool, maximum_len: u64, written: u64, byte_count: u64) -> (end: Result<u64, StorageError>)
        ensures
            end == (if finished {
                Err::<u64, StorageError>(StorageError::StreamUnavailable)
            } else if byte_count == 0 {
                Ok(written)
            } else if written + byte_count > maximum_len {
                Err(StorageError::StreamLimitExceeded { limit: maximum_len })
            } else if self.spec_phase() != WritePhase::Active || !self.spec_stream_active() {
                Err(StorageError::StreamUnavailable)
            } else {
                Ok((written + byte_count) as u64)
            }),
    {
        if finished {
            return Err(StorageError::StreamUnavailable);
        }
        if byte_count == 0 {
            return Ok(written);
        }
        let write_end = match written.checked_add(byte_count) {
            Some(end) => end,
            None => return Err(StorageError::StreamLimitExceeded { limit: maximum_len }),
        };
        if write_end > maximum_len {
            return Err(StorageError::StreamLimitExceeded { limit: maximum_len });
        }
        if self.phase != WritePhase::Active || !self.stream_active {
            return Err(StorageError::StreamUnavailable);
        }
        Ok(write_end)
    }

    /// Seals a stream that reached a clean end after `written` bytes: the
    /// length becomes known and exactly `0..written` is complete.
    pub fn finish_stream(&mut self, written: u64) -> (sealed: Result<u64, StorageError>)
        requires
            old(self).wf(),
        ensures
            final(self).wf(),
            old(self).spec_phase() != WritePhase::Active || !old(self).spec_stream_active() ==>
                sealed == Err::<u64, StorageError>(StorageError::StreamUnavailable) && *final(self) == *old(self),
            old(self).spec_phase() == WritePhase::Active && old(self).spec_stream_active() ==> {
                &&& sealed == Ok::<u64, StorageError>(written)
                &&& final(self).spec_expected_len() == Some(written)
                &&& final(self).completed_ranges() == if written > 0 {
                        seq![FileRange { start: 0, end: written }]
                    } else {
                        Seq::<FileRange>::empty()
                    }
                &&& !final(self).spec_stream_active()
                &&& final(self).spec_phase() == WritePhase::Active
                &&& final(self).assignments() == old(self).assignments()
                &&& final(self).spec_next_assignment_id() == old(self).spec_next_assignment_id()
            },
    {
        if self.phase != WritePhase::Active || !self.stream_active {
            return Err(StorageError::StreamUnavailable);
        }
        self.expected_len = Some(written);
        let mut completed: Vec<FileRange> = Vec::new();
        if written > 0 {
            completed.push(FileRange { start: 0, end: written });
        }
        self.completed = completed;
        self.stream_active = false;
        Ok(written)
    }

    /// A stream writer that ended without sealing releases ownership.
    pub fn abandon_stream(&mut self)
        requires
            old(self).wf(),
        ensures
            final(self).wf(),
            !final(self).spec_stream_active(),
            final(self).spec_phase() == old(self).spec_phase(),
            final(self).spec_expected_len() == old(self).spec_expected_len(),
            final(self).completed_ranges() == old(self).completed_ranges(),
            final(self).assignments() == old(self).assignments(),
            final(self).spec_next_assignment_id() == old(self).spec_next_assignment_id(),
    {
        self.stream_active = false;
    }
}

} // verus!

verus! {

proof fn lemma_overlap_witness(a: FileRange, b: FileRange)
    requires
        a.spec_overlaps(b),
        a.wf(),
        b.wf(),
    ensures
        a.contains(if a.start >= b.start { a.start as int } else { b.start as int }),
        b.contains(if a.start >= b.start { a.start as int } else { b.start as int }),
{
}

impl WriteLedger {
    /// Checks the next sequential write of `byte_count` bytes by the writer of
    /// assignment `id` (which was handed `range`), returning the offset it
    /// starts at.
    pub fn plan_segment_write(&self, id: u64, range: FileRange, byte_count: u64) -> (offset: Result<u64, StorageError>)
        requires
            self.wf(),
            byte_count > 0,
        ensures
            offset == (if self.spec_phase() != WritePhase::Active {
                Err::<u64, StorageError>(StorageError::NotActive)
            } else if !self.assignments().contains_key(id) {
                Err(StorageError::AssignmentClosed)
            } else {
                let a = self.assignments()[id];
                if a.next_offset + byte_count > u64::MAX {
                    Err(StorageError::WriteOutOfBounds { range, offset: a.next_offset, bytes: byte_count })
                } else if a.next_offset + byte_count > a.range.end {
                    Err(StorageError::WriteOutOfBounds { range: a.range, offset: a.next_offset, bytes: byte_count })
                } else {
                    Ok(a.next_offset)
                }
            }),
    {
        if self.phase != WritePhase::Active {
            return Err(StorageError::NotActive);
        }
        let assignment = match self.active.get(&id) {
            Some(a) => *a,
            None => return Err(StorageError::AssignmentClosed),
        };
        let offset = assignment.next_offset;
        let write_end = match offset.checked_add(byte_count) {
            Some(end) => end,
            None => return Err(StorageError::WriteOutOfBounds { range, offset, bytes: byte_count }),
        };
        if write_end > assignment.range.end {
            return Err(StorageError::WriteOutOfBounds { range: assignment.range, offset, bytes: byte_count });
        }
        Ok(offset)
    }

    /// Records that a planned write of assignment `id` reached `write_end`.
    pub fn record_segment_write(&mut self, id: u64, write_end: u64)
        requires
            old(self).wf(),
            old(self).assignments().contains_key(id),
            old(self).assignments()[id].next_offset <= write_end,
            write_end <= old(self).assignments()[id].range.end,
        ensures
            final(self).wf(),
            final(self).assignments() == old(self).assignments().insert(
                id,
                ActiveAssignment { next_offset: write_end, ..old(self).assignments()[id] },
            ),
            final(self).spec_phase() == old(self).spec_phase(),
            final(self).spec_expected_len() == old(self).spec_expected_len(),
            final(self).completed_ranges() == old(self).completed_ranges(),
            final(self).spec_stream_active() == old(self).spec_stream_active(),
            final(self).spec_next_assignment_id() == old(self).spec_next_assignment_id(),
    {
        let assignment = match self.active.get(&id) {
            Some(a) => *a,
            None => return,
        };
        let ghost old_active = self.active@;
        self.active.insert(id, ActiveAssignment { next_offset: write_end, ..assignment });
        proof {
            let m = self.active@;
            assert forall|k: u64| #[trigger] m.contains_key(k) implies self.assignment_ok(k, m[k]) by {
                assert(old_active.contains_key(k));
            }
            assert forall|i: u64, j: u64| #[trigger] m.contains_key(i) && #[trigger] m.contains_key(j) && i != j
                implies !m[i].range.spec_overlaps(m[j].range) by {
                assert(old_active.contains_key(i) && old_active.contains_key(j));
            }
        }
    }

    /// Completes assignment `id` once every assigned byte was written: the
    /// reservation ends and its range joins completed coverage.
    pub fn finish_segment(&mut self, id: u64) -> (done: Result<(), StorageError>)
        requires
            old(self).wf(),
        ensures
            final(self).wf(),
            done is Err ==> *final(self) == *old(self),
            done == (if old(self).spec_phase() != WritePhase::Active {
                Err::<(), StorageError>(StorageError::NotActive)
            } else if !old(self).assignments().contains_key(id) {
                Err(StorageError::AssignmentClosed)
            } else {
                let a = old(self).assignments()[id];
                if a.next_offset != a.range.end {
                    Err(StorageError::IncompleteAssignment {
                        expected: (a.range.end - a.range.start) as u64,
                        written: (a.next_offset - a.range.start) as u64,
                    })
                } else {
                    Ok(())
                }
            }),
            done is Ok ==> {
                let range = old(self).assignments()[id].range;
                &&& final(self).assignments() == old(self).assignments().remove(id)
                &&& forall|b: int| covers(final(self).completed_ranges(), b) <==> (covers(old(self).completed_ranges(), b) || range.contains(b))
                &&& final(self).spec_phase() == old(self).spec_phase()
                &&& final(self).spec_expected_len() == old(self).spec_expected_len()
                &&& final(self).spec_stream_active() == old(self).spec_stream_active()
                &&& final(self).spec_next_assignment_id() == old(self).spec_next_assignment_id()
            },
    {
        if self.phase != WritePhase::Active {
            return Err(StorageError::NotActive);
        }
        let assignment = match self.active.get(&id) {
            Some(a) => *a,
            None => return Err(StorageError::AssignmentClosed),
        };
        if assignment.next_offset != assignment.range.end {
            return Err(StorageError::IncompleteAssignment {
                expected: assignment.range.end - assignment.range.start,
                written: assignment.next_offset - assignment.range.start,
            });
        }
        let ghost old_active = self.active@;
        let ghost old_completed = self.completed@;
        self.active.remove(&id);
        let range = assignment.range;
        proof {
            assert(self.assignment_ok(id, assignment));
        }
        insert_completed(&mut self.completed, range);
        proof {
            let a = self.active@;
            let c = self.completed@;
            let len = self.expected_len->Some_0;
            assert forall|i: u64, j: u64| #[trigger] a.contains_key(i) && #[trigger] a.contains_key(j) && i != j
                implies !a[i].range.spec_overlaps(a[j].range) by {
                assert(old_active.contains_key(i) && old_active.contains_key(j));
            }
            assert forall|k: u64| #[trigger] a.contains_key(k) implies self.assignment_ok(k, a[k]) by {
                assert(old_active.contains_key(k));
                let r = a[k].range;
                assert(!range.spec_overlaps(r));
                assert forall|q: int| 0 <= q < c.len() implies !(#[trigger] c[q]).spec_overlaps(r) by {
                    if c[q].spec_overlaps(r) {
                        let w = if c[q].start >= r.start { c[q].start as int } else { r.start as int };
                        lemma_overlap_witness(c[q], r);
                        assert(covers(c, w));
                        if range.contains(w) {
                            assert(range.spec_overlaps(r));
                        } else {
                            assert(covers(old_completed, w));
                            let m = choose|m: int| 0 <= m < old_completed.len() && #[trigger] old_completed[m].contains(w);
                            assert(old_completed[m].spec_overlaps(r));
                        }
                    }
                }
            }
            assert forall|k: int| 0 <= k < c.len() implies (#[trigger] c[k]).wf() && c[k].end <= len by {
                assert(c[k].wf());
                let w = (c[k].end - 1) as int;
                assert(c[k].contains(w));
                assert(covers(c, w));
                if !range.contains(w) {
                    let m = choose|m: int| 0 <= m < old_completed.len() && #[trigger] old_completed[m].contains(w);
                    assert(old_completed[m].end <= len);
                }
                if c[k].end > len {
                    let w2 = len as int;
                    assert(c[k].contains(w2));
                    assert(covers(c, w2));
                    if !range.contains(w2) {
                        let m = choose|m: int| 0 <= m < old_completed.len() && #[trigger] old_completed[m].contains(w2);
                        assert(old_completed[m].end <= len);
                    }
                }
            }
        }
        Ok(())
    }

    /// A segment writer that ended without finishing releases its range.
    pub fn abandon_segment(&mut self, id: u64)
        requires
            old(self).wf(),
        ensures
            final(self).wf(),
            !old(self).assignments().contains_key(id) ==> *final(self) == *old(self),
            final(self).assignments() == old(self).assignments().remove(id),
            final(self).spec_phase() == old(self).spec_phase(),
            final(self).spec_expected_len() == old(self).spec_expected_len(),
            final(self).completed_ranges() == old(self).completed_ranges(),
            final(self).spec_stream_active() == old(self).spec_stream_active(),
            final(self).spec_next_assignment_id() == old(self).spec_next_assignment_id(),
    {
        if self.active.contains_key(&id) {
            let ghost old_active = self.active@;
            self.active.remove(&id);
            proof {
                let a = self.active@;
                assert forall|i: u64, j: u64| #[trigger] a.contains_key(i) && #[trigger] a.contains_key(j) && i != j
                    implies !a[i].range.spec_overlaps(a[j].range) by {
                    assert(old_active.contains_key(i) && old_active.contains_key(j));
                }
                assert forall|k: u64| #[trigger] a.contains_key(k) implies self.assignment_ok(k, a[k]) by {
                    assert(old_active.contains_key(k));
                }
            }
        } else {
            proof {
                assert(self.active@.remove(id) =~= self.active@);
            }
        }
    }
}

} // verus!

verus! {

impl WriteLedger {
    /// Freezes writers for validation of a complete file: fails with
    /// `NotActive` unless writing is open, `ActiveAssignments` while a writer
    /// or stream remains, `LengthUnknown` without a length, and
    /// `IncompleteCoverage` unless exactly `0..len` is complete. Returns the
    /// length to validate.
    pub fn begin_validation(&mut self) -> (size: Result<u64, StorageError>)
        requires
            old(self).wf(),
        ensures
            final(self).wf(),
            size is Err ==> *final(self) == *old(self),
            size == (if old(self).spec_phase() != WritePhase::Active {
                Err::<u64, StorageError>(StorageError::NotActive)
            } else if old(self).assignments().len() > 0 || old(self).spec_stream_active() {
                Err(StorageError::ActiveAssignments {
                    count: (old(self).assignments().len() + if old(self).spec_stream_active() { 1int } else { 0int }) as usize,
                })
            } else {
                match old(self).spec_expected_len() {
                    None => Err(StorageError::LengthUnknown),
                    Some(len) => if is_exact_coverage(old(self).completed_ranges(), len as int) {
                        Ok(len)
                    } else {
                        Err(StorageError::IncompleteCoverage)
                    },
                }
            }),
            size is Ok ==> final(self).spec_phase() == WritePhase::Validating
                && final(self).completed_ranges() == old(self).completed_ranges()
                && final(self).spec_expected_len() == old(self).spec_expected_len()
                && final(self).assignments() == old(self).assignments()
                && final(self).spec_stream_active() == old(self).spec_stream_active(),
    {
        if self.phase != WritePhase::Active {
            return Err(StorageError::NotActive);
        }
        if self.active.len() > 0 || self.stream_active {
            let streams: usize = if self.stream_active { 1 } else { 0 };
            assert(self.stream_active ==> self.active@.len() == 0);
            return Err(StorageError::ActiveAssignments { count: self.active.len() + streams });
        }
        let size = match self.expected_len {
            Some(len) => len,
            None => return Err(StorageError::LengthUnknown),
        };
        if !has_exact_coverage(self.completed.as_slice(), size) {
            return Err(StorageError::IncompleteCoverage);
        }
        self.phase = WritePhase::Validating;
        Ok(size)
    }

    /// Records that the complete file passed validation.
    pub fn mark_validated(&mut self)
        requires
            old(self).wf(),
        ensures
            final(self).wf(),
            final(self).spec_phase() == WritePhase::Validated,
            final(self).completed_ranges() == old(self).completed_ranges(),
            final(self).spec_expected_len() == old(self).spec_expected_len(),
            final(self).assignments() == old(self).assignments(),
            final(self).spec_stream_active() == old(self).spec_stream_active(),
    {
        self.phase = WritePhase::Validated;
    }

    /// An unpublished validation lease ended: writing may resume.
    pub fn release_validation(&mut self)
        requires
            old(self).wf(),
        ensures
            final(self).wf(),
            final(self).spec_phase() == match old(self).spec_phase() {
                WritePhase::Validating | WritePhase::Validated => WritePhase::Active,
                other => other,
            },
            final(self).completed_ranges() == old(self).completed_ranges(),
            final(self).spec_expected_len() == old(self).spec_expected_len(),
            final(self).assignments() == old(self).assignments(),
            final(self).spec_stream_active() == old(self).spec_stream_active(),
    {
        if self.phase == WritePhase::Validating || self.phase == WritePhase::Validated {
            self.phase = WritePhase::Active;
        }
    }

    /// Starts publication of a validated file, re-checking that no writer is
    /// active and coverage is still exact. Returns the length to publish.
    pub fn begin_publication(&mut self) -> (size: Result<u64, StorageError>)
        requires
            old(self).wf(),
        ensures
            final(self).wf(),
            size is Err ==> *final(self) == *old(self),
            size == (if old(self).spec_phase() != WritePhase::Validated {
                Err::<u64, StorageError>(StorageError::NotActive)
            } else if old(self).assignments().len() > 0 || old(self).spec_stream_active() {
                Err(StorageError::ActiveAssignments {
                    count: (old(self).assignments().len() + if old(self).spec_stream_active() { 1int } else { 0int }) as usize,
                })
            } else {
                match old(self).spec_expected_len() {
                    None => Err(StorageError::LengthUnknown),
                    Some(len) => if is_exact_coverage(old(self).completed_ranges(), len as int) {
                        Ok(len)
                    } else {
                        Err(StorageError::IncompleteCoverage)
                    },
                }
            }),
            size is Ok ==> final(self).spec_phase() == WritePhase::Publishing
                && final(self).completed_ranges() == old(self).completed_ranges()
                && final(self).spec_expected_len() == old(self).spec_expected_len()
                && final(self).assignments() == old(self).assignments(),
    {
        if self.phase != WritePhase::Validated {
            return Err(StorageError::NotActive);
        }
        if self.active.len() > 0 || self.stream_active {
            let streams: usize = if self.stream_active { 1 } else { 0 };
            assert(self.stream_active ==> self.active@.len() == 0);
            return Err(StorageError::ActiveAssignments { count: self.active.len() + streams });
        }
        let size = match self.expected_len {
            Some(len) => len,
            None => return Err(StorageError::LengthUnknown),
        };
        if !has_exact_coverage(self.completed.as_slice(), size) {
            return Err(StorageError::IncompleteCoverage);
        }
        self.phase = WritePhase::Publishing;
        Ok(size)
    }

    /// Publication ended: `Published` when the final name exists, back to
    /// `Validated` when it failed.
    pub fn end_publication(&mut self, succeeded: bool)
        requires
            old(self).wf(),
        ensures
            final(self).wf(),
            final(self).spec_phase() == if succeeded { WritePhase::Published } else { WritePhase::Validated },
            final(self).completed_ranges() == old(self).completed_ranges(),
            final(self).spec_expected_len() == old(self).spec_expected_len(),
            final(self).assignments() == old(self).assignments(),
            final(self).spec_stream_active() == old(self).spec_stream_active(),
    {
        self.phase = if succeeded { WritePhase::Published } else { WritePhase::Validated };
    }

    /// Completed coverage, while writing is open.
    pub fn completed_snapshot(&self) -> (snapshot: Result<Vec<FileRange>, StorageError>)
        ensures
            self.spec_phase() != WritePhase::Active ==> snapshot == Err::<Vec<FileRange>, StorageError>(StorageError::NotActive),
            self.spec_phase() == WritePhase::Active ==> (snapshot matches Ok(v) && v@ == self.completed_ranges()),
    {
        if self.phase != WritePhase::Active {
            return Err(StorageError::NotActive);
        }
        let mut out: Vec<FileRange> = Vec::new();
        let mut k: usize = 0;
        while k < self.completed.len()
            invariant
                0 <= k <= self.completed@.len(),
                out@ == self.completed@.take(k as int),
            decreases self.completed@.len() - k,
        {
            out.push(self.completed[k]);
            proof {
                assert(self.completed@.take(k + 1) =~= self.completed@.take(k as int).push(self.completed@[k as int]));
            }
            k += 1;
        }
        proof {
            assert(self.completed@.take(self.completed@.len() as int) =~= self.completed@);
        }
        Ok(out)
    }

    /// Completed coverage at any phase.
    pub fn completed_view(&self) -> (ranges: &[FileRange])
        ensures
            ranges@ == self.completed_ranges(),
    {
        self.completed.as_slice()
    }

    /// The publication phase.
    pub fn phase(&self) -> (phase: WritePhase)
        ensures
            phase == self.spec_phase(),
    {
        self.phase
    }

    /// The expected length, once known.
    pub fn expected_len(&self) -> (len: Option<u64>)
        ensures
            len == self.spec_expected_len(),
    {
        self.expected_len
    }
}

/// No byte is ever owned twice: two active assignments never overlap, and
/// no active assignment overlaps completed coverage.
pub proof fn lemma_single_ownership(ledger: WriteLedger, i: u64, j: u64, k: int)
    requires
        ledger.wf(),
        ledger.assignments().contains_key(i),
        ledger.assignments().contains_key(j),
        i != j,
        0 <= k < ledger.completed_ranges().len(),
    ensures
        !ledger.assignments()[i].range.spec_overlaps(ledger.assignments()[j].range),
        !ledger.completed_ranges()[k].spec_overlaps(ledger.assignments()[i].range),
{
    assert(ledger.assignment_ok(i, ledger.assignments()[i]));
}

/// Completed coverage always stays canonical and inside the known file.
pub proof fn lemma_completed_canonical(ledger: WriteLedger)
    requires
        ledger.wf(),
    ensures
        canonical(ledger.completed_ranges()),
        ledger.spec_expected_len() matches Some(len) ==> canonical_within(ledger.completed_ranges(), len as int),
{
}

} // verus!

verus! {

/// Streaming checksum validation of a complete file of known length: the
/// file's bytes are fed in order, never more than the expected length.
pub struct ChecksumRun {
    expected_len: u64,
    read: u64,
    state: Sha256State,
}

impl ChecksumRun {
    /// Bytes fed so far.
    pub closed spec fn data(&self) -> Seq<u8> {
        sha256_input(self.state)
    }

    /// Length the file must have.
    pub closed spec fn spec_expected_len(&self) -> u64 {
        self.expected_len
    }

    pub closed spec fn wf(&self) -> bool {
        self.read == sha256_input(self.state).len() && self.read <= self.expected_len
    }

    /// Starts validating a file of `expected_len` bytes.
    pub fn new(expected_len: u64) -> (run: ChecksumRun)
        ensures
            run.wf(),
            run.data() == Seq::<u8>::empty(),
            run.spec_expected_len() == expected_len,
    {
        ChecksumRun { expected_len, read: 0, state: sha256_new() }
    }

    /// Feeds the next bytes read from the file; reading past the expected
    /// length means the file changed.
    pub fn absorb(&mut self, chunk: &[u8]) -> (fed: Result<(), StorageError>)
        requires
            old(self).wf(),
        ensures
            final(self).spec_expected_len() == old(self).spec_expected_len(),
            fed is Ok <==> old(self).data().len() + chunk@.len() <= old(self).spec_expected_len(),
            fed is Ok ==> final(self).wf() && final(self).data() == old(self).data() + chunk@,
            fed matches Err(e) ==> e == (StorageError::FileLengthChanged {
                expected: old(self).spec_expected_len(),
                actual: (old(self).data().len() + chunk@.len()) as u64,
            }) && old(self).data().len() + chunk@.len() <= u64::MAX
                || e == StorageError::NotActive && old(self).data().len() + chunk@.len() > u64::MAX,
    {
        let count = chunk.len() as u64;
        let read = match self.read.checked_add(count) {
            Some(read) => read,
            None => return Err(StorageError::NotActive),
        };
        if read > self.expected_len {
            return Err(StorageError::FileLengthChanged { expected: self.expected_len, actual: read });
        }
        sha256_update(&mut self.state, chunk);
        self.read = read;
        Ok(())
    }

    /// Ends validation: the file must have had exactly the expected length
    /// and the expected digest.
    pub fn finish(self, expected: &ExpectedSha256) -> (checked: Result<(), StorageError>)
        requires
            self.wf(),
        ensures
            checked == (if self.data().len() != self.spec_expected_len() {
                Err::<(), StorageError>(StorageError::FileLengthChanged {
                    expected: self.spec_expected_len(),
                    actual: self.data().len() as u64,
                })
            } else if sha256_of(self.data()) != expected@ {
                Err(StorageError::ChecksumMismatch)
            } else {
                Ok(())
            }),
    {
        if self.read != self.expected_len {
            return Err(StorageError::FileLengthChanged { expected: self.expected_len, actual: self.read });
        }
        let digest = sha256_finalize(self.state);
        let wanted = expected.bytes();
        let mut k: usize = 0;
        while k < 32
            invariant
                0 <= k <= 32,
                digest@.len() == 32,
                wanted@.len() == 32,
                digest@ == sha256_of(sha256_input(self.state)),
                wanted@ == expected@,
                self.read == self.expected_len,
                self.wf(),
                forall|i: int| 0 <= i < k ==> digest@[i] == wanted@[i],
            decreases 32 - k,
        {
            if digest[k] != wanted[k] {
                assert(digest@[k as int] != wanted@[k as int]);
                assert(digest@ != wanted@);
                return Err(StorageError::ChecksumMismatch);
            }
            k += 1;
        }
        proof {
            assert(digest@ =~= wanted@);
        }
        Ok(())
    }
}

} // verus!

verus! {

/// The `std::io::ErrorKind`s the failure classification distinguishes.
#[derive(Debug, Clone, Copy, PartialEq, Eq, Structural)]
pub enum IoErrorKind {
    StorageFull,
    QuotaExceeded,
    PermissionDenied,
    ReadOnlyFilesystem,
    AlreadyExists,
    NotFound,
    Unsupported,
    CrossesDevices,
    /// Any other kind.
    Other,
}

/// The stable classification of an I/O failure: on Windows the sharing,
/// lock, capacity, existence and support error codes decide first; then the
/// error kind.
pub open spec fn io_failure_of(kind: IoErrorKind, os_code: Option<i32>, windows: bool) -> IoFailure {
    let by_code = if windows {
        match os_code {
            Some(code) => if code == 32 || code == 33 {
                Some(IoFailure::FileLocked)
            } else if code == 39 || code == 112 {
                Some(IoFailure::DiskFull)
            } else if code == 80 || code == 183 {
                Some(IoFailure::AlreadyExists)
            } else if code == 1 || code == 17 || code == 50 {
                Some(IoFailure::Unsupported)
            } else {
                None
            },
            None => None,
        }
    } else {
        None
    };
    match by_code {
        Some(failure) => failure,
        None => match kind {
            IoErrorKind::StorageFull | IoErrorKind::QuotaExceeded => IoFailure::DiskFull,
            IoErrorKind::PermissionDenied | IoErrorKind::ReadOnlyFilesystem => IoFailure::AccessDenied,
            IoErrorKind::AlreadyExists => IoFailure::AlreadyExists,
            IoErrorKind::NotFound => IoFailure::NotFound,
            IoErrorKind::Unsupported | IoErrorKind::CrossesDevices => IoFailure::Unsupported,
            IoErrorKind::Other => IoFailure::Other,
        },
    }
}

/// Classifies an I/O failure (see [`io_failure_of`]); `windows` says whether
/// the code is a Windows system error code.
pub fn classify_io(kind: IoErrorKind, os_code: Option<i32>, windows: bool) -> (failure: IoFailure)
    ensures
        failure == io_failure_of(kind, os_code, windows),
{
    if windows {
        if let Some(code) = os_code {
            if code == 32 || code == 33 {
                return IoFailure::FileLocked;
            }
            if code == 39 || code == 112 {
                return IoFailure::DiskFull;
            }
            if code == 80 || code == 183 {
                return IoFailure::AlreadyExists;
            }
            if code == 1 || code == 17 || code == 50 {
                return IoFailure::Unsupported;
            }
        }
    }
    match kind {
        IoErrorKind::StorageFull | IoErrorKind::QuotaExceeded => IoFailure::DiskFull,
        IoErrorKind::PermissionDenied | IoErrorKind::ReadOnlyFilesystem => IoFailure::AccessDenied,
        IoErrorKind::AlreadyExists => IoFailure::AlreadyExists,
        IoErrorKind::NotFound => IoFailure::NotFound,
        IoErrorKind::Unsupported | IoErrorKind::CrossesDevices => IoFailure::Unsupported,
        IoErrorKind::Other => IoFailure::Other,
    }
}

#[verifier::external_type_specification]
#[verifier::external_body]
pub struct ExIoError(std::io::Error);

/// Reads `std::io::Error::kind` and names it by one of the kinds the
/// classification distinguishes, one arm per kind, everything else `Other`.
/// The result depends on the error value, which is opaque here, so nothing
/// is claimed of it.
#[verifier::external_body]
fn io_error_kind(error: &std::io::Error) -> (kind: IoErrorKind) {
    match error.kind() {
        std::io::ErrorKind::StorageFull => IoErrorKind::StorageFull,
        std::io::ErrorKind::QuotaExceeded => IoErrorKind::QuotaExceeded,
        std::io::ErrorKind::PermissionDenied => IoErrorKind::PermissionDenied,
        std::io::ErrorKind::ReadOnlyFilesystem => IoErrorKind::ReadOnlyFilesystem,
        std::io::ErrorKind::AlreadyExists => IoErrorKind::AlreadyExists,
        std::io::ErrorKind::NotFound => IoErrorKind::NotFound,
        std::io::ErrorKind::Unsupported => IoErrorKind::Unsupported,
        std::io::ErrorKind::CrossesDevices => IoErrorKind::CrossesDevices,
        _ => IoErrorKind::Other,
    }
}

/// Calls `std::io::Error::raw_os_error`. Nothing is claimed of the result.
#[verifier::external_body]
fn io_raw_os_error(error: &std::io::Error) -> (code: Option<i32>) {
    error.raw_os_error()
}

/// Classifies an operating-system I/O error: its kind and raw code are read
/// from the error and classified by [`io_failure_of`].
pub fn classify_io_error(error: &std::io::Error, windows: bool) -> (failure: IoFailure)
    ensures
        exists|kind: IoErrorKind, code: Option<i32>| failure == io_failure_of(kind, code, windows),
{
    let kind = io_error_kind(error);
    let code = io_raw_os_error(error);
    let failure = classify_io(kind, code, windows);
    assert(failure == io_failure_of(kind, code, windows));
    failure
}

/// The path-free storage error for a failed filesystem operation: the
/// operation, the classified failure and the raw OS code, all read from one
/// error.
pub fn storage_io_error(operation: StorageOperation, error: &std::io::Error, windows: bool) -> (mapped: StorageError)
    ensures
        mapped matches StorageError::Io { operation: op, failure, os_code } && op == operation
            && exists|kind: IoErrorKind| failure == io_failure_of(kind, os_code, windows),
{
    let kind = io_error_kind(error);
    let code = io_raw_os_error(error);
    let failure = classify_io(kind, code, windows);
    assert(failure == io_failure_of(kind, code, windows));
    StorageError::Io { operation, failure, os_code: code }
}

} // verus!

verus! {

/// Successful final publication information.
#[derive(Debug, Clone)]
pub struct Promotion {
    final_path: String,
    partial_path: Option<String>,
    partial_cleanup_failure: Option<IoFailure>,
}

impl Promotion {
    pub closed spec fn spec_final_path(&self) -> Seq<char> {
        self.final_path@
    }

    pub closed spec fn spec_partial_path(&self) -> Option<Seq<char>> {
        match self.partial_path {
            Some(p) => Some(p@),
            None => None,
        }
    }

    pub closed spec fn spec_partial_cleanup_failure(&self) -> Option<IoFailure> {
        self.partial_cleanup_failure
    }

    /// A fresh publication: the final file is visible under `final_path`, and
    /// the partial link at `partial_path` is retained until publication
    /// metadata is durable.
    pub fn published(final_path: String, partial_path: String) -> (promotion: Promotion)
        ensures
            promotion.spec_final_path() == final_path@,
            promotion.spec_partial_path() == Some(partial_path@),
            promotion.spec_partial_cleanup_failure() is None,
    {
        Promotion { final_path, partial_path: Some(partial_path), partial_cleanup_failure: None }
    }

    /// Collision-safe final path selected during atomic publication.
    pub fn final_path(&self) -> (path: &str)
        ensures
            path@ == self.spec_final_path(),
    {
        self.final_path.as_str()
    }

    /// Redundant partial link retained until publication metadata is durable.
    pub fn partial_path(&self) -> (path: Option<&str>)
        ensures
            path matches Some(p) ==> self.spec_partial_path() == Some(p@),
            path is None ==> self.spec_partial_path() is None,
    {
        match &self.partial_path {
            Some(p) => Some(p.as_str()),
            None => None,
        }
    }

    /// A non-fatal cleanup failure after the final name became visible.
    ///
    /// The final file is complete when this is present; recovery may remove
    /// the now-redundant `.part` hard link later.
    pub fn partial_cleanup_failure(&self) -> (failure: Option<IoFailure>)
        ensures
            failure == self.spec_partial_cleanup_failure(),
    {
        self.partial_cleanup_failure
    }

    /// Records one attempt to remove the redundant partial link.
    ///
    /// `same_file` says whether the partial link still names the final file
    /// (or how reading that failed); `removal` is the outcome of removing the
    /// link, which is attempted only when it does. Without a partial link
    /// there is nothing to do. A link that names another file is an invalid
    /// destination. A failed check or removal is a `CleanupPartial` I/O error;
    /// a failed removal is also remembered, and the link is kept for a later
    /// attempt. A successful removal forgets the link and any earlier failure.
    pub fn record_cleanup(
        &mut self,
        same_file: Result<bool, (IoFailure, Option<i32>)>,
        removal: Result<(), (IoFailure, Option<i32>)>,
    ) -> (result: Result<(), StorageError>)
        ensures
            final(self).spec_final_path() == old(self).spec_final_path(),
            old(self).spec_partial_path() is None ==> result is Ok && final(self).spec_partial_path() is None
                && final(self).spec_partial_cleanup_failure() == old(self).spec_partial_cleanup_failure(),
            old(self).spec_partial_path() is Some ==> match same_file {
                Err((failure, os_code)) => result == Err::<(), StorageError>(StorageError::Io {
                    operation: StorageOperation::CleanupPartial,
                    failure,
                    os_code,
                }) && final(self).spec_partial_path() == old(self).spec_partial_path()
                    && final(self).spec_partial_cleanup_failure() == old(self).spec_partial_cleanup_failure(),
                Ok(false) => result == Err::<(), StorageError>(StorageError::InvalidDestination)
                    && final(self).spec_partial_path() == old(self).spec_partial_path()
                    && final(self).spec_partial_cleanup_failure() == old(self).spec_partial_cleanup_failure(),
                Ok(true) => match removal {
                    Err((failure, os_code)) => result == Err::<(), StorageError>(StorageError::Io {
                        operation: StorageOperation::CleanupPartial,
                        failure,
                        os_code,
                    }) && final(self).spec_partial_path() == old(self).spec_partial_path()
                        && final(self).spec_partial_cleanup_failure() == Some(failure),
                    Ok(()) => result is Ok && final(self).spec_partial_path() is None
                        && final(self).spec_partial_cleanup_failure() is None,
                },
            },
    {
        if self.partial_path.is_none() {
            return Ok(());
        }
        match same_file {
            Err((failure, os_code)) => Err(StorageError::Io { operation: StorageOperation::CleanupPartial, failure, os_code }),
            Ok(false) => Err(StorageError::InvalidDestination),
            Ok(true) => match removal {
                Err((failure, os_code)) => {
                    self.partial_cleanup_failure = Some(failure);
                    Err(StorageError::Io { operation: StorageOperation::CleanupPartial, failure, os_code })
                }
                Ok(()) => {
                    self.partial_path = None;
                    self.partial_cleanup_failure = None;
                    Ok(())
                }
            },
        }
    }
}

} // verus!

verus! {

/// The lowercase hexadecimal digit of `d` (below 16).
pub open spec fn hex_char(d: int) -> char {
    if d < 10 {
        (48 + d) as char
    } else {
        (87 + d) as char
    }
}

/// The last `count` hexadecimal digits of `value`, most significant first.
pub open spec fn hex_digits(value: nat, count: nat) -> Seq<char>
    decreases count,
{
    if count == 0 {
        Seq::empty()
    } else {
        hex_digits(value / 16, (count - 1) as nat).push(hex_char((value % 16) as int))
    }
}

/// How many hexadecimal digits write `value` (at least one).
pub open spec fn hex_width(value: nat) -> nat
    decreases value,
{
    if value < 16 {
        1
    } else {
        1 + hex_width(value / 16)
    }
}

/// An attempt number in hexadecimal, at least two digits wide.
pub open spec fn attempt_text(attempt: u64) -> Seq<char> {
    let width = hex_width(attempt as nat);
    hex_digits(attempt as nat, if width < 2 { 2 } else { width })
}

/// `.dm-`, the nonce in 32 hexadecimal digits, `-`, the attempt, `.part`.
pub open spec fn part_suffix(nonce: u128, attempt: u64) -> Seq<char> {
    seq!['.', 'd', 'm', '-'] + hex_digits(nonce as nat, 32) + seq!['-'] + attempt_text(attempt) + seq![
        '.',
        'p',
        'a',
        'r',
        't',
    ]
}

/// A partial's name: the final name cut to leave room for the suffix
/// within the filename bound, then the suffix.
pub open spec fn part_filename_of(final_name: Seq<char>, nonce: u128, attempt: u64) -> Seq<char> {
    let suffix = part_suffix(nonce, attempt);
    let available = if suffix.len() >= MAX_FILENAME_UTF16_UNITS { 0 } else {
        MAX_FILENAME_UTF16_UNITS - suffix.len()
    };
    crate::filename::truncate16(final_name, available) + suffix
}

/// Whether a name is one this library gives partials: a non-empty prefix,
/// then `.dm-`, 32 lowercase hexadecimal digits, `-`, two more, and `.part`.
pub open spec fn is_managed_partial_text(v: Seq<char>) -> bool {
    let n = v.len() as int;
    &&& n >= 45
    &&& v.subrange(n - 44, n - 40) == seq!['.', 'd', 'm', '-']
    &&& crate::persistence::all_lower_hex(v.subrange(n - 40, n - 8))
    &&& v[n - 8] == '-'
    &&& crate::persistence::all_lower_hex(v.subrange(n - 7, n - 5))
    &&& v.subrange(n - 5, n) == seq!['.', 'p', 'a', 'r', 't']
}

fn hex_digit(d: u8) -> (c: char)
    requires
        d < 16,
    ensures
        c == hex_char(d as int),
{
    match d {
        0 => '0',
        1 => '1',
        2 => '2',
        3 => '3',
        4 => '4',
        5 => '5',
        6 => '6',
        7 => '7',
        8 => '8',
        9 => '9',
        10 => 'a',
        11 => 'b',
        12 => 'c',
        13 => 'd',
        14 => 'e',
        _ => 'f',
    }
}

fn push_hex(out: &mut Vec<char>, value: u128, count: usize)
    ensures
        final(out)@ == old(out)@ + hex_digits(value as nat, count as nat),
    decreases count,
{
    if count == 0 {
        assert(old(out)@ + Seq::<char>::empty() =~= old(out)@);
        return;
    }
    push_hex(out, value / 16, count - 1);
    out.push(hex_digit((value % 16) as u8));
    proof {
        assert(hex_digits(value as nat, count as nat) == hex_digits((value / 16) as nat, (count - 1) as nat).push(
            hex_char((value % 16) as int),
        ));
        assert(final(out)@ =~= old(out)@ + hex_digits(value as nat, count as nat));
    }
}

fn hex_width_of(value: u64) -> (width: usize)
    ensures
        width == hex_width(value as nat),
        width <= 16,
{
    proof {
        lemma_hex_width_of_u64(value);
    }
    let mut rest: u64 = value;
    let mut width: usize = 1;
    while rest >= 16
        invariant
            width + hex_width(rest as nat) == hex_width(value as nat) + 1,
            hex_width(value as nat) <= 16,
            1 <= width,
        decreases rest,
    {
        proof {
            assert(hex_width(rest as nat) == 1 + hex_width((rest / 16) as nat));
            lemma_hex_width_positive((rest / 16) as nat);
        }
        rest = rest / 16;
        width += 1;
    }
    width
}

/// Sixteen to the power `k`.
pub open spec fn pow16(k: nat) -> nat
    decreases k,
{
    if k == 0 {
        1
    } else {
        16 * pow16((k - 1) as nat)
    }
}

proof fn lemma_hex_width_positive(v: nat)
    ensures
        hex_width(v) >= 1,
    decreases v,
{
    if v >= 16 {
        lemma_hex_width_positive(v / 16);
    }
}

proof fn lemma_hex_width_le(v: nat, k: nat)
    requires
        1 <= k,
        v < pow16(k),
    ensures
        hex_width(v) <= k,
    decreases k,
{
    if v >= 16 {
        if k == 1 {
            assert(pow16(1) == 16 * pow16(0));
        } else {
            let p = pow16((k - 1) as nat);
            assert(v / 16 < p) by (nonlinear_arith)
                requires
                    v < 16 * p,
            ;
            lemma_hex_width_le(v / 16, (k - 1) as nat);
        }
    }
}

proof fn lemma_hex_width_of_u64(value: u64)
    ensures
        hex_width(value as nat) <= 16,
{
    reveal_with_fuel(pow16, 17);
    assert(pow16(16) == 18446744073709551616nat);
    lemma_hex_width_le(value as nat, 16);
}

proof fn lemma_hex_digits_shape(value: nat, count: nat)
    ensures
        hex_digits(value, count).len() == count,
        crate::persistence::all_lower_hex(hex_digits(value, count)),
    decreases count,
{
    if count > 0 {
        lemma_hex_digits_shape(value / 16, (count - 1) as nat);
        let d = (value % 16) as int;
        assert(crate::persistence::is_lower_hex(hex_char(d)));
        let s = hex_digits(value, count);
        assert forall|i: int| 0 <= i < s.len() implies crate::persistence::is_lower_hex(#[trigger] s[i]) by {
            if i < s.len() - 1 {
                assert(s[i] == hex_digits(value / 16, (count - 1) as nat)[i]);
            }
        }
    }
}

/// The name of a new partial for `final_name` (see [`part_filename_of`]).
pub fn part_filename(final_name: &str, nonce: u128, attempt: u64) -> (name: String)
    ensures
        name@ == part_filename_of(final_name@, nonce, attempt),
{
    let mut suffix: Vec<char> = Vec::new();
    suffix.push('.');
    suffix.push('d');
    suffix.push('m');
    suffix.push('-');
    push_hex(&mut suffix, nonce, 32);
    suffix.push('-');
    let width = hex_width_of(attempt);
    let digits = if width < 2 { 2 } else { width };
    push_hex(&mut suffix, attempt as u128, digits);
    suffix.push('.');
    suffix.push('p');
    suffix.push('a');
    suffix.push('r');
    suffix.push('t');
    proof {
        lemma_hex_digits_shape(nonce as nat, 32);
        lemma_hex_digits_shape(attempt as nat, digits as nat);
        assert(suffix@ =~= part_suffix(nonce, attempt));
    }
    let available = if suffix.len() >= MAX_FILENAME_UTF16_UNITS { 0 } else { MAX_FILENAME_UTF16_UNITS - suffix.len() };
    let prefix = truncate_utf16(final_name, available);
    let mut chars = crate::text::chars_of(prefix.as_str());
    let mut k: usize = 0;
    let ghost start = chars@;
    while k < suffix.len()
        invariant
            0 <= k <= suffix@.len(),
            chars@ == start + suffix@.subrange(0, k as int),
        decreases suffix@.len() - k,
    {
        chars.push(suffix[k]);
        k += 1;
        proof {
            assert(chars@ =~= start + suffix@.subrange(0, k as int));
        }
    }
    proof {
        assert(suffix@.subrange(0, suffix@.len() as int) =~= suffix@);
    }
    crate::text::string_from_chars(chars.as_slice())
}

/// Whether a name is a managed partial's (see [`is_managed_partial_text`]).
pub fn is_managed_partial_filename(value: &str) -> (managed: bool)
    ensures
        managed == is_managed_partial_text(value@),
{
    let chars = crate::text::chars_of(value);
    let n = chars.len();
    if n < 45 {
        return false;
    }
    if !(chars[n - 44] == '.' && chars[n - 43] == 'd' && chars[n - 42] == 'm' && chars[n - 41] == '-') {
        proof {
            assert(!(value@.subrange(n - 44, n - 40) == seq!['.', 'd', 'm', '-'])) by {
                if value@.subrange(n - 44, n - 40) == seq!['.', 'd', 'm', '-'] {
                    assert(value@.subrange(n - 44, n - 40)[0] == chars@[n - 44]);
                    assert(value@.subrange(n - 44, n - 40)[1] == chars@[n - 43]);
                    assert(value@.subrange(n - 44, n - 40)[2] == chars@[n - 42]);
                    assert(value@.subrange(n - 44, n - 40)[3] == chars@[n - 41]);
                }
            }
        }
        return false;
    }
    if !(chars[n - 8] == '-' && chars[n - 5] == '.' && chars[n - 4] == 'p' && chars[n - 3] == 'a' && chars[n - 2] == 'r'
        && chars[n - 1] == 't') {
        proof {
            if value@[n - 8] == '-' {
                assert(!(value@.subrange(n - 5, n as int) == seq!['.', 'p', 'a', 'r', 't'])) by {
                    if value@.subrange(n - 5, n as int) == seq!['.', 'p', 'a', 'r', 't'] {
                        assert(value@.subrange(n - 5, n as int)[0] == chars@[n - 5]);
                        assert(value@.subrange(n - 5, n as int)[1] == chars@[n - 4]);
                        assert(value@.subrange(n - 5, n as int)[2] == chars@[n - 3]);
                        assert(value@.subrange(n - 5, n as int)[3] == chars@[n - 2]);
                        assert(value@.subrange(n - 5, n as int)[4] == chars@[n - 1]);
                    }
                }
            }
        }
        return false;
    }
    proof {
        assert(value@.subrange(n - 44, n - 40) =~= seq!['.', 'd', 'm', '-']);
        assert(value@.subrange(n - 5, n as int) =~= seq!['.', 'p', 'a', 'r', 't']);
    }
    let mut k: usize = n - 40;
    while k < n - 5
        invariant
            chars@ == value@,
            n == chars@.len(),
            n >= 45,
            n - 40 <= k <= n - 5,
            forall|i: int| n - 40 <= i < k && i != n - 8 ==> crate::persistence::is_lower_hex(#[trigger] chars@[i]),
        decreases n - 5 - k,
    {
        if k != n - 8 {
            let c = chars[k];
            if !(('0' <= c && c <= '9') || ('a' <= c && c <= 'f')) {
                proof {
                    if k < n - 8 {
                        let s = value@.subrange(n - 40, n - 8);
                        assert(s[k - (n - 40)] == c);
                    } else {
                        let s = value@.subrange(n - 7, n - 5);
                        assert(s[k - (n - 7)] == c);
                    }
                }
                return false;
            }
        }
        k += 1;
    }
    proof {
        let a = value@.subrange(n - 40, n - 8);
        assert forall|i: int| 0 <= i < a.len() implies crate::persistence::is_lower_hex(#[trigger] a[i]) by {
            assert(a[i] == chars@[n - 40 + i]);
        }
        let b = value@.subrange(n - 7, n - 5);
        assert forall|i: int| 0 <= i < b.len() implies crate::persistence::is_lower_hex(#[trigger] b[i]) by {
            assert(b[i] == chars@[n - 7 + i]);
        }
    }
    true
}

/// Every partial name this library makes is recognized as a managed
/// partial, whenever the final name is non-empty and the attempt number
/// fits in two hexadecimal digits.
pub proof fn lemma_part_names_are_managed(final_name: Seq<char>, nonce: u128, attempt: u64)
    requires
        final_name.len() > 0,
        attempt < 256,
    ensures
        is_managed_partial_text(part_filename_of(final_name, nonce, attempt)),
{
    reveal_with_fuel(pow16, 3);
    lemma_hex_width_le(attempt as nat, 2);
    lemma_hex_width_positive(attempt as nat);
    lemma_hex_digits_shape(nonce as nat, 32);
    lemma_hex_digits_shape(attempt as nat, 2);
    let suffix = part_suffix(nonce, attempt);
    assert(attempt_text(attempt) == hex_digits(attempt as nat, 2));
    assert(suffix.len() == 44);
    let prefix = crate::filename::truncate16(final_name, 136);
    assert(crate::filename::utf16_len(final_name[0]) <= 2);
    assert(prefix.len() > 0);
    let v = part_filename_of(final_name, nonce, attempt);
    assert(v =~= prefix + suffix);
    let n = v.len() as int;
    assert(v.subrange(n - 44, n - 40) =~= seq!['.', 'd', 'm', '-']);
    assert(v.subrange(n - 40, n - 8) =~= hex_digits(nonce as nat, 32));
    assert(v.subrange(n - 7, n - 5) =~= hex_digits(attempt as nat, 2));
    assert(v.subrange(n - 5, n) =~= seq!['.', 'p', 'a', 'r', 't']);
}

} // verus!
