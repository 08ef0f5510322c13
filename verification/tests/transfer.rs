use download_manager_engine::clock::Instant;
use download_manager_engine::network::{
    ProbeStep, RangeAssignment, RangeValidationError, ResourceProbe, ResponseHeaders, Validators, parse_etag,
    probe_first_response,
};
use download_manager_engine::scheduler::{SchedulerError, WorkerCount};
use download_manager_engine::storage::{FileRange, StorageError};
use download_manager_engine::transfer::{
    RequestCounters, TransferKind, TransferMetrics, TransferProgress, TransferStep, check_single_body, check_single_response,
    check_worker_response, plan_segments, plan_single, plan_transfer, range_body_capacity, range_body_chunk,
    range_body_finish, range_request_value, settle_segmented, work_assignment,
};

fn headers(fields: &[(&str, &str)]) -> ResponseHeaders {
    let mut headers = ResponseHeaders::new();
    for (name, value) in fields {
        headers.append(name, value.as_bytes());
    }
    headers
}

fn probe_of(step: ProbeStep) -> ResourceProbe {
    match step {
        ProbeStep::Done(probe) => probe,
        ProbeStep::Ranged { probe, .. } => probe,
    }
}

fn segmented_probe(total: u64) -> ResourceProbe {
    let range = format!("bytes 0-0/{total}");
    let fields = headers(&[("content-range", range.as_str()), ("content-length", "1"), ("etag", "\"v1\"")]);
    probe_of(probe_first_response(206, &fields, "https://example.test/file", false, Instant { nanos: 0 }).expect("probe"))
}

fn weak_probe(total: u64) -> ResourceProbe {
    let range = format!("bytes 0-0/{total}");
    let fields = headers(&[("content-range", range.as_str()), ("content-length", "1"), ("etag", "W/\"v1\"")]);
    probe_of(probe_first_response(206, &fields, "https://example.test/file", false, Instant { nanos: 0 }).expect("probe"))
}

fn range(start: u64, end: u64) -> FileRange {
    FileRange::new(start, end).expect("range")
}

#[test]
fn metrics_report_absolute_progress_and_summary() {
    let mut metrics = TransferMetrics::new(100, Some(1_000));
    metrics.record_request(false);
    metrics.record_request(true);
    metrics.worker_started();
    metrics.worker_started();
    metrics.record_range(50);
    let sample = metrics.progress();
    assert_eq!(sample.bytes_completed(), 150);
    assert_eq!(sample.expected_size(), Some(1_000));
    assert_eq!(sample.active_workers(), 2);
    metrics.worker_stopped();
    assert_eq!(metrics.progress().active_workers(), 1);
    let summary = metrics.summary(TransferKind::Segmented, 4);
    assert_eq!(summary.kind(), TransferKind::Segmented);
    assert_eq!(summary.bytes_written(), 50);
    assert_eq!(summary.requests_started(), 2);
    assert_eq!(summary.ranges_completed(), 1);
    assert_eq!(summary.hedged_requests(), 1);
    assert_eq!(summary.workers_used(), 4);
}

#[test]
fn progress_caps_reported_workers_and_defaults_to_nothing() {
    let mut metrics = TransferMetrics::new(0, None);
    for _ in 0..12 {
        metrics.worker_started();
    }
    assert_eq!(metrics.progress().active_workers(), 8);
    let empty = TransferProgress::default();
    assert_eq!(empty.bytes_completed(), 0);
    assert_eq!(empty.expected_size(), None);
    assert_eq!(empty.active_workers(), 0);
}

#[test]
fn single_stream_metrics_replace_rather_than_accumulate() {
    let mut metrics = TransferMetrics::new(0, None);
    metrics.record_stream_progress(10);
    metrics.record_stream_progress(25);
    assert_eq!(metrics.progress().bytes_completed(), 25);
    metrics.complete_single(25);
    metrics.set_expected_size(Some(25));
    let summary = metrics.summary(TransferKind::Single, 1);
    assert_eq!(summary.bytes_written(), 25);
    assert_eq!(summary.ranges_completed(), 1);
    assert_eq!(metrics.progress().expected_size(), Some(25));
    metrics.complete_single(0);
    assert_eq!(metrics.summary(TransferKind::Single, 1).ranges_completed(), 0);
}

#[test]
fn counters_wrap_like_atomic_counters() {
    let mut metrics = TransferMetrics::new(u64::MAX, None);
    metrics.record_range(2);
    assert_eq!(metrics.bytes_completed, 1);
    assert_eq!(metrics.bytes_written, 2);
}

#[test]
fn transfer_plan_checks_probe_against_storage() {
    let probe = segmented_probe(100);
    assert_eq!(plan_transfer(false, &probe, &[], Some(100)), Ok((0, TransferStep::Segmented { total: 100 })));
    assert_eq!(plan_transfer(true, &probe, &[], Some(100)), Err(SchedulerError::Cancelled));
    assert_eq!(
        plan_transfer(false, &probe, &[range(0, 40)], Some(100)),
        Ok((40, TransferStep::Segmented { total: 100 }))
    );
    assert_eq!(plan_transfer(false, &probe, &[], Some(99)), Err(SchedulerError::ProbeStorageMismatch));
    assert_eq!(plan_transfer(false, &probe, &[], None), Err(SchedulerError::ProbeStorageMismatch));
    assert_eq!(
        plan_transfer(false, &probe, &[range(0, 60), range(70, 120)], Some(100)),
        Err(SchedulerError::ProbeStorageMismatch)
    );
}

#[test]
fn reused_bytes_need_a_strong_entity_tag() {
    let weak = weak_probe(100);
    assert_eq!(plan_transfer(false, &weak, &[], Some(100)), Ok((0, TransferStep::Single { size: Some(100) })));
    assert_eq!(
        plan_transfer(false, &weak, &[range(0, 10)], Some(100)),
        Err(SchedulerError::InvalidCompletedCoverage)
    );
}

#[test]
fn baseline_overflow_is_invalid_coverage() {
    let probe = segmented_probe(100);
    let huge = [range(0, u64::MAX), range(0, 2)];
    assert_eq!(plan_transfer(false, &probe, &huge, Some(100)), Err(SchedulerError::InvalidCompletedCoverage));
}

#[test]
fn empty_and_unknown_length_plans() {
    let empty_fields = headers(&[("content-range", "bytes */0")]);
    let empty = probe_of(
        probe_first_response(416, &empty_fields, "https://example.test/e", false, Instant { nanos: 0 }).expect("empty"),
    );
    assert_eq!(plan_transfer(false, &empty, &[], Some(0)), Ok((0, TransferStep::Empty)));
    assert_eq!(plan_transfer(false, &empty, &[], None), Err(SchedulerError::ProbeStorageMismatch));
    let unknown = probe_of(
        probe_first_response(200, &headers(&[]), "https://example.test/u", false, Instant { nanos: 0 }).expect("plain"),
    );
    assert_eq!(plan_transfer(false, &unknown, &[], None), Ok((0, TransferStep::Single { size: None })));
    assert_eq!(plan_transfer(false, &unknown, &[], Some(5)), Err(SchedulerError::ProbeStorageMismatch));
}

#[test]
fn segment_plans_skip_durable_ranges() {
    let workers = WorkerCount::try_from(4).expect("workers");
    let plan = plan_segments(100, &[range(10, 20), range(50, 60)], workers).expect("plan").expect("work");
    assert_eq!(plan.missing, vec![range(0, 10), range(20, 50), range(60, 100)]);
    assert_eq!(plan.chunk_size, 1024 * 1024);
    assert!(plan_segments(100, &[range(0, 100)], workers).expect("plan").is_none());
    assert!(matches!(
        plan_segments(100, &[range(50, 60), range(10, 20)], workers),
        Err(SchedulerError::InvalidCompletedCoverage)
    ));
    let large = plan_segments(64 * 1024 * 1024, &[], workers).expect("plan").expect("work");
    assert_eq!(large.chunk_size, 4 * 1024 * 1024);
}

#[test]
fn oversized_request_plans_are_refused() {
    let workers = WorkerCount::try_from(1).expect("workers");
    let total = 8 * 1024 * 1024 * 1_000_001u64;
    assert!(matches!(plan_segments(total, &[], workers), Err(SchedulerError::RequestPlanTooLarge)));
}

#[test]
fn single_plans_require_empty_or_complete_coverage() {
    assert_eq!(plan_single(Some(10), &[range(0, 10)]), Ok(true));
    assert_eq!(plan_single(Some(10), &[]), Ok(false));
    assert_eq!(plan_single(None, &[]), Ok(false));
    assert_eq!(plan_single(Some(10), &[range(0, 5)]), Err(SchedulerError::ProbeStorageMismatch));
}

#[test]
fn segmented_transfers_settle_in_order() {
    let complete = [range(0, 100)];
    assert_eq!(settle_segmented(false, None, &complete, 100), Ok(()));
    assert_eq!(settle_segmented(true, Some(SchedulerError::Request), &complete, 100), Err(SchedulerError::Cancelled));
    assert_eq!(settle_segmented(false, Some(SchedulerError::Request), &complete, 100), Err(SchedulerError::Request));
    assert_eq!(
        settle_segmented(false, None, &[range(0, 50)], 100),
        Err(SchedulerError::InvalidCompletedCoverage)
    );
}

#[test]
fn worker_assignments_and_range_headers() {
    let assignment = work_assignment(range(10, 20), 100).expect("assignment");
    assert_eq!((assignment.start(), assignment.end(), assignment.total()), (10, 19, 100));
    assert_eq!(range_request_value(assignment), "bytes=10-19");
    assert_eq!(
        work_assignment(range(90, 101), 100),
        Err(SchedulerError::InvalidRange(RangeValidationError::InvalidAssignment))
    );
    let whole = RangeAssignment::new(0, 123_456_789, 123_456_790).expect("assignment");
    assert_eq!(range_request_value(whole), "bytes=0-123456789");
}

#[test]
fn worker_responses_must_come_from_the_final_url() {
    let assignment = RangeAssignment::new(10, 19, 100).expect("assignment");
    let expected = Validators { etag: Some(parse_etag("\"v1\"").expect("tag")), last_modified: None };
    let good = headers(&[("content-range", "bytes 10-19/100"), ("content-length", "10"), ("etag", "\"v1\"")]);
    let url = "https://example.test/file";
    let now = Instant { nanos: 0 };
    let checked = check_worker_response(url, url, 206, &good, assignment, &expected, now).expect("valid");
    assert_eq!(checked.assignment, assignment);
    assert_eq!(
        check_worker_response("https://example.test/other", url, 206, &good, assignment, &expected, now).map(|_| ()),
        Err(SchedulerError::ResponseUrlChanged)
    );
    let busy = headers(&[("retry-after", "7")]);
    assert_eq!(
        check_worker_response(url, url, 503, &busy, assignment, &expected, now).map(|_| ()),
        Err(SchedulerError::HttpStatus { status: 503, retry_after_seconds: Some(7) })
    );
    let shifted = headers(&[("content-range", "bytes 11-20/100"), ("etag", "\"v1\"")]);
    assert_eq!(
        check_worker_response(url, url, 206, &shifted, assignment, &expected, now).map(|_| ()),
        Err(SchedulerError::InvalidRange(RangeValidationError::ContentRangeMismatch))
    );
}

#[test]
fn ranged_bodies_end_exactly_at_their_assignment() {
    let assignment = RangeAssignment::new(10, 19, 100).expect("assignment");
    assert_eq!(range_body_capacity(assignment), Ok(10));
    assert_eq!(range_body_chunk(0, 6, 10), Ok(6));
    assert_eq!(range_body_chunk(6, 4, 10), Ok(10));
    assert_eq!(range_body_chunk(6, 5, 10), Err(SchedulerError::BodyLengthMismatch));
    assert_eq!(range_body_finish(10, 10), Ok(()));
    assert_eq!(range_body_finish(9, 10), Err(SchedulerError::BodyLengthMismatch));
}

#[test]
fn sequential_responses_are_checked_before_writing() {
    let url = "https://example.test/file";
    let now = Instant { nanos: 0 };
    let none = Validators::default();
    let ok = headers(&[("content-length", "12")]);
    assert_eq!(check_single_response(url, url, 200, &ok, Some(12), &none, 1_000, now), Ok(Some(12)));
    assert_eq!(
        check_single_response(url, url, 200, &ok, Some(13), &none, 1_000, now),
        Err(SchedulerError::BodyLengthMismatch)
    );
    assert_eq!(
        check_single_response(url, url, 200, &ok, None, &none, 10, now),
        Err(SchedulerError::Storage(StorageError::StreamLimitExceeded { limit: 10 }))
    );
    assert_eq!(check_single_response(url, url, 200, &headers(&[]), None, &none, 10, now), Ok(None));
    let gzip = headers(&[("content-encoding", "gzip")]);
    assert_eq!(
        check_single_response(url, url, 200, &gzip, None, &none, 10, now),
        Err(SchedulerError::InvalidSingleResponse(RangeValidationError::UnexpectedContentEncoding))
    );
    let tagged = Validators { etag: Some(parse_etag("\"v1\"").expect("tag")), last_modified: None };
    assert_eq!(
        check_single_response(url, url, 200, &ok, Some(12), &tagged, 1_000, now),
        Err(SchedulerError::InvalidSingleResponse(RangeValidationError::ValidatorMissing))
    );
    assert_eq!(
        check_single_response(url, url, 404, &ok, Some(12), &none, 1_000, now),
        Err(SchedulerError::HttpStatus { status: 404, retry_after_seconds: None })
    );
    assert_eq!(
        check_single_response("https://example.test/moved", url, 200, &ok, Some(12), &none, 1_000, now),
        Err(SchedulerError::ResponseUrlChanged)
    );
}

#[test]
fn sequential_bodies_match_known_and_declared_lengths() {
    assert_eq!(check_single_body(Some(12), Some(12), 12), Ok(()));
    assert_eq!(check_single_body(None, None, 7), Ok(()));
    assert_eq!(check_single_body(Some(12), None, 11), Err(SchedulerError::BodyLengthMismatch));
    assert_eq!(check_single_body(None, Some(8), 7), Err(SchedulerError::BodyLengthMismatch));
}

#[test]
fn request_counters_remember_their_peak() {
    let mut counters = RequestCounters::new();
    counters.begin();
    counters.begin();
    counters.end();
    counters.begin();
    counters.end();
    counters.end();
    assert_eq!(counters.active, 0);
    assert_eq!(counters.peak_global_requests(), 2);
}
