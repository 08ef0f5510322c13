use download_manager_engine::clock::{Duration, Instant};
use download_manager_engine::scheduler::{
    ConcurrencyLimits, DEFAULT_WORKERS, MAX_RANGE_REQUESTS, MAX_REQUEST_BYTES, MAX_WORKERS,
    MIN_REQUEST_BYTES, SchedulerConfigError, SchedulerError, SchedulerOptions, WorkerCount,
    missing_ranges, pop_chunk, request_chunk_size, validate_request_plan, NextWork, Work, WorkState,
};
use download_manager_engine::storage::FileRange;
use std::collections::VecDeque;

fn range(start: u64, end: u64) -> FileRange {
    FileRange::new(start, end).expect("valid test range")
}

#[test]
fn worker_counts_and_limits_are_strict() {
    assert_eq!(WorkerCount::default(), WorkerCount::Four);
    assert_eq!(WorkerCount::default().get(), DEFAULT_WORKERS);
    assert_eq!(WorkerCount::Eight.get(), MAX_WORKERS);
    assert_eq!(SchedulerOptions::default().limits().per_host(), 8);
    assert_eq!(SchedulerOptions::default().limits().global(), 16);
    for count in [1, 2, 4, 8] {
        assert_eq!(
            WorkerCount::try_from(count).expect("supported").get(),
            count
        );
    }
    for count in [0, 3, 5, 6, 7, 9, u8::MAX] {
        assert_eq!(
            WorkerCount::try_from(count),
            Err(SchedulerConfigError::InvalidWorkerCount)
        );
    }
    assert!(ConcurrencyLimits::new(1, 1).is_ok());
    assert_eq!(
        ConcurrencyLimits::new(0, 1),
        Err(SchedulerConfigError::InvalidConcurrencyLimits)
    );
    assert_eq!(
        ConcurrencyLimits::new(9, 16),
        Err(SchedulerConfigError::InvalidConcurrencyLimits)
    );
    assert_eq!(
        ConcurrencyLimits::new(8, 33),
        Err(SchedulerConfigError::InvalidConcurrencyLimits)
    );
    assert_eq!(
        SchedulerOptions::new(ConcurrencyLimits::default(), Duration::from_millis(9), 1,),
        Err(SchedulerConfigError::InvalidHedgeDelay)
    );
}

#[test]
fn missing_ranges_and_lazy_chunks_cover_every_byte_once() {
    let missing = missing_ranges(100, &[range(10, 20), range(40, 60), range(90, 100)])
        .expect("plan gaps");
    assert_eq!(missing, [range(0, 10), range(20, 40), range(60, 90)]);
    assert_eq!(
        missing_ranges(100, &[range(0, 10), range(10, 20)]),
        Err(SchedulerError::InvalidCompletedCoverage)
    );
    let mut pending = VecDeque::from(missing);
    let mut chunks = Vec::new();
    while let Some(chunk) = pop_chunk(&mut pending, 7).expect("pop chunk") {
        chunks.push(chunk);
    }
    assert_eq!(
        chunks,
        [
            range(0, 7),
            range(7, 10),
            range(20, 27),
            range(27, 34),
            range(34, 40),
            range(60, 67),
            range(67, 74),
            range(74, 81),
            range(81, 88),
            range(88, 90),
        ]
    );
}

#[test]
fn chunk_size_and_request_count_are_bounded() {
    assert_eq!(request_chunk_size(1, WorkerCount::Eight), MIN_REQUEST_BYTES);
    assert_eq!(
        request_chunk_size(u64::MAX, WorkerCount::One),
        MAX_REQUEST_BYTES
    );
    assert_eq!(
        request_chunk_size(64 * 1024 * 1024, WorkerCount::Four),
        4 * 1024 * 1024
    );
    assert!(validate_request_plan(&[range(0, MAX_REQUEST_BYTES)], MAX_REQUEST_BYTES).is_ok());
    assert_eq!(
        validate_request_plan(
            &[range(0, MAX_REQUEST_BYTES * (MAX_RANGE_REQUESTS + 1),)],
            MAX_REQUEST_BYTES,
        ),
        Err(SchedulerError::RequestPlanTooLarge)
    );
}

#[test]
fn missing_ranges_edges() {
    assert_eq!(missing_ranges(0, &[]), Ok(Vec::new()));
    assert_eq!(
        missing_ranges(0, &[range(0, 1)]),
        Err(SchedulerError::InvalidCompletedCoverage)
    );
    assert_eq!(missing_ranges(10, &[]), Ok(vec![range(0, 10)]));
    assert_eq!(missing_ranges(10, &[range(0, 10)]), Ok(Vec::new()));
    assert_eq!(
        missing_ranges(10, &[range(0, 11)]),
        Err(SchedulerError::InvalidCompletedCoverage)
    );
    assert_eq!(
        missing_ranges(10, &[range(5, 6), range(2, 3)]),
        Err(SchedulerError::InvalidCompletedCoverage)
    );
    let too_many: Vec<FileRange> = (0..8_193u64).map(|i| range(2 * i, 2 * i + 1)).collect();
    assert_eq!(
        missing_ranges(20_000, &too_many),
        Err(SchedulerError::InvalidCompletedCoverage)
    );
}

#[test]
fn pop_chunk_edges() {
    let mut empty: VecDeque<FileRange> = VecDeque::new();
    assert_eq!(pop_chunk(&mut empty, 5), Ok(None));
    let mut one = VecDeque::from(vec![range(3, 5)]);
    assert_eq!(pop_chunk(&mut one, 0), Err(SchedulerError::Coordination));
    assert!(one.is_empty());
    let mut whole = VecDeque::from(vec![range(u64::MAX - 2, u64::MAX)]);
    assert_eq!(pop_chunk(&mut whole, u64::MAX), Ok(Some(range(u64::MAX - 2, u64::MAX))));
    assert!(whole.is_empty());
}

#[test]
fn request_plan_counts_partial_chunks() {
    assert!(validate_request_plan(&[range(0, 10), range(20, 21)], 3).is_ok());
    assert_eq!(
        validate_request_plan(&[range(0, 1_000_001)], 1),
        Err(SchedulerError::RequestPlanTooLarge)
    );
    assert!(validate_request_plan(&[range(0, 1_000_000)], 1).is_ok());
}

#[test]
fn options_accept_bounds_and_report_them() {
    let limits = ConcurrencyLimits::new(2, 3).expect("limits");
    let options = SchedulerOptions::new(limits, Duration::from_millis(10), 1).expect("options");
    assert_eq!(options.limits(), limits);
    assert_eq!(options.tail_hedge_delay(), Duration::from_millis(10));
    assert_eq!(options.unknown_stream_limit(), 1);
    assert_eq!(
        SchedulerOptions::new(limits, Duration::from_secs(31), 1),
        Err(SchedulerConfigError::InvalidHedgeDelay)
    );
    assert_eq!(
        SchedulerOptions::new(limits, Duration::from_secs(30), 0),
        Err(SchedulerConfigError::InvalidUnknownStreamLimit)
    );
}

#[test]
fn work_state_hands_out_chunks_and_hedges_only_the_sole_tail() {
    let mib = 1024 * 1024;
    let mut state = WorkState::new(vec![range(0, 2 * mib + 10)], mib, Duration::from_millis(250));
    let t0 = Instant { nanos: 1_000_000_000 };
    let at = |millis: u128| Instant { nanos: t0.nanos + millis * 1_000_000 };
    assert_eq!(
        state.next_step(false, t0),
        Ok(NextWork::Assign(Work { id: 1, range: range(0, mib), hedged: false }))
    );
    assert_eq!(
        state.next_step(false, t0),
        Ok(NextWork::Assign(Work { id: 2, range: range(mib, 2 * mib), hedged: false }))
    );
    assert_eq!(
        state.next_step(false, t0),
        Ok(NextWork::Assign(Work { id: 3, range: range(2 * mib, 2 * mib + 10), hedged: false }))
    );
    assert_eq!(state.next_step(false, t0), Ok(NextWork::Wait(None)));
    for id in [1, 2] {
        assert!(state.claim_commit(false, id));
        state.finish_commit(id, true);
    }
    assert_eq!(state.next_step(false, at(100)), Ok(NextWork::Wait(Some(Duration::from_millis(150)))));
    assert_eq!(
        state.next_step(false, at(250)),
        Ok(NextWork::Assign(Work { id: 3, range: range(2 * mib, 2 * mib + 10), hedged: true }))
    );
    assert_eq!(state.next_step(false, at(300)), Ok(NextWork::Wait(None)));
    assert!(!state.should_cancel(false, 3));
    assert!(state.claim_commit(false, 3));
    assert!(state.should_cancel(false, 3));
    assert!(!state.claim_commit(false, 3));
    state.finish_commit(3, true);
    assert_eq!(state.next_step(false, at(400)), Ok(NextWork::Stop));
}

#[test]
fn work_state_stops_on_cancellation_and_failed_commits() {
    let mut state = WorkState::new(vec![range(0, 10), range(20, 30)], 1024, Duration::from_millis(250));
    let now = Instant { nanos: 0 };
    assert_eq!(state.next_step(true, now), Ok(NextWork::Stop));
    assert_eq!(
        state.next_step(false, now),
        Ok(NextWork::Assign(Work { id: 1, range: range(0, 10), hedged: false }))
    );
    assert!(state.should_cancel(true, 1));
    assert!(!state.claim_commit(true, 1));
    assert!(state.claim_commit(false, 1));
    state.finish_commit(1, false);
    assert_eq!(state.next_step(false, now), Ok(NextWork::Stop));
}
