use download_manager_engine::checkpoint::{CheckpointLedger, CheckpointStep};
use download_manager_engine::clock::{Duration, Instant};
use download_manager_engine::persistence::{CheckpointOutcome, CheckpointPolicy, CheckpointUrgency, PersistenceError, TaskId};

fn id(text: &str) -> TaskId {
    TaskId::parse(text).expect("id")
}

fn at_millis(millis: u128) -> Instant {
    Instant::from_nanos_since_epoch(millis * 1_000_000)
}

fn policy() -> CheckpointPolicy {
    CheckpointPolicy::new(Duration::from_millis(1_000)).expect("policy")
}

#[test]
fn unknown_tasks_consult_their_durable_revision_first() {
    let mut ledger = CheckpointLedger::new();
    let task = id("550e8400-e29b-41d4-a716-446655440000");
    assert_eq!(ledger.plan(task, 3, CheckpointUrgency::Progress, at_millis(0), policy()), Ok(CheckpointStep::ReadDurable));
    assert_eq!(ledger.settle_durable(task, 3, Some(4), at_millis(0)), Err(PersistenceError::StaleRevision));
    assert_eq!(ledger.settle_durable(task, 3, None, at_millis(0)), Ok(CheckpointStep::Write));
    assert_eq!(ledger.settle_durable(task, 3, Some(2), at_millis(0)), Ok(CheckpointStep::Write));
    assert_eq!(ledger.plan(task, 3, CheckpointUrgency::Critical, at_millis(0), policy()), Ok(CheckpointStep::ReadDurable));
    assert_eq!(
        ledger.settle_durable(task, 3, Some(3), at_millis(0)),
        Ok(CheckpointStep::Done(CheckpointOutcome::Unchanged))
    );
    assert_eq!(
        ledger.plan(task, 3, CheckpointUrgency::Critical, at_millis(5), policy()),
        Ok(CheckpointStep::Done(CheckpointOutcome::Unchanged))
    );
}

#[test]
fn remembered_revisions_never_regress_and_progress_is_paced() {
    let mut ledger = CheckpointLedger::new();
    let task = id("550e8400-e29b-41d4-a716-446655440000");
    let other = id("650e8400-e29b-41d4-a716-446655440000");
    ledger.record(task, 5, at_millis(10_000));
    assert_eq!(ledger.plan(task, 4, CheckpointUrgency::Critical, at_millis(20_000), policy()), Err(PersistenceError::StaleRevision));
    assert_eq!(
        ledger.plan(task, 5, CheckpointUrgency::Progress, at_millis(20_000), policy()),
        Ok(CheckpointStep::Done(CheckpointOutcome::Unchanged))
    );
    assert_eq!(
        ledger.plan(task, 6, CheckpointUrgency::Progress, at_millis(10_999), policy()),
        Ok(CheckpointStep::Done(CheckpointOutcome::Deferred))
    );
    assert_eq!(ledger.plan(task, 6, CheckpointUrgency::Progress, at_millis(11_000), policy()), Ok(CheckpointStep::Write));
    assert_eq!(ledger.plan(task, 6, CheckpointUrgency::Critical, at_millis(10_001), policy()), Ok(CheckpointStep::Write));
    assert_eq!(
        ledger.plan(task, 6, CheckpointUrgency::Progress, at_millis(9_000), policy()),
        Ok(CheckpointStep::Done(CheckpointOutcome::Deferred))
    );
    assert_eq!(ledger.plan(other, 1, CheckpointUrgency::Critical, at_millis(0), policy()), Ok(CheckpointStep::ReadDurable));

    ledger.record(task, 6, at_millis(12_000));
    assert_eq!(ledger.plan(task, 5, CheckpointUrgency::Critical, at_millis(12_000), policy()), Err(PersistenceError::StaleRevision));
    ledger.forget(task);
    assert_eq!(ledger.plan(task, 5, CheckpointUrgency::Critical, at_millis(12_000), policy()), Ok(CheckpointStep::ReadDurable));
}
