//! The store's memory of what it last made durable for each task, and the
//! decision a checkpoint request takes from it: never replace a newer
//! durable revision, never rewrite the same revision, and write routine
//! progress no more often than the configured interval.
use vstd::prelude::*;
use crate::clock::{Duration, Instant};
use crate::persistence::{CheckpointOutcome, CheckpointPolicy, CheckpointUrgency, PersistenceError, TaskId};

verus! {

/// The revision last made durable for one task, and when.
#[derive(Debug, Clone, Copy, PartialEq, Eq, Structural)]
pub struct SavedCheckpoint {
    pub task: u128,
    pub revision: u64,
    pub written_at: Instant,
}

/// What a checkpoint request does next.
#[derive(Debug, Clone, Copy, PartialEq, Eq, Structural)]
pub enum CheckpointStep {
    /// Nothing to write; this is the outcome.
    Done(CheckpointOutcome),
    /// Nothing is remembered for the task: read its durable revision first.
    ReadDurable,
    /// Serialize and atomically replace the task's state file.
    Write,
}

/// The entry remembered for `task`, if any.
pub open spec fn saved_for(entries: Seq<SavedCheckpoint>, task: u128) -> Option<SavedCheckpoint>
    decreases entries.len(),
{
    if entries.len() == 0 {
        None
    } else if entries.last().task == task {
        Some(entries.last())
    } else {
        saved_for(entries.drop_last(), task)
    }
}

/// Time since `earlier`, zero when the clock reads earlier still.
pub open spec fn elapsed_nanos(now: Instant, earlier: Instant) -> int {
    if now.nanos >= earlier.nanos {
        now.nanos - earlier.nanos
    } else {
        0
    }
}

/// The step a checkpoint of `revision` takes given what is remembered: a
/// remembered newer revision refuses it, the same revision is unchanged, a
/// routine write inside the minimum interval is deferred, and a task with
/// nothing remembered first reads its durable revision.
pub open spec fn checkpoint_step_of(
    saved: Option<SavedCheckpoint>,
    revision: u64,
    urgency: CheckpointUrgency,
    now: Instant,
    policy: CheckpointPolicy,
) -> Result<CheckpointStep, PersistenceError> {
    match saved {
        None => Ok(CheckpointStep::ReadDurable),
        Some(previous) => if previous.revision > revision {
            Err(PersistenceError::StaleRevision)
        } else if previous.revision == revision {
            Ok(CheckpointStep::Done(CheckpointOutcome::Unchanged))
        } else if urgency == CheckpointUrgency::Progress && elapsed_nanos(now, previous.written_at)
            < policy.spec_minimum_interval().nanos {
            Ok(CheckpointStep::Done(CheckpointOutcome::Deferred))
        } else {
            Ok(CheckpointStep::Write)
        },
    }
}

/// The step after reading the durable revision of a task with nothing
/// remembered: a newer one refuses the checkpoint, the same one is
/// unchanged (and is remembered), and otherwise the record is written.
pub open spec fn durable_step_of(durable: Option<u64>, revision: u64) -> Result<CheckpointStep, PersistenceError> {
    match durable {
        Some(d) => if d > revision {
            Err(PersistenceError::StaleRevision)
        } else if d == revision {
            Ok(CheckpointStep::Done(CheckpointOutcome::Unchanged))
        } else {
            Ok(CheckpointStep::Write)
        },
        None => Ok(CheckpointStep::Write),
    }
}

/// No task is remembered twice.
pub open spec fn distinct_tasks(entries: Seq<SavedCheckpoint>) -> bool {
    forall|i: int, j: int| 0 <= i < j < entries.len() ==> (#[trigger] entries[i]).task != (#[trigger] entries[j]).task
}

/// The revision each task last made durable, with its write time.
pub struct CheckpointLedger {
    entries: Vec<SavedCheckpoint>,
}

impl CheckpointLedger {
    /// The remembered entries, one per task.
    pub closed spec fn entries(&self) -> Seq<SavedCheckpoint> {
        self.entries@
    }

    /// The entry remembered for a task.
    pub open spec fn saved(&self, task: u128) -> Option<SavedCheckpoint> {
        saved_for(self.entries(), task)
    }

    /// No task is remembered twice.
    pub closed spec fn wf(&self) -> bool {
        distinct_tasks(self.entries@)
    }

    /// A ledger that remembers nothing.
    pub fn new() -> (ledger: CheckpointLedger)
        ensures
            ledger.wf(),
            forall|task: u128| ledger.saved(task) is None,
    {
        CheckpointLedger { entries: Vec::new() }
    }

    fn position(&self, task: u128) -> (index: Option<usize>)
        requires
            self.wf(),
        ensures
            index is None ==> self.saved(task) is None && forall|i: int| 0 <= i < self.entries@.len()
                ==> (#[trigger] self.entries@[i]).task != task,
            index matches Some(k) ==> k < self.entries@.len() && self.entries@[k as int].task == task
                && self.saved(task) == Some(self.entries@[k as int]),
    {
        let mut k: usize = 0;
        while k < self.entries.len()
            invariant
                0 <= k <= self.entries@.len(),
                distinct_tasks(self.entries@),
                forall|i: int| 0 <= i < k ==> (#[trigger] self.entries@[i]).task != task,
            decreases self.entries@.len() - k,
        {
            if self.entries[k].task == task {
                proof {
                    lemma_saved_at(self.entries@, k as int);
                }
                return Some(k);
            }
            k += 1;
        }
        proof {
            lemma_saved_absent(self.entries@, task);
        }
        None
    }

    /// The step a checkpoint of `task` at `revision` takes (see
    /// [`checkpoint_step_of`]).
    pub fn plan(&self, task: TaskId, revision: u64, urgency: CheckpointUrgency, now: Instant, policy: CheckpointPolicy)
        -> (step: Result<CheckpointStep, PersistenceError>)
        requires
            self.wf(),
        ensures
            step == checkpoint_step_of(self.saved(task.spec_value()), revision, urgency, now, policy),
    {
        match self.position(task.value()) {
            None => Ok(CheckpointStep::ReadDurable),
            Some(k) => {
                let previous = self.entries[k];
                if previous.revision > revision {
                    Err(PersistenceError::StaleRevision)
                } else if previous.revision == revision {
                    Ok(CheckpointStep::Done(CheckpointOutcome::Unchanged))
                } else {
                    let since = if now.nanos >= previous.written_at.nanos {
                        Duration { nanos: now.nanos - previous.written_at.nanos }
                    } else {
                        Duration { nanos: 0 }
                    };
                    if urgency == CheckpointUrgency::Progress && !policy.progress_due(since) {
                        Ok(CheckpointStep::Done(CheckpointOutcome::Deferred))
                    } else {
                        Ok(CheckpointStep::Write)
                    }
                }
            },
        }
    }

    /// Remembers that `revision` of `task` became durable at `now`,
    /// replacing what was remembered for it.
    pub fn record(&mut self, task: TaskId, revision: u64, now: Instant)
        requires
            old(self).wf(),
        ensures
            final(self).wf(),
            final(self).saved(task.spec_value()) == Some(SavedCheckpoint { task: task.spec_value(), revision, written_at: now }),
            forall|other: u128| other != task.spec_value() ==> final(self).saved(other) == old(self).saved(other),
    {
        let key = task.value();
        let entry = SavedCheckpoint { task: key, revision, written_at: now };
        match self.position(key) {
            Some(k) => {
                let ghost before = self.entries@;
                self.entries.set(k, entry);
                proof {
                    assert forall|i: int, j: int| 0 <= i < j < self.entries@.len() implies (#[trigger] self.entries@[i]).task
                        != (#[trigger] self.entries@[j]).task by {
                        assert(before[i].task != before[j].task);
                    }
                    assert forall|other: u128| #[trigger] saved_for(self.entries@, other) == (if other == key {
                        Some(entry)
                    } else {
                        saved_for(before, other)
                    }) by {
                        lemma_saved_after_set(before, k as int, entry, other);
                    }
                }
            },
            None => {
                let ghost before = self.entries@;
                self.entries.push(entry);
                proof {
                    assert(self.entries@.drop_last() =~= before);
                }
            },
        }
    }

    /// Forgets a task whose state file was removed.
    pub fn forget(&mut self, task: TaskId)
        requires
            old(self).wf(),
        ensures
            final(self).wf(),
            final(self).saved(task.spec_value()) is None,
            forall|other: u128| other != task.spec_value() ==> final(self).saved(other) == old(self).saved(other),
    {
        let key = task.value();
        match self.position(key) {
            None => {},
            Some(k) => {
                let ghost before = self.entries@;
                self.entries.remove(k);
                proof {
                    assert(self.entries@ =~= before.remove(k as int));
                    assert forall|i: int, j: int| 0 <= i < j < self.entries@.len() implies (#[trigger] self.entries@[i]).task
                        != (#[trigger] self.entries@[j]).task by {
                        let bi = if i < k { i } else { i + 1 };
                        let bj = if j < k { j } else { j + 1 };
                        assert(before[bi].task != before[bj].task);
                    }
                    assert forall|other: u128| #[trigger] saved_for(self.entries@, other) == (if other == key {
                        None
                    } else {
                        saved_for(before, other)
                    }) by {
                        lemma_saved_after_remove(before, k as int, other);
                    }
                }
            },
        }
    }

    /// Settles a checkpoint of a task with nothing remembered once its
    /// durable revision was read (see [`durable_step_of`]); the same
    /// revision is remembered as durable at `now`.
    pub fn settle_durable(&mut self, task: TaskId, revision: u64, durable: Option<u64>, now: Instant) -> (step: Result<
        CheckpointStep,
        PersistenceError,
    >)
        requires
            old(self).wf(),
        ensures
            final(self).wf(),
            step == durable_step_of(durable, revision),
            durable == Some(revision) ==> final(self).saved(task.spec_value()) == Some(
                SavedCheckpoint { task: task.spec_value(), revision, written_at: now },
            ),
            durable != Some(revision) ==> final(self).saved(task.spec_value()) == old(self).saved(task.spec_value()),
            forall|other: u128| other != task.spec_value() ==> final(self).saved(other) == old(self).saved(other),
    {
        match durable {
            Some(d) => {
                if d > revision {
                    Err(PersistenceError::StaleRevision)
                } else if d == revision {
                    self.record(task, d, now);
                    Ok(CheckpointStep::Done(CheckpointOutcome::Unchanged))
                } else {
                    Ok(CheckpointStep::Write)
                }
            },
            None => Ok(CheckpointStep::Write),
        }
    }
}

proof fn lemma_saved_at(entries: Seq<SavedCheckpoint>, k: int)
    requires
        distinct_tasks(entries),
        0 <= k < entries.len(),
    ensures
        saved_for(entries, entries[k].task) == Some(entries[k]),
    decreases entries.len(),
{
    if k < entries.len() - 1 {
        assert(entries.last().task != entries[k].task);
        assert(distinct_tasks(entries.drop_last()));
        lemma_saved_at(entries.drop_last(), k);
    }
}

proof fn lemma_saved_absent(entries: Seq<SavedCheckpoint>, task: u128)
    requires
        forall|i: int| 0 <= i < entries.len() ==> (#[trigger] entries[i]).task != task,
    ensures
        saved_for(entries, task) is None,
    decreases entries.len(),
{
    if entries.len() > 0 {
        assert(entries.last().task != task);
        lemma_saved_absent(entries.drop_last(), task);
    }
}

proof fn lemma_saved_after_set(entries: Seq<SavedCheckpoint>, k: int, entry: SavedCheckpoint, other: u128)
    requires
        distinct_tasks(entries),
        0 <= k < entries.len(),
        entry.task == entries[k].task,
    ensures
        saved_for(entries.update(k, entry), other) == (if other == entry.task {
            Some(entry)
        } else {
            saved_for(entries, other)
        }),
    decreases entries.len(),
{
    let updated = entries.update(k, entry);
    if k == entries.len() - 1 {
        assert(updated.drop_last() =~= entries.drop_last());
        if other != entry.task {
            assert(updated.last().task != other);
        }
    } else {
        assert(updated.drop_last() =~= entries.drop_last().update(k, entry));
        assert(distinct_tasks(entries.drop_last()));
        assert(entries.last().task != entries[k].task);
        lemma_saved_after_set(entries.drop_last(), k, entry, other);
    }
}

proof fn lemma_saved_after_remove(entries: Seq<SavedCheckpoint>, k: int, other: u128)
    requires
        distinct_tasks(entries),
        0 <= k < entries.len(),
    ensures
        saved_for(entries.remove(k), other) == (if other == entries[k].task {
            None
        } else {
            saved_for(entries, other)
        }),
    decreases entries.len(),
{
    let removed = entries.remove(k);
    if k == entries.len() - 1 {
        assert(removed =~= entries.drop_last());
        if other == entries[k].task {
            assert forall|i: int| 0 <= i < removed.len() implies (#[trigger] removed[i]).task != other by {
                assert(entries[i].task != entries[k].task);
            }
            lemma_saved_absent(removed, other);
        }
    } else {
        assert(removed.drop_last() =~= entries.drop_last().remove(k));
        assert(removed.last() == entries.last());
        assert(distinct_tasks(entries.drop_last()));
        assert(entries.last().task != entries[k].task);
        lemma_saved_after_remove(entries.drop_last(), k, other);
    }
}

/// A checkpoint never goes back: once a revision is remembered as durable,
/// an older revision of that task is refused and the same revision is never
/// written again; only a newer one can be deferred or written.
pub proof fn lemma_checkpoints_never_regress(
    saved: SavedCheckpoint,
    revision: u64,
    urgency: CheckpointUrgency,
    now: Instant,
    policy: CheckpointPolicy,
)
    ensures
        revision < saved.revision ==> checkpoint_step_of(Some(saved), revision, urgency, now, policy) == Err::<
            CheckpointStep,
            PersistenceError,
        >(PersistenceError::StaleRevision),
        revision == saved.revision ==> checkpoint_step_of(Some(saved), revision, urgency, now, policy) == Ok::<
            CheckpointStep,
            PersistenceError,
        >(CheckpointStep::Done(CheckpointOutcome::Unchanged)),
        checkpoint_step_of(Some(saved), revision, urgency, now, policy) == Ok::<CheckpointStep, PersistenceError>(
            CheckpointStep::Write,
        ) ==> revision > saved.revision,
        urgency == CheckpointUrgency::Critical ==> checkpoint_step_of(Some(saved), revision, urgency, now, policy)
            != Ok::<CheckpointStep, PersistenceError>(CheckpointStep::Done(CheckpointOutcome::Deferred)),
{
}

} // verus!
