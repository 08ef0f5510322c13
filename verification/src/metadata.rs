//! The persisted task record and its mutations: every accepted change bumps
//! the revision once and moves the update time forward; every rejected
//! change leaves the record exactly as it was.
use vstd::prelude::*;
use crate::filename::{sanitize_filename, sanitized};
use crate::network::{
    Validators, entity_tag_text, etag_parts, format_entity_tag, lemma_etag_text_parses_back, validate_expected_validators,
    validators_check, validators_view,
};
use crate::persistence::{
    DEFAULT_TASK_WORKERS, FileObservation, ListedEntry, LoadFailure, LoadFailureReason, MAX_TIMESTAMP_MILLIS, PartialCleanup, PersistenceError,
    PersistenceOperation, STATE_FORMAT_VERSION, terminal, ResourceIdentity, StateValidationError, TaskId, TaskState,
    TaskListing, TaskUpdateError, TimestampMillis, TransferMode, bumped_revision, listing_step, normalize_url, normalized_url_of,
    persisted_ranges, persisted_resource, persisted_validators, require_canonical_url, resource_identity_of,
    state_consistency, task_check, task_id_value, uuid_hyphenated_of, uuid_is_rfc4122, uuid_parse_of, uuid_version,
    valid_completed_ranges, valid_validators,
    valid_worker_count, validate_completed_ranges, validate_task, validate_worker_count,
};
use crate::storage::{FileRange, IoFailure, canonical_within, lemma_total_len_bounded, total_len};
use crate::text::same_text;

verus! {

/// The plain reading of a task record.
pub struct TaskModel {
    pub task_id: TaskId,
    pub revision: u64,
    pub state: TaskState,
    pub original_url: Seq<char>,
    pub needs_session: bool,
    pub resource: Option<ResourceIdentity>,
    pub destination: Seq<char>,
    pub display_name: Seq<char>,
    pub workers: u8,
    pub partial_path: Option<Seq<char>>,
    pub final_path: Option<Seq<char>>,
    pub completed: Seq<FileRange>,
    pub created_at: u64,
    pub updated_at: u64,
}

/// Path checks that depend on the platform's path rules: whether the
/// destination is an absolute ordinary path, and whether the partial and
/// final paths (when present) are well-formed names directly inside it.
/// Only whether a check refused matters: a refusal is reported as
/// `InvalidDestination`, `InvalidPartialPath` or `InvalidFinalPath`.
#[derive(Debug, Clone, Copy)]
pub struct PathChecks {
    pub destination: Result<(), StateValidationError>,
    pub partial: Option<Result<(), StateValidationError>>,
    pub final_path: Option<Result<(), StateValidationError>>,
}

/// Persistent metadata for one download task.
#[derive(Clone)]
pub struct TaskMetadata {
    task_id: TaskId,
    revision: u64,
    state: TaskState,
    original_url: String,
    needs_session: bool,
    resource: Option<ResourceIdentity>,
    destination: String,
    display_name: String,
    workers: u8,
    partial_path: Option<String>,
    final_path: Option<String>,
    completed_ranges: Vec<FileRange>,
    created_at: TimestampMillis,
    updated_at: TimestampMillis,
}

/// The text of an optional string.
pub open spec fn opt_path(o: Option<String>) -> Option<Seq<char>> {
    match o {
        Some(t) => Some(t@),
        None => None,
    }
}

impl View for TaskMetadata {
    type V = TaskModel;

    closed spec fn view(&self) -> TaskModel {
        TaskModel {
            task_id: self.task_id,
            revision: self.revision,
            state: self.state,
            original_url: self.original_url@,
            needs_session: self.needs_session,
            resource: self.resource,
            destination: self.destination@,
            display_name: self.display_name@,
            workers: self.workers,
            partial_path: opt_path(self.partial_path),
            final_path: opt_path(self.final_path),
            completed: self.completed_ranges@,
            created_at: self.created_at.spec_get(),
            updated_at: self.updated_at.spec_get(),
        }
    }
}

impl TaskMetadata {
    /// Every stored range is non-empty and their lengths sum within `u64`.
    pub closed spec fn wf(&self) -> bool {
        &&& forall|i: int| 0 <= i < self.completed_ranges@.len() ==> (#[trigger] self.completed_ranges@[i]).wf()
        &&& total_len(self.completed_ranges@) <= u64::MAX
    }
}

/// What creating a task gives: a supported worker count, a canonical
/// original URL and an accepted destination, in that order; the record is
/// queued at revision one with the sanitized suggested name and nothing else.
pub open spec fn created_task(
    original_url: Seq<char>,
    destination: Seq<char>,
    destination_check: Result<(), StateValidationError>,
    suggested_filename: Seq<char>,
    workers: u8,
    created_at: u64,
    task: TaskModel,
) -> bool {
    &&& task.revision == 1
    &&& task.state == TaskState::Queued
    &&& Some(task.original_url) == normalized_url_of(original_url)
    &&& !task.needs_session
    &&& task.resource is None
    &&& task.destination == destination
    &&& task.display_name == sanitized(suggested_filename)
    &&& task.workers == workers
    &&& task.partial_path is None
    &&& task.final_path is None
    &&& task.completed.len() == 0
    &&& task.created_at == created_at
    &&& task.updated_at == created_at
}

/// Why creating a task fails, if it does.
pub open spec fn creation_error(
    original_url: Seq<char>,
    destination_check: Result<(), StateValidationError>,
    workers: u8,
) -> Option<StateValidationError> {
    if !valid_worker_count(workers) {
        Some(StateValidationError::InvalidWorkerCount)
    } else if normalized_url_of(original_url) is None {
        Some(StateValidationError::InvalidUrl)
    } else if destination_check is Err {
        Some(StateValidationError::InvalidDestination)
    } else {
        None
    }
}

impl TaskMetadata {
    /// Creates a queued task with a new identifier at `created_at`, for the
    /// canonical `destination` that `destination_check` accepted.
    pub fn new_at_with_workers(
        original_url: &str,
        destination: String,
        destination_check: Result<(), StateValidationError>,
        suggested_filename: &str,
        workers: u8,
        created_at: TimestampMillis,
    ) -> (task: Result<TaskMetadata, StateValidationError>)
        ensures
            task is Err <==> creation_error(original_url@, destination_check, workers) is Some,
            task matches Err(e) ==> creation_error(original_url@, destination_check, workers) == Some(e),
            task matches Ok(t) ==> t.wf() && created_task(original_url@, destination@, destination_check,
                suggested_filename@, workers, created_at.spec_get(), t@),
    {
        match validate_worker_count(workers) {
            Ok(()) => {}
            Err(e) => return Err(e),
        }
        let original_url = match normalize_url(original_url) {
            Ok(url) => url,
            Err(e) => return Err(e),
        };
        if destination_check.is_err() {
            return Err(StateValidationError::InvalidDestination);
        }
        let display_name = sanitize_filename(suggested_filename);
        let display = display_name.as_str().to_string();
        let task = TaskMetadata {
            task_id: TaskId::new(),
            revision: 1,
            state: TaskState::Queued,
            original_url,
            needs_session: false,
            resource: None,
            destination,
            display_name: display,
            workers,
            partial_path: None,
            final_path: None,
            completed_ranges: Vec::new(),
            created_at,
            updated_at: created_at,
        };
        proof {
            assert(task@.completed =~= Seq::<FileRange>::empty());
            assert(total_len(task.completed_ranges@) == 0);
        }
        Ok(task)
    }

    /// Creates a queued task with the default four workers.
    pub fn new_at(
        original_url: &str,
        destination: String,
        destination_check: Result<(), StateValidationError>,
        suggested_filename: &str,
        created_at: TimestampMillis,
    ) -> (task: Result<TaskMetadata, StateValidationError>)
        ensures
            task is Err <==> creation_error(original_url@, destination_check, DEFAULT_TASK_WORKERS) is Some,
            task matches Err(e) ==> creation_error(original_url@, destination_check, DEFAULT_TASK_WORKERS) == Some(e),
            task matches Ok(t) ==> t.wf() && created_task(original_url@, destination@, destination_check,
                suggested_filename@, DEFAULT_TASK_WORKERS, created_at.spec_get(), t@),
    {
        TaskMetadata::new_at_with_workers(original_url, destination, destination_check, suggested_filename,
            DEFAULT_TASK_WORKERS, created_at)
    }
}

} // verus!

verus! {

/// The check that a present partial or final path receives: the supplied
/// result, or a refusal when none was supplied.
pub open spec fn present_check(
    path: Option<Seq<char>>,
    check: Option<Result<(), StateValidationError>>,
    missing: StateValidationError,
) -> Option<Result<(), StateValidationError>> {
    match path {
        Some(_) => Some(
            match check {
                Some(result) => result,
                None => Err(missing),
            },
        ),
        None => None,
    }
}

/// The outcome of a lifecycle transition: the edge must exist, the revision
/// advance at `at`, and the whole record must stay valid in the new state.
/// The value is the new revision.
pub open spec fn transition_outcome(task: TaskModel, next: TaskState, at: u64, paths: PathChecks) -> Result<
    u64,
    StateValidationError,
> {
    if !crate::persistence::edge(task.state, next) {
        Err(StateValidationError::InvalidTransition)
    } else {
        match bumped_revision(task.revision, task.updated_at, at) {
            Err(e) => Err(e),
            Ok(revision) => match task_check(
                revision,
                task.created_at,
                at,
                task.workers,
                task.original_url,
                paths.destination,
                task.display_name,
                task.resource,
                present_check(task.partial_path, paths.partial, StateValidationError::InvalidPartialPath),
                present_check(task.final_path, paths.final_path, StateValidationError::InvalidFinalPath),
                task.completed,
                next,
            ) {
                Err(e) => Err(e),
                Ok(_) => Ok(revision),
            },
        }
    }
}

/// The plain reading of a resource identity, by which identities compare.
pub open spec fn identity_view(r: ResourceIdentity) -> (
    Seq<char>,
    Option<u64>,
    (Option<(bool, Seq<char>)>, Option<Seq<char>>),
    TransferMode,
) {
    (r.spec_final_url(), r.spec_expected_size(), validators_view(r.spec_validators()), r.spec_transfer_mode())
}

/// Whether two resource identities are the same.
pub fn same_resource(a: &ResourceIdentity, b: &ResourceIdentity) -> (same: bool)
    ensures
        same == (identity_view(*a) == identity_view(*b)),
{
    if !same_text(a.final_url(), b.final_url()) {
        return false;
    }
    let sizes = match (a.expected_size(), b.expected_size()) {
        (Some(x), Some(y)) => x == y,
        (None, None) => true,
        _ => false,
    };
    if !sizes || a.transfer_mode() != b.transfer_mode() {
        return false;
    }
    let forward = validate_expected_validators(a.validators(), b.validators()).is_ok();
    let backward = validate_expected_validators(b.validators(), a.validators()).is_ok();
    proof {
        let va = validators_view(a.spec_validators());
        let vb = validators_view(b.spec_validators());
        if validators_check(va, vb) is Ok && validators_check(vb, va) is Ok {
            assert(va.0 == vb.0);
            assert(va.1 == vb.1);
        }
    }
    forward && backward
}

/// Whether `after` is `before` with one more revision at `at`.
pub open spec fn bumped_to(before: TaskModel, after: TaskModel, revision: u64, at: u64) -> bool {
    after.revision == revision && after.updated_at == at && revision == before.revision + 1 && at >= before.updated_at
}

impl TaskMetadata {
    /// Applies one explicit lifecycle transition (see
    /// [`transition_outcome`]); a rejected transition changes nothing.
    pub fn transition(&mut self, next: TaskState, updated_at: TimestampMillis, paths: PathChecks) -> (result: Result<
        (),
        StateValidationError,
    >)
        requires
            old(self).wf(),
        ensures
            final(self).wf(),
            result is Ok <==> transition_outcome(old(self)@, next, updated_at.spec_get(), paths) is Ok,
            result matches Err(e) ==> transition_outcome(old(self)@, next, updated_at.spec_get(), paths)
                == Err::<u64, StateValidationError>(e) && final(self)@ == old(self)@,
            result is Ok ==> final(self)@ == (TaskModel {
                revision: transition_outcome(old(self)@, next, updated_at.spec_get(), paths)->Ok_0,
                state: next,
                updated_at: updated_at.spec_get(),
                ..old(self)@
            }),
    {
        let revision = match crate::persistence::plan_transition(self.state, next, self.revision, self.updated_at, updated_at) {
            Ok(r) => r,
            Err(e) => return Err(e),
        };
        let partial_check = match &self.partial_path {
            Some(_) => Some(
                match paths.partial {
                    Some(result) => result,
                    None => Err(StateValidationError::InvalidPartialPath),
                },
            ),
            None => None,
        };
        let final_check = match &self.final_path {
            Some(_) => Some(
                match paths.final_path {
                    Some(result) => result,
                    None => Err(StateValidationError::InvalidFinalPath),
                },
            ),
            None => None,
        };
        match validate_task(
            revision,
            self.created_at,
            updated_at,
            self.workers,
            self.original_url.as_str(),
            paths.destination,
            self.display_name.as_str(),
            &self.resource,
            partial_check,
            final_check,
            self.completed_ranges.as_slice(),
            next,
        ) {
            Ok(()) => {}
            Err(e) => return Err(e),
        }
        self.revision = revision;
        self.updated_at = updated_at;
        self.state = next;
        Ok(())
    }

    fn bump_revision(&mut self, updated_at: TimestampMillis) -> (result: Result<(), StateValidationError>)
        requires
            old(self).wf(),
        ensures
            final(self).wf(),
            result is Ok <==> bumped_revision(old(self)@.revision, old(self)@.updated_at, updated_at.spec_get()) is Ok,
            result matches Err(e) ==> bumped_revision(old(self)@.revision, old(self)@.updated_at, updated_at.spec_get())
                == Err::<u64, StateValidationError>(e) && final(self)@ == old(self)@,
            result is Ok ==> final(self)@ == (TaskModel {
                revision: (old(self)@.revision + 1) as u64,
                updated_at: updated_at.spec_get(),
                ..old(self)@
            }),
    {
        match crate::persistence::bump_revision(self.revision, self.updated_at, updated_at) {
            Ok(r) => {
                self.revision = r;
                self.updated_at = updated_at;
                Ok(())
            }
            Err(e) => Err(e),
        }
    }

    /// Stores the identity a probe accepted while the task is probing; a
    /// retained partial pins the identity already known.
    pub fn apply_resource(&mut self, resource: ResourceIdentity, updated_at: TimestampMillis) -> (result: Result<
        (),
        StateValidationError,
    >)
        requires
            old(self).wf(),
        ensures
            final(self).wf(),
            old(self)@.state != TaskState::Probing ==> result == Err::<(), StateValidationError>(
                StateValidationError::InconsistentState),
            old(self)@.state == TaskState::Probing && old(self)@.partial_path is Some && (old(self)@.resource matches Some(known)
                && identity_view(known) != identity_view(resource)) ==> result == Err::<(), StateValidationError>(
                StateValidationError::InvalidResource),
            old(self)@.state == TaskState::Probing && !(old(self)@.partial_path is Some && (old(self)@.resource matches Some(
                known) && identity_view(known) != identity_view(resource))) ==> match bumped_revision(
                old(self)@.revision,
                old(self)@.updated_at,
                updated_at.spec_get(),
            ) {
                Err(e) => result == Err::<(), StateValidationError>(e),
                Ok(revision) => result is Ok && final(self)@ == (TaskModel {
                    revision,
                    updated_at: updated_at.spec_get(),
                    resource: Some(resource),
                    ..old(self)@
                }),
            },
            result is Err ==> final(self)@ == old(self)@,
    {
        if self.state != TaskState::Probing {
            return Err(StateValidationError::InconsistentState);
        }
        if self.partial_path.is_some() {
            if let Some(known) = &self.resource {
                if !same_resource(known, &resource) {
                    return Err(StateValidationError::InvalidResource);
                }
            }
        }
        match self.bump_revision(updated_at) {
            Ok(()) => {}
            Err(e) => return Err(e),
        }
        self.resource = Some(resource);
        Ok(())
    }

    /// Associates the storage partial at `partial_path` (of
    /// `partial_expected_len` bytes, to be published as `final_name`) with
    /// this probed task. `partial_check` is whether the path is a managed
    /// partial name directly inside the destination; a refusal is reported as
    /// `InvalidPartialPath`.
    pub fn attach_partial(
        &mut self,
        partial_path: String,
        partial_expected_len: Option<u64>,
        final_name: String,
        partial_check: Result<(), StateValidationError>,
        updated_at: TimestampMillis,
    ) -> (result: Result<(), StateValidationError>)
        requires
            old(self).wf(),
        ensures
            final(self).wf(),
            old(self)@.resource is None ==> result == Err::<(), StateValidationError>(StateValidationError::InconsistentState),
            old(self)@.resource matches Some(r) && (old(self)@.state != TaskState::Probing || old(self)@.partial_path is Some
                || r.spec_expected_size() != partial_expected_len) ==> result == Err::<(), StateValidationError>(
                StateValidationError::InvalidPartialPath),
            old(self)@.resource matches Some(r) && old(self)@.state == TaskState::Probing && old(self)@.partial_path is None
                && r.spec_expected_size() == partial_expected_len ==> match partial_check {
                Err(_) => result == Err::<(), StateValidationError>(StateValidationError::InvalidPartialPath),
                Ok(()) => match bumped_revision(old(self)@.revision, old(self)@.updated_at, updated_at.spec_get()) {
                    Err(e) => result == Err::<(), StateValidationError>(e),
                    Ok(revision) => result is Ok && final(self)@ == (TaskModel {
                        revision,
                        updated_at: updated_at.spec_get(),
                        display_name: final_name@,
                        partial_path: Some(partial_path@),
                        ..old(self)@
                    }),
                },
            },
            result is Err ==> final(self)@ == old(self)@,
    {
        let size_matches = match &self.resource {
            None => return Err(StateValidationError::InconsistentState),
            Some(r) => match (r.expected_size(), partial_expected_len) {
                (Some(a), Some(b)) => a == b,
                (None, None) => true,
                _ => false,
            },
        };
        if self.state != TaskState::Probing || self.partial_path.is_some() || !size_matches {
            return Err(StateValidationError::InvalidPartialPath);
        }
        if partial_check.is_err() {
            return Err(StateValidationError::InvalidPartialPath);
        }
        match self.bump_revision(updated_at) {
            Ok(()) => {}
            Err(e) => return Err(e),
        }
        self.display_name = final_name;
        self.partial_path = Some(partial_path);
        Ok(())
    }

    /// Forgets a retained partial only after its explicit external deletion.
    pub fn record_partial_deletion(&mut self, updated_at: TimestampMillis) -> (result: Result<(), StateValidationError>)
        requires
            old(self).wf(),
        ensures
            final(self).wf(),
            !((old(self)@.state == TaskState::Cancelled || old(self)@.state == TaskState::Failed) && old(self)@.final_path is None
                && old(self)@.partial_path is Some) ==> result == Err::<(), StateValidationError>(
                StateValidationError::InconsistentState),
            (old(self)@.state == TaskState::Cancelled || old(self)@.state == TaskState::Failed) && old(self)@.final_path is None
                && old(self)@.partial_path is Some ==> match bumped_revision(
                old(self)@.revision,
                old(self)@.updated_at,
                updated_at.spec_get(),
            ) {
                Err(e) => result == Err::<(), StateValidationError>(e),
                Ok(revision) => result is Ok && final(self)@ == (TaskModel {
                    revision,
                    updated_at: updated_at.spec_get(),
                    partial_path: None,
                    completed: Seq::<FileRange>::empty(),
                    ..old(self)@
                }),
            },
            result is Err ==> final(self)@ == old(self)@,
    {
        if !(self.state == TaskState::Cancelled || self.state == TaskState::Failed) || self.final_path.is_some()
            || self.partial_path.is_none() {
            return Err(StateValidationError::InconsistentState);
        }
        match self.bump_revision(updated_at) {
            Ok(()) => {}
            Err(e) => return Err(e),
        }
        self.partial_path = None;
        self.completed_ranges = Vec::new();
        proof {
            assert(self@.completed =~= Seq::<FileRange>::empty());
            assert(total_len(self.completed_ranges@) == 0);
        }
        Ok(())
    }
}

} // verus!

verus! {

/// How the sizes of the stored identity and of the partial file relate: the
/// same known size; or, for a sequential transfer, both unknown, or a size
/// the stream discovered. The value is the discovered size, if any.
pub open spec fn discovered_size(stored: Option<u64>, partial: Option<u64>, mode: TransferMode) -> Result<
    Option<u64>,
    StateValidationError,
> {
    match (stored, partial) {
        (Some(a), Some(b)) => if a == b {
            Ok(None)
        } else {
            Err(StateValidationError::InvalidResource)
        },
        (None, None) => if mode == TransferMode::Single {
            Ok(None)
        } else {
            Err(StateValidationError::InvalidResource)
        },
        (None, Some(b)) => if mode == TransferMode::Single {
            Ok(Some(b))
        } else {
            Err(StateValidationError::InvalidResource)
        },
        (Some(_), None) => Err(StateValidationError::InvalidResource),
    }
}

impl TaskMetadata {
    /// Replaces persistent completed coverage with the storage object's
    /// durable snapshot `completed` of the partial at `partial_path` (of
    /// `partial_expected_len` bytes). An unchanged snapshot does not advance
    /// the revision; the result says whether the record changed.
    pub fn refresh_completed(
        &mut self,
        partial_path: &str,
        partial_expected_len: Option<u64>,
        completed: Vec<FileRange>,
        updated_at: TimestampMillis,
    ) -> (result: Result<bool, TaskUpdateError>)
        requires
            old(self).wf(),
            forall|i: int| 0 <= i < completed@.len() ==> (#[trigger] completed@[i]).wf(),
        ensures
            final(self).wf(),
            !(old(self)@.state == TaskState::Downloading || old(self)@.state == TaskState::Paused || old(self)@.state
                == TaskState::Validating) || old(self)@.partial_path != Some(partial_path@) ==> result == Err::<
                bool,
                TaskUpdateError,
            >(TaskUpdateError::State(StateValidationError::InconsistentState)),
            (old(self)@.state == TaskState::Downloading || old(self)@.state == TaskState::Paused || old(self)@.state
                == TaskState::Validating) && old(self)@.partial_path == Some(partial_path@) ==> match old(self)@.resource {
                None => result == Err::<bool, TaskUpdateError>(TaskUpdateError::State(StateValidationError::InvalidResource)),
                Some(r) => match discovered_size(r.spec_expected_size(), partial_expected_len, r.spec_transfer_mode()) {
                    Err(e) => result == Err::<bool, TaskUpdateError>(TaskUpdateError::State(e)),
                    Ok(discovered) => if !valid_completed_ranges(completed@, partial_expected_len) {
                        result == Err::<bool, TaskUpdateError>(
                            TaskUpdateError::State(StateValidationError::InvalidCompletedRanges),
                        )
                    } else if completed@ == old(self)@.completed && discovered is None {
                        result == Ok::<bool, TaskUpdateError>(false) && final(self)@ == old(self)@
                    } else {
                        match bumped_revision(old(self)@.revision, old(self)@.updated_at, updated_at.spec_get()) {
                            Err(e) => result == Err::<bool, TaskUpdateError>(TaskUpdateError::State(e)),
                            Ok(revision) => result == Ok::<bool, TaskUpdateError>(true) && final(self)@.revision == revision
                                && final(self)@.updated_at == updated_at.spec_get() && final(self)@.completed == completed@
                                && final(self)@.state == old(self)@.state && final(self)@.partial_path == old(self)@.partial_path
                                && final(self)@.final_path == old(self)@.final_path && final(self)@.task_id == old(self)@.task_id
                                && final(self)@.original_url == old(self)@.original_url
                                && final(self)@.display_name == old(self)@.display_name
                                && final(self)@.destination == old(self)@.destination
                                && final(self)@.workers == old(self)@.workers
                                && final(self)@.created_at == old(self)@.created_at
                                && final(self)@.needs_session == old(self)@.needs_session
                                && (final(self)@.resource matches Some(after)
                                    && after.spec_final_url() == r.spec_final_url()
                                    && after.spec_validators() == r.spec_validators()
                                    && after.spec_transfer_mode() == r.spec_transfer_mode()
                                    && after.spec_expected_size() == match discovered {
                                        Some(size) => Some(size),
                                        None => r.spec_expected_size(),
                                    }),
                        }
                    },
                },
            },
            result is Err ==> final(self)@ == old(self)@,
    {
        if !(self.state == TaskState::Downloading || self.state == TaskState::Paused || self.state == TaskState::Validating) {
            return Err(TaskUpdateError::State(StateValidationError::InconsistentState));
        }
        let same_partial = match &self.partial_path {
            Some(p) => same_text(p.as_str(), partial_path),
            None => false,
        };
        if !same_partial {
            return Err(TaskUpdateError::State(StateValidationError::InconsistentState));
        }
        let (stored, mode) = match &self.resource {
            Some(r) => (r.expected_size(), r.transfer_mode()),
            None => return Err(TaskUpdateError::State(StateValidationError::InvalidResource)),
        };
        let discovered = match (stored, partial_expected_len) {
            (Some(a), Some(b)) => if a == b {
                None
            } else {
                return Err(TaskUpdateError::State(StateValidationError::InvalidResource));
            },
            (None, None) => if mode == TransferMode::Single {
                None
            } else {
                return Err(TaskUpdateError::State(StateValidationError::InvalidResource));
            },
            (None, Some(b)) => if mode == TransferMode::Single {
                Some(b)
            } else {
                return Err(TaskUpdateError::State(StateValidationError::InvalidResource));
            },
            (Some(_), None) => return Err(TaskUpdateError::State(StateValidationError::InvalidResource)),
        };
        match validate_completed_ranges(completed.as_slice(), partial_expected_len) {
            Ok(()) => {}
            Err(e) => return Err(TaskUpdateError::State(e)),
        }
        proof {
            let limit: int = match partial_expected_len {
                Some(size) => size as int,
                None => u64::MAX as int,
            };
            assert(canonical_within(completed@, limit));
            lemma_total_len_bounded(completed@, limit);
        }
        if discovered.is_none() && same_ranges(completed.as_slice(), self.completed_ranges.as_slice()) {
            return Ok(false);
        }
        match self.bump_revision(updated_at) {
            Ok(()) => {}
            Err(e) => return Err(TaskUpdateError::State(e)),
        }
        if let Some(size) = discovered {
            let mut resource = self.resource.take();
            if let Some(r) = &mut resource {
                r.set_expected_size(size);
            }
            self.resource = resource;
        }
        self.completed_ranges = completed;
        Ok(true)
    }

    /// Records the collision-safe final pathname after publication.
    /// `final_check` is whether that path is a sanitized name directly inside
    /// the destination; a refusal is reported as `InvalidFinalPath`. While the promotion retains its partial link, the
    /// record keeps the partial path too; once the link is gone, recording
    /// again forgets it.
    pub fn record_promotion(
        &mut self,
        promotion: &crate::storage::Promotion,
        final_check: Result<(), StateValidationError>,
        updated_at: TimestampMillis,
    ) -> (result: Result<(), StateValidationError>)
        requires
            old(self).wf(),
        ensures
            final(self).wf(),
            result is Err ==> final(self)@ == old(self)@,
            result is Ok <==> old(self)@.state == TaskState::Promoting && final_check is Ok && (old(self)@.final_path is Some
                ==> old(self)@.final_path->Some_0 == promotion.spec_final_path()) && (promotion.spec_partial_path() is Some
                ==> old(self)@.partial_path == promotion.spec_partial_path()) && bumped_revision(
                old(self)@.revision,
                old(self)@.updated_at,
                updated_at.spec_get(),
            ) is Ok,
            old(self)@.state != TaskState::Promoting ==> result == Err::<(), StateValidationError>(
                StateValidationError::InconsistentState),
            old(self)@.state == TaskState::Promoting && final_check is Err ==> result == Err::<(), StateValidationError>(
                StateValidationError::InvalidFinalPath),
            result is Ok ==> final(self)@ == (TaskModel {
                revision: (old(self)@.revision + 1) as u64,
                updated_at: updated_at.spec_get(),
                final_path: Some(promotion.spec_final_path()),
                partial_path: if promotion.spec_partial_path() is None { None } else { old(self)@.partial_path },
                ..old(self)@
            }),
    {
        if self.state != TaskState::Promoting {
            return Err(StateValidationError::InconsistentState);
        }
        if final_check.is_err() {
            return Err(StateValidationError::InvalidFinalPath);
        }
        let final_path = promotion.final_path();
        if let Some(known) = &self.final_path {
            if !same_text(known.as_str(), final_path) {
                return Err(StateValidationError::InconsistentState);
            }
        }
        let retained = promotion.partial_path();
        if let Some(partial) = retained {
            let same = match &self.partial_path {
                Some(p) => same_text(p.as_str(), partial),
                None => false,
            };
            if !same {
                return Err(StateValidationError::InvalidPartialPath);
            }
        }
        match self.bump_revision(updated_at) {
            Ok(()) => {}
            Err(e) => return Err(e),
        }
        self.final_path = Some(final_path.to_string());
        if retained.is_none() {
            self.partial_path = None;
        }
        Ok(())
    }
}

fn same_ranges(a: &[FileRange], b: &[FileRange]) -> (same: bool)
    ensures
        same == (a@ == b@),
{
    if a.len() != b.len() {
        return false;
    }
    let mut i: usize = 0;
    while i < a.len()
        invariant
            a@.len() == b@.len(),
            0 <= i <= a@.len(),
            forall|k: int| 0 <= k < i ==> a@[k] == b@[k],
        decreases a@.len() - i,
    {
        if a[i].start != b[i].start || a[i].end != b[i].end {
            return false;
        }
        i += 1;
    }
    proof {
        assert(a@ =~= b@);
    }
    true
}

} // verus!

verus! {

impl TaskMetadata {
    /// Stable task identifier.
    pub fn task_id(&self) -> (id: TaskId)
        ensures
            id == self@.task_id,
    {
        self.task_id
    }

    /// Monotonically increasing metadata revision.
    pub fn revision(&self) -> (revision: u64)
        ensures
            revision == self@.revision,
    {
        self.revision
    }

    /// Current lifecycle state.
    pub fn state(&self) -> (state: TaskState)
        ensures
            state == self@.state,
    {
        self.state
    }

    /// Exact original URL required for retry/resume. This can be sensitive.
    pub fn original_url(&self) -> (url: &str)
        ensures
            url@ == self@.original_url,
    {
        self.original_url.as_str()
    }

    /// Whether recovery requires a session deliberately excluded from state.
    pub fn needs_session(&self) -> (needs: bool)
        ensures
            needs == self@.needs_session,
    {
        self.needs_session
    }

    /// Marks that recovery requires a session.
    pub fn require_session(&mut self)
        requires
            old(self).wf(),
        ensures
            final(self).wf(),
            final(self)@ == (TaskModel { needs_session: true, ..old(self)@ }),
    {
        self.needs_session = true;
    }

    /// Accepted resource identity after probing.
    pub fn resource(&self) -> (resource: Option<&ResourceIdentity>)
        ensures
            match self@.resource {
                Some(r) => resource matches Some(x) && *x == r,
                None => resource is None,
            },
    {
        match &self.resource {
            Some(r) => Some(r),
            None => None,
        }
    }

    /// Canonical destination directory. This can be sensitive.
    pub fn destination(&self) -> (destination: &str)
        ensures
            destination@ == self@.destination,
    {
        self.destination.as_str()
    }

    /// Safe display and final filename.
    pub fn display_name(&self) -> (name: &str)
        ensures
            name@ == self@.display_name,
    {
        self.display_name.as_str()
    }

    /// Persisted fixed transfer worker count.
    pub fn workers(&self) -> (workers: u8)
        ensures
            workers == self@.workers,
    {
        self.workers
    }

    /// Active or redundant partial path. This can be sensitive.
    pub fn partial_path(&self) -> (path: Option<&str>)
        ensures
            match self@.partial_path {
                Some(p) => path matches Some(x) && x@ == p,
                None => path is None,
            },
    {
        match &self.partial_path {
            Some(p) => Some(p.as_str()),
            None => None,
        }
    }

    /// Published final path for completed work. This can be sensitive.
    pub fn final_path(&self) -> (path: Option<&str>)
        ensures
            match self@.final_path {
                Some(p) => path matches Some(x) && x@ == p,
                None => path is None,
            },
    {
        match &self.final_path {
            Some(p) => Some(p.as_str()),
            None => None,
        }
    }

    /// Canonical completed coverage.
    pub fn completed_ranges(&self) -> (ranges: &[FileRange])
        ensures
            ranges@ == self@.completed,
    {
        self.completed_ranges.as_slice()
    }

    /// Sum of completed range lengths.
    pub fn bytes_completed(&self) -> (total: u64)
        requires
            self.wf(),
        ensures
            total == total_len(self@.completed),
    {
        match crate::transfer::completed_bytes(self.completed_ranges.as_slice()) {
            Some(n) => n,
            None => 0,
        }
    }

    /// Creation timestamp.
    pub fn created_at(&self) -> (at: TimestampMillis)
        ensures
            at.spec_get() == self@.created_at,
    {
        self.created_at
    }

    /// Last semantic mutation timestamp.
    pub fn updated_at(&self) -> (at: TimestampMillis)
        ensures
            at.spec_get() == self@.updated_at,
    {
        self.updated_at
    }
}

} // verus!

verus! {

impl TaskMetadata {
    /// How the recorded partial reopens: its path, its expected length and
    /// its durable coverage. A known-size partial keeps its coverage; an
    /// interrupted sequential stream of unknown length reopens empty and
    /// restarts at byte zero; anything else is an invalid resource.
    pub fn reopen_partial_plan(&self) -> (plan: Result<(&str, Option<u64>, &[FileRange]), StateValidationError>)
        ensures
            self@.partial_path is None ==> plan == Err::<(&str, Option<u64>, &[FileRange]), StateValidationError>(
                StateValidationError::InvalidPartialPath),
            self@.partial_path is Some && self@.resource is None ==> plan == Err::<
                (&str, Option<u64>, &[FileRange]),
                StateValidationError,
            >(StateValidationError::InvalidResource),
            self@.partial_path is Some && self@.resource is Some ==> match self@.resource->Some_0.spec_expected_size() {
                Some(size) => plan matches Ok((path, len, ranges)) && path@ == self@.partial_path->Some_0 && len == Some(size)
                    && ranges@ == self@.completed,
                None => if self@.resource->Some_0.spec_transfer_mode() == TransferMode::Single && self@.completed.len() == 0 {
                    plan matches Ok((path, len, ranges)) && path@ == self@.partial_path->Some_0 && len is None
                        && ranges@.len() == 0
                } else {
                    plan == Err::<(&str, Option<u64>, &[FileRange]), StateValidationError>(
                        StateValidationError::InvalidResource)
                },
            },
    {
        let path = match &self.partial_path {
            Some(p) => p.as_str(),
            None => return Err(StateValidationError::InvalidPartialPath),
        };
        let resource = match &self.resource {
            Some(r) => r,
            None => return Err(StateValidationError::InvalidResource),
        };
        match resource.expected_size() {
            Some(size) => Ok((path, Some(size), self.completed_ranges.as_slice())),
            None => {
                if resource.transfer_mode() == TransferMode::Single && self.completed_ranges.len() == 0 {
                    Ok((path, None, self.completed_ranges.as_slice()))
                } else {
                    Err(StateValidationError::InvalidResource)
                }
            }
        }
    }
}

} // verus!

verus! {

/// One task record as read from a task-state file, before validation.
pub struct PersistedTask {
    pub task_id: String,
    pub revision: u64,
    pub state: TaskState,
    pub original_url: String,
    pub needs_session: bool,
    pub transfer_mode: TransferMode,
    pub final_url: Option<String>,
    pub expected_size: Option<u64>,
    pub etag: Option<String>,
    pub last_modified: Option<String>,
    pub destination: String,
    pub display_name: String,
    pub workers: u8,
    pub partial_path: Option<String>,
    pub final_path: Option<String>,
    pub completed_ranges: Vec<(u64, u64)>,
    pub created_at_ms: u64,
    pub updated_at_ms: u64,
}

/// The plain reading of recorded validators: the parsed entity tag and the
/// date text.
pub open spec fn persisted_validators_view(raw: PersistedTask) -> (Option<(bool, Seq<char>)>, Option<Seq<char>>) {
    (
        match raw.etag {
            Some(t) => etag_parts(t@),
            None => None,
        },
        opt_path(raw.last_modified),
    )
}

/// The identity a record holds, read from its plain validators: none before
/// probing (with no size or validators), otherwise a valid identity at a
/// canonical final URL.
pub open spec fn persisted_identity(raw: PersistedTask) -> Result<Option<Seq<char>>, StateValidationError> {
    let vv = persisted_validators_view(raw);
    match (raw.transfer_mode, opt_path(raw.final_url)) {
        (TransferMode::Pending, None) => if raw.expected_size is Some || vv.0 is Some || vv.1 is Some {
            Err(StateValidationError::InvalidResource)
        } else {
            Ok(None)
        },
        (TransferMode::Pending, Some(_)) => Err(StateValidationError::InvalidResource),
        (_, None) => Err(StateValidationError::InvalidResource),
        (_, Some(url)) => if normalized_url_of(url) != Some(url) {
            Err(StateValidationError::InvalidUrl)
        } else {
            match resource_identity_of(url, raw.expected_size, vv, raw.transfer_mode) {
                Ok(canonical) => Ok(Some(canonical)),
                Err(e) => Err(e),
            }
        },
    }
}

/// The recorded size, when the record holds an identity.
pub open spec fn persisted_size(raw: PersistedTask) -> Option<u64> {
    match persisted_identity(raw) {
        Ok(Some(_)) => raw.expected_size,
        _ => None,
    }
}

/// The recorded ranges as half-open ranges.
pub open spec fn persisted_ranges_view(raw: PersistedTask) -> Seq<FileRange> {
    raw.completed_ranges@.map_values(|p: (u64, u64)| FileRange { start: p.0, end: p.1 })
}

/// Why a record cannot be loaded, checked in order: a canonical task id, a
/// revision, bounded timestamps that do not run backwards, a canonical
/// original URL, an accepted destination, an already-sanitized name, valid
/// validators, a valid identity, accepted partial and final paths, non-empty
/// ranges within the resource, a supported worker count, and a consistent
/// lifecycle.
pub open spec fn persisted_error(raw: PersistedTask, paths: PathChecks) -> Option<StateValidationError> {
    let vv = persisted_validators_view(raw);
    let partial = present_check(opt_path(raw.partial_path), paths.partial, StateValidationError::InvalidPartialPath);
    let final_check = present_check(opt_path(raw.final_path), paths.final_path, StateValidationError::InvalidFinalPath);
    if task_id_value(raw.task_id@, uuid_parse_of(raw.task_id@)) is None {
        Some(StateValidationError::InvalidTaskId)
    } else if raw.revision == 0 {
        Some(StateValidationError::InvalidRevision)
    } else if raw.created_at_ms > MAX_TIMESTAMP_MILLIS || raw.updated_at_ms > MAX_TIMESTAMP_MILLIS
        || raw.updated_at_ms < raw.created_at_ms {
        Some(StateValidationError::InvalidTimestamp)
    } else if normalized_url_of(raw.original_url@) != Some(raw.original_url@) {
        Some(StateValidationError::InvalidUrl)
    } else if paths.destination is Err {
        Some(StateValidationError::InvalidDestination)
    } else if sanitized(raw.display_name@) != raw.display_name@ {
        Some(StateValidationError::InvalidFilename)
    } else if (raw.etag matches Some(t) && etag_parts(t@) is None) || !valid_validators(vv) {
        Some(StateValidationError::InvalidValidator)
    } else if persisted_identity(raw) is Err {
        Some(persisted_identity(raw)->Err_0)
    } else if partial matches Some(Err(_)) {
        Some(StateValidationError::InvalidPartialPath)
    } else if final_check matches Some(Err(_)) {
        Some(StateValidationError::InvalidFinalPath)
    } else if exists|i: int| 0 <= i < raw.completed_ranges@.len() && (#[trigger] raw.completed_ranges@[i]).0
        >= raw.completed_ranges@[i].1 {
        Some(StateValidationError::InvalidCompletedRanges)
    } else if !valid_completed_ranges(persisted_ranges_view(raw), persisted_size(raw)) {
        Some(StateValidationError::InvalidCompletedRanges)
    } else if !valid_worker_count(raw.workers) {
        Some(StateValidationError::InvalidWorkerCount)
    } else {
        match state_consistency(
            raw.state,
            match persisted_identity(raw) {
                Ok(Some(_)) => Some((raw.expected_size, raw.transfer_mode)),
                _ => None,
            },
            partial is Some,
            final_check is Some,
            persisted_ranges_view(raw),
        ) {
            Err(e) => Some(e),
            Ok(_) => None,
        }
    }
}

/// Whether `task` holds exactly what a loadable record says.
pub open spec fn loaded_from(raw: PersistedTask, task: TaskModel) -> bool {
    &&& task_id_value(raw.task_id@, uuid_parse_of(raw.task_id@)) == Some(task.task_id.spec_value())
    &&& task.revision == raw.revision
    &&& task.state == raw.state
    &&& task.original_url == raw.original_url@
    &&& task.needs_session == raw.needs_session
    &&& match persisted_identity(raw) {
        Ok(Some(url)) => task.resource matches Some(r) && r.spec_final_url() == url && r.spec_expected_size()
            == raw.expected_size && validators_view(r.spec_validators()) == persisted_validators_view(raw)
            && r.spec_transfer_mode() == raw.transfer_mode,
        _ => task.resource is None,
    }
    &&& task.destination == raw.destination@
    &&& task.display_name == raw.display_name@
    &&& task.workers == raw.workers
    &&& task.partial_path == opt_path(raw.partial_path)
    &&& task.final_path == opt_path(raw.final_path)
    &&& task.completed == persisted_ranges_view(raw)
    &&& task.created_at == raw.created_at_ms
    &&& task.updated_at == raw.updated_at_ms
}

impl TaskMetadata {
    /// Validates one record read from a task-state file (see
    /// [`persisted_error`]); `paths` holds the platform path checks of its
    /// destination, partial and final paths.
    pub fn from_persisted(raw: PersistedTask, paths: PathChecks) -> (task: Result<TaskMetadata, StateValidationError>)
        ensures
            task is Ok <==> persisted_error(raw, paths) is None,
            task matches Err(e) ==> persisted_error(raw, paths) == Some(e),
            task matches Ok(t) ==> t.wf() && loaded_from(raw, t@),
    {
        let ghost source = raw;
        let task_id = match TaskId::parse(raw.task_id.as_str()) {
            Ok(id) => id,
            Err(e) => return Err(e),
        };
        if raw.revision == 0 {
            return Err(StateValidationError::InvalidRevision);
        }
        let created_at = match TimestampMillis::new(raw.created_at_ms) {
            Ok(t) => t,
            Err(e) => return Err(e),
        };
        let updated_at = match TimestampMillis::new(raw.updated_at_ms) {
            Ok(t) => t,
            Err(e) => return Err(e),
        };
        if updated_at.is_before(created_at) {
            return Err(StateValidationError::InvalidTimestamp);
        }
        let original_url = match require_canonical_url(raw.original_url.as_str()) {
            Ok(u) => u,
            Err(e) => return Err(e),
        };
        if paths.destination.is_err() {
            return Err(StateValidationError::InvalidDestination);
        }
        let sanitized_name = sanitize_filename(raw.display_name.as_str());
        if !same_text(sanitized_name.as_str(), raw.display_name.as_str()) {
            return Err(StateValidationError::InvalidFilename);
        }
        let etag = match &raw.etag {
            Some(t) => Some(t.as_str()),
            None => None,
        };
        let validators = match persisted_validators(etag, raw.last_modified) {
            Ok(v) => v,
            Err(e) => return Err(e),
        };
        let final_url = match &raw.final_url {
            Some(u) => Some(u.as_str()),
            None => None,
        };
        let resource = match persisted_resource(raw.transfer_mode, final_url, raw.expected_size, validators) {
            Ok(r) => r,
            Err(e) => return Err(e),
        };
        let partial_check = match &raw.partial_path {
            Some(_) => Some(
                match paths.partial {
                    Some(result) => result,
                    None => Err(StateValidationError::InvalidPartialPath),
                },
            ),
            None => None,
        };
        if let Some(Err(_)) = partial_check {
            return Err(StateValidationError::InvalidPartialPath);
        }
        let final_check = match &raw.final_path {
            Some(_) => Some(
                match paths.final_path {
                    Some(result) => result,
                    None => Err(StateValidationError::InvalidFinalPath),
                },
            ),
            None => None,
        };
        if let Some(Err(_)) = final_check {
            return Err(StateValidationError::InvalidFinalPath);
        }
        let completed_ranges = match persisted_ranges(raw.completed_ranges.as_slice()) {
            Ok(r) => r,
            Err(e) => return Err(e),
        };
        proof {
            assert(completed_ranges@ =~= persisted_ranges_view(source));
        }
        let size = match &resource {
            Some(r) => r.expected_size(),
            None => None,
        };
        match validate_completed_ranges(completed_ranges.as_slice(), size) {
            Ok(()) => {}
            Err(e) => return Err(e),
        }
        let task = TaskMetadata {
            task_id,
            revision: raw.revision,
            state: raw.state,
            original_url,
            needs_session: raw.needs_session,
            resource,
            destination: raw.destination,
            display_name: raw.display_name,
            workers: raw.workers,
            partial_path: raw.partial_path,
            final_path: raw.final_path,
            completed_ranges,
            created_at,
            updated_at,
        };
        match validate_task(
            task.revision,
            task.created_at,
            task.updated_at,
            task.workers,
            task.original_url.as_str(),
            paths.destination,
            task.display_name.as_str(),
            &task.resource,
            partial_check,
            final_check,
            task.completed_ranges.as_slice(),
            task.state,
        ) {
            Ok(()) => {}
            Err(e) => return Err(e),
        }
        proof {
            let limit: int = match size {
                Some(s) => s as int,
                None => u64::MAX as int,
            };
            assert(canonical_within(task.completed_ranges@, limit));
            lemma_total_len_bounded(task.completed_ranges@, limit);
        }
        Ok(task)
    }
}

} // verus!

verus! {

/// The text an optional identity field is written as.
pub open spec fn written_etag(validators: Validators) -> Option<Seq<char>> {
    match validators.etag {
        Some(tag) => Some(entity_tag_text(tag.spec_weak(), tag.spec_opaque())),
        None => None,
    }
}

/// Whether `raw` is the record written for `task`: every field as it
/// stands, the identifier as text that parses back to it, the identity
/// flattened (an unprobed task as a pending mode with nothing else), the
/// entity tag as its header text, and the ranges as pairs.
pub open spec fn written_from(raw: PersistedTask, task: TaskModel) -> bool {
    &&& raw.task_id@ == uuid_hyphenated_of(task.task_id.spec_value())
    &&& uuid_parse_of(raw.task_id@) == Some(task.task_id.spec_value())
    &&& raw.revision == task.revision
    &&& raw.state == task.state
    &&& raw.original_url@ == task.original_url
    &&& raw.needs_session == task.needs_session
    &&& match task.resource {
        None => raw.transfer_mode == TransferMode::Pending && raw.final_url is None && raw.expected_size is None
            && raw.etag is None && raw.last_modified is None,
        Some(r) => raw.transfer_mode == r.spec_transfer_mode() && opt_path(raw.final_url) == Some(r.spec_final_url())
            && raw.expected_size == r.spec_expected_size() && opt_path(raw.etag) == written_etag(r.spec_validators())
            && opt_path(raw.last_modified) == opt_path(r.spec_validators().last_modified),
    }
    &&& raw.destination@ == task.destination
    &&& raw.display_name@ == task.display_name
    &&& raw.workers == task.workers
    &&& opt_path(raw.partial_path) == task.partial_path
    &&& opt_path(raw.final_path) == task.final_path
    &&& raw.completed_ranges@.len() == task.completed.len()
    &&& forall|i: int| 0 <= i < task.completed.len() ==> (#[trigger] raw.completed_ranges@[i]) == (
        task.completed[i].start,
        task.completed[i].end,
    )
    &&& raw.created_at_ms == task.created_at
    &&& raw.updated_at_ms == task.updated_at
}

/// A copy of optional text.
fn copy_text(text: &Option<String>) -> (copy: Option<String>)
    ensures
        opt_path(copy) == opt_path(*text),
{
    match text {
        Some(t) => Some(t.as_str().to_string()),
        None => None,
    }
}

impl PersistedTask {
    /// The record a checkpoint writes for `task` (see [`written_from`]).
    pub fn from_task(task: &TaskMetadata) -> (raw: PersistedTask)
        ensures
            written_from(raw, task@),
    {
        let (transfer_mode, final_url, expected_size, etag, last_modified) = match &task.resource {
            None => (TransferMode::Pending, None, None, None, None),
            Some(r) => {
                let validators = r.validators();
                let etag = match &validators.etag {
                    Some(tag) => Some(format_entity_tag(tag)),
                    None => None,
                };
                (
                    r.transfer_mode(),
                    Some(r.final_url().to_string()),
                    r.expected_size(),
                    etag,
                    copy_text(&validators.last_modified),
                )
            },
        };
        let mut pairs: Vec<(u64, u64)> = Vec::new();
        let mut k: usize = 0;
        while k < task.completed_ranges.len()
            invariant
                0 <= k <= task.completed_ranges@.len(),
                pairs@.len() == k,
                forall|i: int| 0 <= i < k ==> (#[trigger] pairs@[i]) == (
                    task.completed_ranges@[i].start,
                    task.completed_ranges@[i].end,
                ),
            decreases task.completed_ranges@.len() - k,
        {
            let range = task.completed_ranges[k];
            pairs.push((range.start, range.end));
            k += 1;
        }
        PersistedTask {
            task_id: task.task_id.to_text(),
            revision: task.revision,
            state: task.state,
            original_url: task.original_url.as_str().to_string(),
            needs_session: task.needs_session,
            transfer_mode,
            final_url,
            expected_size,
            etag,
            last_modified,
            destination: task.destination.as_str().to_string(),
            display_name: task.display_name.as_str().to_string(),
            workers: task.workers,
            partial_path: copy_text(&task.partial_path),
            final_path: copy_text(&task.final_path),
            completed_ranges: pairs,
            created_at_ms: task.created_at.get(),
            updated_at_ms: task.updated_at.get(),
        }
    }
}

/// A record the lifecycle rules accept under the given path checks, with
/// bounded timestamps, a version-4 identifier and a canonical identity URL.
pub open spec fn valid_record(task: TaskModel, paths: PathChecks) -> bool {
    &&& task_check(
        task.revision,
        task.created_at,
        task.updated_at,
        task.workers,
        task.original_url,
        paths.destination,
        task.display_name,
        task.resource,
        present_check(task.partial_path, paths.partial, StateValidationError::InvalidPartialPath),
        present_check(task.final_path, paths.final_path, StateValidationError::InvalidFinalPath),
        task.completed,
        task.state,
    ) is Ok
    &&& task.updated_at <= MAX_TIMESTAMP_MILLIS
    &&& uuid_version(task.task_id.spec_value()) == 4
    &&& uuid_is_rfc4122(task.task_id.spec_value())
    &&& task.resource matches Some(r) ==> normalized_url_of(r.spec_final_url()) == Some(r.spec_final_url())
}

/// Two readings of a record that agree in every field, identities compared
/// by their plain reading.
pub open spec fn same_record(a: TaskModel, b: TaskModel) -> bool {
    &&& a.task_id == b.task_id
    &&& a.revision == b.revision
    &&& a.state == b.state
    &&& a.original_url == b.original_url
    &&& a.needs_session == b.needs_session
    &&& match (a.resource, b.resource) {
        (None, None) => true,
        (Some(x), Some(y)) => identity_view(x) == identity_view(y),
        _ => false,
    }
    &&& a.destination == b.destination
    &&& a.display_name == b.display_name
    &&& a.workers == b.workers
    &&& a.partial_path == b.partial_path
    &&& a.final_path == b.final_path
    &&& a.completed == b.completed
    &&& a.created_at == b.created_at
    &&& a.updated_at == b.updated_at
}

/// What a checkpoint writes, loading gives back: the record written from a
/// valid task passes every load check under the same path checks, and any
/// task loaded from it is that task again.
pub proof fn lemma_persist_round_trip(task: TaskModel, raw: PersistedTask, paths: PathChecks, loaded: TaskModel)
    requires
        valid_record(task, paths),
        written_from(raw, task),
    ensures
        persisted_error(raw, paths) is None,
        loaded_from(raw, loaded) ==> same_record(loaded, task),
{
    let vv = persisted_validators_view(raw);
    match task.resource {
        Some(r) => {
            let v = r.spec_validators();
            match v.etag {
                Some(tag) => {
                    lemma_etag_text_parses_back(tag.spec_weak(), tag.spec_opaque());
                },
                None => {},
            }
            assert(vv == validators_view(v));
        },
        None => {
            assert(vv == (None::<(bool, Seq<char>)>, None::<Seq<char>>));
        },
    }
    assert(persisted_ranges_view(raw) =~= task.completed);
    assert(task_id_value(raw.task_id@, uuid_parse_of(raw.task_id@)) == Some(task.task_id.spec_value()));
    if loaded_from(raw, loaded) {
        TaskId::lemma_value_identifies(loaded.task_id, task.task_id);
    }
}

} // verus!

verus! {

/// The format marker every task-state file carries.
pub const STATE_FORMAT_NAME: &'static str = "firefox-download-manager-task";

/// Which record layout a task-state file holds.
#[derive(Debug, Clone, Copy, PartialEq, Eq, Structural)]
pub enum RecordVersion {
    /// The current layout.
    Current,
    /// The second layout, without a session flag.
    Second,
    /// The first layout, without a session flag or a worker count.
    First,
}

/// The layout a file's format marker and version select: an unknown marker
/// and an unsupported version are refused.
pub open spec fn record_version_of(format: Seq<char>, version: u64) -> Result<RecordVersion, LoadFailureReason> {
    if format != STATE_FORMAT_NAME@ {
        Err(LoadFailureReason::UnknownFormat)
    } else if version == STATE_FORMAT_VERSION {
        Ok(RecordVersion::Current)
    } else if version == 2 {
        Ok(RecordVersion::Second)
    } else if version == 1 {
        Ok(RecordVersion::First)
    } else {
        Err(LoadFailureReason::IncompatibleVersion { found: version })
    }
}

/// Selects the record layout of a file (see [`record_version_of`]).
pub fn record_version(format: &str, version: u64) -> (layout: Result<RecordVersion, LoadFailureReason>)
    ensures
        layout == record_version_of(format@, version),
{
    if !same_text(format, STATE_FORMAT_NAME) {
        return Err(LoadFailureReason::UnknownFormat);
    }
    if version == STATE_FORMAT_VERSION {
        Ok(RecordVersion::Current)
    } else if version == 2 {
        Ok(RecordVersion::Second)
    } else if version == 1 {
        Ok(RecordVersion::First)
    } else {
        Err(LoadFailureReason::IncompatibleVersion { found: version })
    }
}

/// A task record in the second layout: no session flag.
pub struct PersistedTaskV2 {
    pub task_id: String,
    pub revision: u64,
    pub state: TaskState,
    pub original_url: String,
    pub transfer_mode: TransferMode,
    pub final_url: Option<String>,
    pub expected_size: Option<u64>,
    pub etag: Option<String>,
    pub last_modified: Option<String>,
    pub destination: String,
    pub display_name: String,
    pub workers: u8,
    pub partial_path: Option<String>,
    pub final_path: Option<String>,
    pub completed_ranges: Vec<(u64, u64)>,
    pub created_at_ms: u64,
    pub updated_at_ms: u64,
}

/// A task record in the first layout: no session flag and no worker count.
pub struct PersistedTaskV1 {
    pub task_id: String,
    pub revision: u64,
    pub state: TaskState,
    pub original_url: String,
    pub transfer_mode: TransferMode,
    pub final_url: Option<String>,
    pub expected_size: Option<u64>,
    pub etag: Option<String>,
    pub last_modified: Option<String>,
    pub destination: String,
    pub display_name: String,
    pub partial_path: Option<String>,
    pub final_path: Option<String>,
    pub completed_ranges: Vec<(u64, u64)>,
    pub created_at_ms: u64,
    pub updated_at_ms: u64,
}

impl PersistedTaskV2 {
    /// The current record: every field kept, with no session requirement.
    pub fn migrate(self) -> (raw: PersistedTask)
        ensures
            raw == (PersistedTask {
                task_id: self.task_id,
                revision: self.revision,
                state: self.state,
                original_url: self.original_url,
                needs_session: false,
                transfer_mode: self.transfer_mode,
                final_url: self.final_url,
                expected_size: self.expected_size,
                etag: self.etag,
                last_modified: self.last_modified,
                destination: self.destination,
                display_name: self.display_name,
                workers: self.workers,
                partial_path: self.partial_path,
                final_path: self.final_path,
                completed_ranges: self.completed_ranges,
                created_at_ms: self.created_at_ms,
                updated_at_ms: self.updated_at_ms,
            }),
    {
        PersistedTask {
            task_id: self.task_id,
            revision: self.revision,
            state: self.state,
            original_url: self.original_url,
            needs_session: false,
            transfer_mode: self.transfer_mode,
            final_url: self.final_url,
            expected_size: self.expected_size,
            etag: self.etag,
            last_modified: self.last_modified,
            destination: self.destination,
            display_name: self.display_name,
            workers: self.workers,
            partial_path: self.partial_path,
            final_path: self.final_path,
            completed_ranges: self.completed_ranges,
            created_at_ms: self.created_at_ms,
            updated_at_ms: self.updated_at_ms,
        }
    }
}

impl PersistedTaskV1 {
    /// The current record: every field kept, the default worker count, and
    /// no session requirement.
    pub fn migrate(self) -> (raw: PersistedTask)
        ensures
            raw == (PersistedTask {
                task_id: self.task_id,
                revision: self.revision,
                state: self.state,
                original_url: self.original_url,
                needs_session: false,
                transfer_mode: self.transfer_mode,
                final_url: self.final_url,
                expected_size: self.expected_size,
                etag: self.etag,
                last_modified: self.last_modified,
                destination: self.destination,
                display_name: self.display_name,
                workers: DEFAULT_TASK_WORKERS,
                partial_path: self.partial_path,
                final_path: self.final_path,
                completed_ranges: self.completed_ranges,
                created_at_ms: self.created_at_ms,
                updated_at_ms: self.updated_at_ms,
            }),
    {
        PersistedTask {
            task_id: self.task_id,
            revision: self.revision,
            state: self.state,
            original_url: self.original_url,
            needs_session: false,
            transfer_mode: self.transfer_mode,
            final_url: self.final_url,
            expected_size: self.expected_size,
            etag: self.etag,
            last_modified: self.last_modified,
            destination: self.destination,
            display_name: self.display_name,
            workers: DEFAULT_TASK_WORKERS,
            partial_path: self.partial_path,
            final_path: self.final_path,
            completed_ranges: self.completed_ranges,
            created_at_ms: self.created_at_ms,
            updated_at_ms: self.updated_at_ms,
        }
    }
}

/// Loads the record of a file named after `filename_id`: the record must
/// pass every load check (see [`persisted_error`]) and name the same task
/// as the file.
pub fn load_record(raw: PersistedTask, paths: PathChecks, filename_id: TaskId) -> (task: Result<
    TaskMetadata,
    LoadFailureReason,
>)
    ensures
        task is Ok <==> persisted_error(raw, paths) is None && task_id_value(raw.task_id@, uuid_parse_of(raw.task_id@))
            == Some(filename_id.spec_value()),
        persisted_error(raw, paths) matches Some(e) ==> task == Err::<TaskMetadata, LoadFailureReason>(
            LoadFailureReason::InvalidTask(e),
        ),
        persisted_error(raw, paths) is None && task_id_value(raw.task_id@, uuid_parse_of(raw.task_id@)) != Some(
            filename_id.spec_value(),
        ) ==> task == Err::<TaskMetadata, LoadFailureReason>(LoadFailureReason::TaskIdMismatch),
        task matches Ok(t) ==> t.wf() && loaded_from(raw, t@),
{
    let ghost source = raw;
    match TaskMetadata::from_persisted(raw, paths) {
        Err(e) => Err(LoadFailureReason::InvalidTask(e)),
        Ok(task) => {
            if task.task_id().value() != filename_id.value() {
                Err(LoadFailureReason::TaskIdMismatch)
            } else {
                Ok(task)
            }
        },
    }
}

} // verus!

verus! {

/// The lifecycle rules applied to a whole record under given path checks.
pub open spec fn record_check(task: TaskModel, paths: PathChecks) -> Result<(), StateValidationError> {
    task_check(
        task.revision,
        task.created_at,
        task.updated_at,
        task.workers,
        task.original_url,
        paths.destination,
        task.display_name,
        task.resource,
        present_check(task.partial_path, paths.partial, StateValidationError::InvalidPartialPath),
        present_check(task.final_path, paths.final_path, StateValidationError::InvalidFinalPath),
        task.completed,
        task.state,
    )
}

impl TaskMetadata {
    /// Checks the whole record against the lifecycle rules (see
    /// [`record_check`]).
    pub fn validate(&self, paths: PathChecks) -> (result: Result<(), StateValidationError>)
        requires
            self.wf(),
        ensures
            result == record_check(self@, paths),
    {
        let partial_check = match &self.partial_path {
            Some(_) => Some(
                match paths.partial {
                    Some(result) => result,
                    None => Err(StateValidationError::InvalidPartialPath),
                },
            ),
            None => None,
        };
        let final_check = match &self.final_path {
            Some(_) => Some(
                match paths.final_path {
                    Some(result) => result,
                    None => Err(StateValidationError::InvalidFinalPath),
                },
            ),
            None => None,
        };
        validate_task(
            self.revision,
            self.created_at,
            self.updated_at,
            self.workers,
            self.original_url.as_str(),
            paths.destination,
            self.display_name.as_str(),
            &self.resource,
            partial_check,
            final_check,
            self.completed_ranges.as_slice(),
            self.state,
        )
    }
}

/// What explicit terminal cleanup does.
#[derive(Debug, Clone, Copy, PartialEq, Eq, Structural)]
pub enum CleanupPlan {
    /// Keep the record: its partial is retained for the user.
    Retain,
    /// Delete the recorded partial first, when there is one, then the
    /// record; a final file is never touched.
    Remove { partial: bool },
}

/// Cleanup applies only to a finished task whose record is valid; a kept
/// partial keeps the record too.
pub open spec fn cleanup_plan_of(task: TaskModel, paths: PathChecks, policy: PartialCleanup) -> Result<
    CleanupPlan,
    PersistenceError,
> {
    if !terminal(task.state) {
        Err(PersistenceError::CleanupRequiresTerminal)
    } else if record_check(task, paths) is Err {
        Err(PersistenceError::InvalidTask(record_check(task, paths)->Err_0))
    } else if task.partial_path is Some && policy == PartialCleanup::Keep {
        Ok(CleanupPlan::Retain)
    } else {
        Ok(CleanupPlan::Remove { partial: task.partial_path is Some })
    }
}

/// Plans explicit terminal cleanup (see [`cleanup_plan_of`]).
pub fn cleanup_plan(task: &TaskMetadata, paths: PathChecks, policy: PartialCleanup) -> (plan: Result<
    CleanupPlan,
    PersistenceError,
>)
    requires
        task.wf(),
    ensures
        plan == cleanup_plan_of(task@, paths, policy),
{
    if !task.state().is_terminal() {
        return Err(PersistenceError::CleanupRequiresTerminal);
    }
    match task.validate(paths) {
        Ok(()) => {},
        Err(e) => return Err(PersistenceError::InvalidTask(e)),
    }
    let has_partial = task.partial_path().is_some();
    if has_partial && policy == PartialCleanup::Keep {
        Ok(CleanupPlan::Retain)
    } else {
        Ok(CleanupPlan::Remove { partial: has_partial })
    }
}

/// Discarding a partial applies only to a failed or cancelled task whose
/// record is valid; the value says whether there is a partial to delete.
pub open spec fn discard_plan_of(task: TaskModel, paths: PathChecks) -> Result<bool, PersistenceError> {
    if !(task.state == TaskState::Cancelled || task.state == TaskState::Failed) {
        Err(PersistenceError::CleanupRequiresTerminal)
    } else if record_check(task, paths) is Err {
        Err(PersistenceError::InvalidTask(record_check(task, paths)->Err_0))
    } else {
        Ok(task.partial_path is Some)
    }
}

/// Plans the deletion of a failed or cancelled task's partial (see
/// [`discard_plan_of`]).
pub fn discard_plan(task: &TaskMetadata, paths: PathChecks) -> (plan: Result<bool, PersistenceError>)
    requires
        task.wf(),
    ensures
        plan == discard_plan_of(task@, paths),
{
    let state = task.state();
    if !(state == TaskState::Cancelled || state == TaskState::Failed) {
        return Err(PersistenceError::CleanupRequiresTerminal);
    }
    match task.validate(paths) {
        Ok(()) => {},
        Err(e) => return Err(PersistenceError::InvalidTask(e)),
    }
    Ok(task.partial_path().is_some())
}

/// What was found at a partial's path before deleting it.
#[derive(Debug, Clone, Copy, PartialEq, Eq, Structural)]
pub enum PartialRemoval {
    /// An ordinary file to delete.
    Delete,
    /// Nothing is there any more.
    AlreadyGone,
}

/// Whether a partial may be deleted: it must be an ordinary file, and the
/// partial of a completed task must be the very file that was published
/// (`same_as_final`, `None` when no final path is recorded); a vanished
/// partial needs no deletion.
pub open spec fn partial_removal_of(state: TaskState, found: FileObservation, same_as_final: Option<bool>) -> Result<
    PartialRemoval,
    PersistenceError,
> {
    match found {
        FileObservation::Missing => Ok(PartialRemoval::AlreadyGone),
        FileObservation::Failed(failure) => Err(
            PersistenceError::Io { operation: PersistenceOperation::Cleanup, failure, os_code: None },
        ),
        FileObservation::Unsafe => Err(PersistenceError::InvalidTask(StateValidationError::InvalidPartialPath)),
        FileObservation::File { .. } => if state != TaskState::Completed {
            Ok(PartialRemoval::Delete)
        } else {
            match same_as_final {
                None => Err(PersistenceError::InvalidTask(StateValidationError::InvalidFinalPath)),
                Some(true) => Ok(PartialRemoval::Delete),
                Some(false) => Err(PersistenceError::InvalidTask(StateValidationError::InvalidPartialPath)),
            }
        },
    }
}

/// Decides whether a partial may be deleted (see [`partial_removal_of`]).
pub fn partial_removal(state: TaskState, found: FileObservation, same_as_final: Option<bool>) -> (removal: Result<
    PartialRemoval,
    PersistenceError,
>)
    ensures
        removal == partial_removal_of(state, found, same_as_final),
{
    match found {
        FileObservation::Missing => Ok(PartialRemoval::AlreadyGone),
        FileObservation::Failed(failure) => Err(
            PersistenceError::Io { operation: PersistenceOperation::Cleanup, failure, os_code: None },
        ),
        FileObservation::Unsafe => Err(PersistenceError::InvalidTask(StateValidationError::InvalidPartialPath)),
        FileObservation::File { .. } => if state != TaskState::Completed {
            Ok(PartialRemoval::Delete)
        } else {
            match same_as_final {
                None => Err(PersistenceError::InvalidTask(StateValidationError::InvalidFinalPath)),
                Some(true) => Ok(PartialRemoval::Delete),
                Some(false) => Err(PersistenceError::InvalidTask(StateValidationError::InvalidPartialPath)),
            }
        },
    }
}

/// Cleanup never touches a task that has not finished, and never deletes
/// the partial of a completed task unless it is the published file itself.
pub proof fn lemma_cleanup_is_safe(task: TaskModel, paths: PathChecks, policy: PartialCleanup, found: FileObservation,
    same_as_final: Option<bool>)
    ensures
        cleanup_plan_of(task, paths, policy) is Ok ==> terminal(task.state),
        discard_plan_of(task, paths) is Ok ==> task.state == TaskState::Cancelled || task.state == TaskState::Failed,
        policy == PartialCleanup::Keep && task.partial_path is Some ==> !(cleanup_plan_of(task, paths, policy) matches Ok(
            CleanupPlan::Remove { .. },
        )),
        state_is_completed(task.state) && partial_removal_of(task.state, found, same_as_final) == Ok::<
            PartialRemoval,
            PersistenceError,
        >(PartialRemoval::Delete) ==> same_as_final == Some(true),
{
}

/// Whether a state is the completed one.
pub open spec fn state_is_completed(state: TaskState) -> bool {
    state == TaskState::Completed
}

} // verus!

verus! {

/// The position of the first item with the least key.
pub open spec fn first_min_index<A>(s: Seq<A>, key: spec_fn(A) -> int) -> int
    decreases s.len(),
{
    if s.len() <= 1 {
        0
    } else {
        let k = first_min_index(s.drop_last(), key);
        if key(s.last()) < key(s[k]) {
            s.len() - 1
        } else {
            k
        }
    }
}

/// The first least-key position lies in the sequence and no key is smaller.
pub proof fn lemma_first_min_index<A>(s: Seq<A>, key: spec_fn(A) -> int)
    requires
        s.len() > 0,
    ensures
        0 <= first_min_index(s, key) < s.len(),
        forall|j: int| 0 <= j < s.len() ==> key(s[first_min_index(s, key)]) <= key(#[trigger] s[j]),
    decreases s.len(),
{
    if s.len() > 1 {
        lemma_first_min_index(s.drop_last(), key);
        let k = first_min_index(s.drop_last(), key);
        assert forall|j: int| 0 <= j < s.len() implies key(s[first_min_index(s, key)]) <= key(#[trigger] s[j]) by {
            if j < s.len() - 1 {
                assert(s[j] == s.drop_last()[j]);
            }
        }
    }
}

/// The items in order of their keys, items of equal key in their original
/// order: the first item of least key, then the rest sorted the same way.
pub open spec fn key_sorted<A>(s: Seq<A>, key: spec_fn(A) -> int) -> Seq<A>
    decreases s.len(),
{
    if s.len() == 0 {
        Seq::empty()
    } else {
        proof {
            lemma_first_min_index(s, key);
        }
        let k = first_min_index(s, key);
        seq![s[k]] + key_sorted(s.remove(k), key)
    }
}

/// A key-sorted sequence holds the same items, in nondecreasing key order.
pub proof fn lemma_key_sorted<A>(s: Seq<A>, key: spec_fn(A) -> int)
    ensures
        key_sorted(s, key).len() == s.len(),
        key_sorted(s, key).to_multiset() == s.to_multiset(),
        forall|i: int, j: int| 0 <= i < j < s.len() ==> key(#[trigger] key_sorted(s, key)[i]) <= key(
            #[trigger] key_sorted(s, key)[j],
        ),
    decreases s.len(),
{
    broadcast use vstd::seq_lib::group_to_multiset_ensures;
    if s.len() > 0 {
        lemma_first_min_index(s, key);
        let k = first_min_index(s, key);
        let rest = s.remove(k);
        lemma_key_sorted(rest, key);
        let tail = key_sorted(rest, key);
        let r = key_sorted(s, key);
        assert(r == seq![s[k]] + tail);
        assert(r =~= tail.insert(0, s[k]));
        vstd::seq_lib::to_multiset_insert(tail, 0, s[k]);
        vstd::seq_lib::to_multiset_remove(s, k);
        assert forall|i: int, j: int| 0 <= i < j < s.len() implies key(#[trigger] r[i]) <= key(#[trigger] r[j]) by {
            if i == 0 {
                assert(r[j] == tail[j - 1]);
                assert(tail.to_multiset().count(tail[j - 1]) > 0);
                assert(rest.to_multiset().count(tail[j - 1]) > 0);
                assert(rest.contains(tail[j - 1]));
                let m = choose|m: int| 0 <= m < rest.len() && rest[m] == tail[j - 1];
                let orig = if m < k { m } else { m + 1 };
                assert(rest[m] == s[orig]);
            } else {
                assert(r[i] == tail[i - 1] && r[j] == tail[j - 1]);
            }
        }
    }
}

/// The sort key of a loaded task: its identifier.
pub open spec fn task_key(task: TaskMetadata) -> int {
    task@.task_id.spec_value() as int
}

/// The task key as a function.
pub open spec fn by_task() -> spec_fn(TaskMetadata) -> int {
    |t: TaskMetadata| task_key(t)
}

/// The failure key as a function.
pub open spec fn by_failure() -> spec_fn(LoadFailure) -> int {
    |f: LoadFailure| failure_key(f)
}

/// The sort key of a load failure: failures without a task come first, then
/// by identifier.
pub open spec fn failure_key(failure: LoadFailure) -> int {
    match failure.task_id {
        None => -1,
        Some(id) => id.spec_value() as int,
    }
}

fn first_min_task(items: &Vec<TaskMetadata>) -> (k: usize)
    requires
        items@.len() > 0,
    ensures
        k == first_min_index(items@, by_task()),
{
    let ghost key = by_task();
    let mut best: usize = 0;
    let mut i: usize = 1;
    while i < items.len()
        invariant
            1 <= i <= items@.len(),
            key == by_task(),
            best == first_min_index(items@.take(i as int), key),
        decreases items@.len() - i,
    {
        proof {
            assert(items@.take(i + 1).drop_last() =~= items@.take(i as int));
            lemma_first_min_index(items@.take(i as int), key);
            assert(items@.take(i + 1).last() == items@[i as int]);
            assert(items@.take(i + 1)[best as int] == items@[best as int]);
        }
        if items[i].task_id().value() < items[best].task_id().value() {
            best = i;
        }
        i += 1;
    }
    proof {
        assert(items@.take(items@.len() as int) =~= items@);
    }
    best
}

fn first_min_failure(items: &Vec<LoadFailure>) -> (k: usize)
    requires
        items@.len() > 0,
    ensures
        k == first_min_index(items@, by_failure()),
{
    let ghost key = by_failure();
    let mut best: usize = 0;
    let mut i: usize = 1;
    while i < items.len()
        invariant
            1 <= i <= items@.len(),
            key == by_failure(),
            best == first_min_index(items@.take(i as int), key),
        decreases items@.len() - i,
    {
        proof {
            assert(items@.take(i + 1).drop_last() =~= items@.take(i as int));
            lemma_first_min_index(items@.take(i as int), key);
            assert(items@.take(i + 1).last() == items@[i as int]);
            assert(items@.take(i + 1)[best as int] == items@[best as int]);
        }
        let less = match (items[i].task_id, items[best].task_id) {
            (None, Some(_)) => true,
            (Some(a), Some(b)) => a.value() < b.value(),
            _ => false,
        };
        if less {
            best = i;
        }
        i += 1;
    }
    proof {
        assert(items@.take(items@.len() as int) =~= items@);
    }
    best
}

/// Orders loaded tasks by identifier (see [`key_sorted`]).
pub fn sort_loaded_tasks(tasks: Vec<TaskMetadata>) -> (sorted: Vec<TaskMetadata>)
    ensures
        sorted@ == key_sorted(tasks@, by_task()),
{
    let ghost key = by_task();
    let mut rest = tasks;
    let mut out: Vec<TaskMetadata> = Vec::new();
    while rest.len() > 0
        invariant
            key == by_task(),
            out@ + key_sorted(rest@, key) == key_sorted(tasks@, key),
        decreases rest@.len(),
    {
        let k = first_min_task(&rest);
        proof {
            lemma_first_min_index(rest@, key);
        }
        let ghost before = rest@;
        let item = rest.remove(k);
        out.push(item);
        proof {
            assert(key_sorted(before, key) == seq![before[k as int]] + key_sorted(rest@, key));
            assert(out@ + key_sorted(rest@, key) =~= out@.drop_last() + key_sorted(before, key));
        }
    }
    proof {
        assert(out@ + key_sorted(rest@, key) =~= out@);
    }
    out
}

/// Orders load failures: those without a task first, then by identifier,
/// each group in its original order (see [`key_sorted`]).
pub fn sort_load_failures(failures: Vec<LoadFailure>) -> (sorted: Vec<LoadFailure>)
    ensures
        sorted@ == key_sorted(failures@, by_failure()),
{
    let ghost key = by_failure();
    let mut rest = failures;
    let mut out: Vec<LoadFailure> = Vec::new();
    while rest.len() > 0
        invariant
            key == by_failure(),
            out@ + key_sorted(rest@, key) == key_sorted(failures@, key),
        decreases rest@.len(),
    {
        let k = first_min_failure(&rest);
        proof {
            lemma_first_min_index(rest@, key);
        }
        let ghost before = rest@;
        let item = rest.remove(k);
        out.push(item);
        proof {
            assert(key_sorted(before, key) == seq![before[k as int]] + key_sorted(rest@, key));
            assert(out@ + key_sorted(rest@, key) =~= out@.drop_last() + key_sorted(before, key));
        }
    }
    proof {
        assert(out@ + key_sorted(rest@, key) =~= out@);
    }
    out
}

/// Loading the task directory in progress: the listing's counts, the tasks
/// loaded and the files reported so far, and the task whose file is being
/// read, if any.
pub struct LoadSession {
    listing: TaskListing,
    tasks: Vec<TaskMetadata>,
    failures: Vec<LoadFailure>,
    pending: Option<TaskId>,
}

impl LoadSession {
    /// The listing's counts.
    pub closed spec fn spec_listing(&self) -> TaskListing {
        self.listing
    }

    /// The tasks loaded so far, in the order their files were listed.
    pub closed spec fn spec_tasks(&self) -> Seq<TaskMetadata> {
        self.tasks@
    }

    /// The files reported so far, in the order they were listed.
    pub closed spec fn spec_failures(&self) -> Seq<LoadFailure> {
        self.failures@
    }

    /// The task whose file is being read.
    pub closed spec fn spec_pending(&self) -> Option<TaskId> {
        self.pending
    }

    /// Every task-state file listed so far is accounted for exactly once:
    /// as a loaded task, as a reported failure, or as the file being read.
    pub open spec fn wf(&self) -> bool {
        self.spec_tasks().len() + self.spec_failures().len() + (if self.spec_pending() is Some {
            1int
        } else {
            0int
        }) == self.spec_listing().task_files
    }

    /// Nothing listed yet.
    pub fn new() -> (session: LoadSession)
        ensures
            session.wf(),
            session.spec_listing() == (TaskListing { entries: 0, task_files: 0 }),
            session.spec_tasks() == Seq::<TaskMetadata>::empty(),
            session.spec_failures() == Seq::<LoadFailure>::empty(),
            session.spec_pending() is None,
    {
        LoadSession { listing: TaskListing::new(), tasks: Vec::new(), failures: Vec::new(), pending: None }
    }

    /// Whether no file is being read.
    pub fn is_settled(&self) -> (settled: bool)
        ensures
            settled == self.spec_pending() is None,
    {
        self.pending.is_none()
    }

    /// Lists the next directory entry (see [`TaskListing::observe`]): a file
    /// reported as a failure joins the failures, and a file to load becomes
    /// the one being read, to be settled before the next entry.
    pub fn observe(&mut self, name: Option<&str>, kind: Result<(bool, bool), IoFailure>) -> (listed: Result<
        ListedEntry,
        PersistenceError,
    >)
        requires
            old(self).wf(),
            old(self).spec_pending() is None,
        ensures
            final(self).wf(),
            listing_step(
                old(self).spec_listing(),
                match name {
                    Some(n) => Some(n@),
                    None => None,
                },
                kind,
                final(self).spec_listing(),
                listed,
            ),
            final(self).spec_tasks() == old(self).spec_tasks(),
            final(self).spec_failures() == match listed {
                Ok(ListedEntry::Failed(f)) => old(self).spec_failures().push(f),
                _ => old(self).spec_failures(),
            },
            final(self).spec_pending() == match listed {
                Ok(ListedEntry::Load(id)) => Some(id),
                _ => None::<TaskId>,
            },
    {
        let listed = self.listing.observe(name, kind);
        match listed {
            Ok(ListedEntry::Failed(f)) => self.failures.push(f),
            Ok(ListedEntry::Load(id)) => self.pending = Some(id),
            _ => {},
        }
        listed
    }

    /// Records how reading the pending file ended: the loaded task, or the
    /// reason the file is reported under the task it names.
    pub fn settle(&mut self, loaded: Result<TaskMetadata, LoadFailureReason>)
        requires
            old(self).wf(),
            old(self).spec_pending() is Some,
        ensures
            final(self).wf(),
            final(self).spec_listing() == old(self).spec_listing(),
            final(self).spec_pending() is None,
            match loaded {
                Ok(task) => {
                    &&& final(self).spec_tasks() == old(self).spec_tasks().push(task)
                    &&& final(self).spec_failures() == old(self).spec_failures()
                },
                Err(reason) => {
                    &&& final(self).spec_tasks() == old(self).spec_tasks()
                    &&& final(self).spec_failures() == old(self).spec_failures().push(
                        LoadFailure { task_id: old(self).spec_pending(), reason },
                    )
                },
            },
    {
        let task_id = self.pending;
        self.pending = None;
        match loaded {
            Ok(task) => self.tasks.push(task),
            Err(reason) => self.failures.push(LoadFailure { task_id, reason }),
        }
    }

    /// The loaded tasks ordered by identifier and the reported files ordered
    /// as [`sort_load_failures`] does; every task-state file listed is in
    /// exactly one of them.
    pub fn finish(self) -> (report: (Vec<TaskMetadata>, Vec<LoadFailure>))
        requires
            self.wf(),
            self.spec_pending() is None,
        ensures
            report.0@ == key_sorted(self.spec_tasks(), by_task()),
            report.1@ == key_sorted(self.spec_failures(), by_failure()),
            report.0@.to_multiset() == self.spec_tasks().to_multiset(),
            report.1@.to_multiset() == self.spec_failures().to_multiset(),
            report.0@.len() + report.1@.len() == self.spec_listing().task_files,
    {
        proof {
            lemma_key_sorted(self.tasks@, by_task());
            lemma_key_sorted(self.failures@, by_failure());
        }
        (sort_loaded_tasks(self.tasks), sort_load_failures(self.failures))
    }
}

} // verus!
