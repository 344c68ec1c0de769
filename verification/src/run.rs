//! A reconciliation run of one repository, from taking its lock to giving it back. The run says
//! what is to be done next, and takes what came of it; nothing is done twice at once.

use crate::classification::{RepositorySafetyState, UpstreamConvergenceState};
use crate::config::{RepositoryDescriptor, RepositoryLifecycle, RepositoryMode, WriteUpstream};
use crate::git::{failure_text, GitProcessOutput, GitReply};
use crate::locking::{LockEvent, LockStage};
use crate::order::{self, sorted};
use crate::reconcile::{
    command_failed, complete_run, delete_internal_ref, ensure_reconcile_ready, expect_success,
    exported_refs_read, law_pushes_are_warranted, list_divergence_marker_refs_command,
    list_local_exported_refs, list_local_refs_command, marked, names_of, parse_ref_targets, persist_divergence_markers,
    reconcile_refused, ref_targets_read, safety_after, start_run, started, supersede_stale_run, warranted,
    DivergenceMarker, DivergencePlan, InProgressMarker, LockMetadata, ReconcileError,
    ReconcileProgress, ReconcileRunRecord, ReconcileRunStatus, ReconcileSession,
    ReconcileUpstreamResult,
};
use crate::refs::{copy_entries, RefSnapshotEntry};
use crate::text::{holds, text_of, texts};
use crate::upstream::{copy_upstream, upstreams_by_name};
use vstd::prelude::*;

verus! {

/// What a run has come to: its record so far, and the upstreams that it reconciles in turn.
#[derive(Debug)]
pub struct RunState {
    pub run: ReconcileRunRecord,
    pub upstreams: Vec<WriteUpstream>,
}

/// How far a run has come: what it waits for, and what it needs afterwards.
#[derive(Debug)]
pub enum RunStage {
    /// Taking the lock.
    Lock(LockStage),
    /// Listing the repository's references.
    Snapshot { pid: u32, started_at_ms: u128 },
    /// Reading the marker that an unfinished run left behind.
    ReadMarker { pid: u32, state: RunState },
    /// Reading the record of the unfinished run.
    ReadStale { pid: u32, state: RunState, stale_run_id: String },
    /// Writing that the unfinished run is superseded.
    WriteStale { pid: u32, state: RunState, stale: ReconcileRunRecord },
    /// Removing the marker of the unfinished run.
    DropStale { pid: u32, state: RunState },
    /// Writing the marker of this run.
    WriteMarker { marker: InProgressMarker, state: RunState },
    /// Writing the record for the first time.
    WriteStart { state: RunState },
    /// Reconciling the next upstream.
    Upstream { state: RunState, session: ReconcileSession },
    /// Writing the record with one more result.
    WriteProgress { state: RunState },
    /// Listing the divergence markers.
    ListMarks { state: RunState },
    /// Writing a divergence marker.
    WriteMark { state: RunState, plan: DivergencePlan, next: usize },
    /// Deleting a divergence marker.
    DropMark { state: RunState, plan: DivergencePlan, next: usize },
    /// Writing the record of the completed run.
    WriteEnd { run: ReconcileRunRecord },
    /// Removing the marker of this run.
    DropMarker { run: ReconcileRunRecord },
    /// Removing the request that the run has served.
    DropRequest { run: ReconcileRunRecord },
    /// Giving the lock back.
    Release(Result<ReconcileRunRecord, ReconcileError>),
    /// Nothing: the run is over.
    Finished(Result<ReconcileRunRecord, ReconcileError>),
}

/// What came of what a run asked for.
#[derive(Debug)]
pub enum RunEvent {
    Lock(LockEvent),
    /// A Git command was run, or tried, by a time.
    Git { reply: GitReply, now_ms: u128 },
    Marker(Option<InProgressMarker>),
    Record { record: Option<ReconcileRunRecord>, now_ms: u128 },
    /// It was done, or need not be, by a time.
    Done { now_ms: u128 },
    /// It could not be done.
    Failed(ReconcileError),
}

/// What a run asks for.
#[derive(Debug)]
pub enum RunAction<'a> {
    CreateLock,
    ReadLock,
    RemoveLock,
    WriteLock(LockMetadata),
    Git { args: Vec<String> },
    ReadMarker,
    ReadRecord { run_id: &'a String },
    WriteRecord(&'a ReconcileRunRecord),
    WriteMarker(&'a InProgressMarker),
    RemoveMarker,
    StoreMark { ref_name: &'a String, marker: &'a DivergenceMarker },
    RemoveRequest,
    Finish,
}

/// A run under way.
#[derive(Debug)]
pub struct RunSession {
    pub descriptor: RepositoryDescriptor,
    pub run_id: String,
    pub lock_timeout_ms: u64,
    pub stage: RunStage,
}

// ---------------------------------------------------------------------------
// What every run keeps

/// Whether the results are those of the first of the upstreams, in their order, each one that the
/// reconciliation of its upstream can come to.
pub open spec fn results_in_turn(
    results: Seq<ReconcileUpstreamResult>,
    upstreams: Seq<WriteUpstream>,
    desired: Seq<RefSnapshotEntry>,
) -> bool {
    &&& results.len() <= upstreams.len()
    &&& forall|i: int|
        0 <= i < results.len() ==> warranted(#[trigger] results[i], upstreams[i], desired)
}

/// Whether a record is that of a run of a repository which is still in progress.
pub open spec fn in_progress(
    descriptor: RepositoryDescriptor,
    run_id: Seq<char>,
    state: RunState,
) -> bool {
    &&& state.upstreams@ == sorted(descriptor.write_upstreams@)
    &&& state.run.run_id@ == run_id
    &&& state.run.repo_id@ == descriptor.repo_id@
    &&& state.run.repo_path@ == descriptor.repo_path@
    &&& texts(state.run.captured_upstreams@) == names_of(state.upstreams@)
    &&& results_in_turn(
        state.run.upstream_results@,
        state.upstreams@,
        state.run.desired_snapshot@,
    )
    &&& state.run.status == ReconcileRunStatus::InProgress
    &&& state.run.completed_at_ms is None
    &&& state.run.superseded_by is None
}

/// Whether a record is that of a completed run of a repository: it has one result for each of the
/// repository's upstreams, in the order of their names, and says what they come to.
pub open spec fn completed(
    descriptor: RepositoryDescriptor,
    run_id: Seq<char>,
    run: ReconcileRunRecord,
) -> bool {
    let upstreams = sorted(descriptor.write_upstreams@);
    &&& run.run_id@ == run_id
    &&& run.repo_id@ == descriptor.repo_id@
    &&& run.repo_path@ == descriptor.repo_path@
    &&& texts(run.captured_upstreams@) == names_of(upstreams)
    &&& run.upstream_results@.len() == upstreams.len()
    &&& results_in_turn(run.upstream_results@, upstreams, run.desired_snapshot@)
    &&& run.repo_safety == safety_after(run.upstream_results@)
    &&& run.status == ReconcileRunStatus::Completed
    &&& run.completed_at_ms is Some
    &&& run.superseded_by is None
}

/// Whether all upstreams have their result.
pub open spec fn all_reconciled(state: RunState) -> bool {
    state.run.upstream_results@.len() == state.upstreams@.len()
}

impl RunSession {
    /// Whether the repository may be reconciled, and the run's stage is one that a run of it can
    /// come to.
    pub open spec fn wf(self) -> bool {
        let run_id = self.run_id@;
        &&& self.descriptor.mode == RepositoryMode::Authoritative
        &&& self.descriptor.lifecycle == RepositoryLifecycle::Ready
        &&& match self.stage {
            RunStage::Lock(stage) => !stage.over(),
            RunStage::Snapshot { .. } => true,
            RunStage::ReadMarker { state, .. } | RunStage::ReadStale { state, .. }
            | RunStage::WriteStale { state, .. } | RunStage::DropStale { state, .. }
            | RunStage::WriteMarker { state, .. } | RunStage::WriteStart { state }
            | RunStage::WriteProgress { state } => in_progress(self.descriptor, run_id, state),
            RunStage::Upstream { state, session } => {
                &&& in_progress(self.descriptor, run_id, state)
                &&& state.run.upstream_results@.len() < state.upstreams@.len()
                &&& session.upstream == state.upstreams@[state.run.upstream_results@.len() as int]
                &&& session.authority_model == self.descriptor.authority_model
                &&& session.desired@ == state.run.desired_snapshot@
                &&& session.wf()
            },
            RunStage::ListMarks { state } => {
                &&& in_progress(self.descriptor, run_id, state)
                &&& all_reconciled(state)
            },
            RunStage::WriteMark { state, plan, next } => {
                &&& in_progress(self.descriptor, run_id, state)
                &&& all_reconciled(state)
                &&& next < plan.write@.len()
            },
            RunStage::DropMark { state, plan, next } => {
                &&& in_progress(self.descriptor, run_id, state)
                &&& all_reconciled(state)
                &&& next < plan.delete@.len()
            },
            RunStage::WriteEnd { run } | RunStage::DropMarker { run } | RunStage::DropRequest {
                run,
            } => completed(self.descriptor, run_id, run),
            RunStage::Release(outcome) | RunStage::Finished(outcome) => outcome matches Ok(run)
                ==> completed(self.descriptor, run_id, run),
        }
    }

    /// Whether the run holds its lock.
    pub open spec fn holds_lock(self) -> bool {
        !(self.stage is Lock) && !(self.stage is Finished)
    }

    /// What can come of what the run asks for.
    pub open spec fn answered_by(self, event: RunEvent) -> bool {
        match self.stage {
            RunStage::Lock(stage) => event is Failed || (event is Lock && stage.answered_by(
                event->Lock_0,
            )),
            RunStage::Snapshot { .. } | RunStage::Upstream { .. } | RunStage::ListMarks { .. }
            | RunStage::DropMark { .. } => event is Git,
            RunStage::ReadMarker { .. } => event is Marker || event is Failed,
            RunStage::ReadStale { .. } => event is Record || event is Failed,
            RunStage::WriteStale { .. } | RunStage::WriteMarker { .. }
            | RunStage::WriteStart { .. } | RunStage::WriteProgress { .. }
            | RunStage::WriteMark { .. } | RunStage::WriteEnd { .. } => event is Done
                || event is Failed,
            RunStage::DropStale { .. } | RunStage::DropMarker { .. }
            | RunStage::DropRequest { .. } | RunStage::Release(_) => event is Done,
            RunStage::Finished(_) => false,
        }
    }
}

// ---------------------------------------------------------------------------
// What a run asks for

/// What a run asks for.
pub open spec fn asks(s: RunSession, action: RunAction) -> bool {
    match s.stage {
        RunStage::Lock(LockStage::Create) => action is CreateLock,
        RunStage::Lock(LockStage::Inspect) => action is ReadLock,
        RunStage::Lock(LockStage::Record { pid, acquired_at_ms }) => {
            &&& action matches RunAction::WriteLock(metadata)
            &&& metadata.repo_id@ == s.descriptor.repo_id@
            &&& metadata.run_id@ == s.run_id@
            &&& metadata.pid == pid
            &&& metadata.acquired_at_ms == acquired_at_ms
        },
        RunStage::Lock(_) | RunStage::Release(_) => action is RemoveLock,
        RunStage::Snapshot { .. } => {
            &&& action matches RunAction::Git { args }
            &&& texts(args@) == snapshot_args()
        },
        RunStage::ReadMarker { .. } => action is ReadMarker,
        RunStage::ReadStale { stale_run_id, .. } => {
            &&& action matches RunAction::ReadRecord { run_id }
            &&& run_id@ == stale_run_id@
        },
        RunStage::WriteStale { stale, .. } => {
            &&& action matches RunAction::WriteRecord(record)
            &&& *record == stale
        },
        RunStage::DropStale { .. } | RunStage::DropMarker { .. } => action is RemoveMarker,
        RunStage::WriteMarker { marker, .. } => {
            &&& action matches RunAction::WriteMarker(written)
            &&& *written == marker
        },
        RunStage::WriteStart { state } | RunStage::WriteProgress { state } => {
            &&& action matches RunAction::WriteRecord(record)
            &&& *record == state.run
        },
        RunStage::Upstream { session, .. } => {
            &&& action matches RunAction::Git { args }
            &&& texts(args@) == session.command_args()
        },
        RunStage::ListMarks { .. } => {
            &&& action matches RunAction::Git { args }
            &&& texts(args@) == marks_args()
        },
        RunStage::WriteMark { plan, next, .. } => {
            &&& action matches RunAction::StoreMark { ref_name, marker }
            &&& *ref_name == plan.write@[next as int].0
            &&& *marker == plan.write@[next as int].1
        },
        RunStage::DropMark { plan, next, .. } => {
            &&& action matches RunAction::Git { args }
            &&& texts(args@) == drop_args(plan, next as int)
        },
        RunStage::WriteEnd { run } => {
            &&& action matches RunAction::WriteRecord(record)
            &&& *record == run
        },
        RunStage::DropRequest { .. } => action is RemoveRequest,
        RunStage::Finished(_) => action is Finish,
    }
}

/// The arguments of the Git command that lists a repository's branches and tags.
pub open spec fn snapshot_args() -> Seq<Seq<char>> {
    seq!["for-each-ref"@, "--format=%(objectname) %(refname)"@, "refs/heads"@, "refs/tags"@]
}

/// The arguments of the Git command that lists a repository's divergence markers.
pub open spec fn marks_args() -> Seq<Seq<char>> {
    seq!["for-each-ref"@, "--format=%(refname) %(objectname)"@, "refs/git-relay/safety/divergent"@]
}

/// The arguments of the Git command that deletes a divergence marker.
pub open spec fn drop_args(plan: DivergencePlan, next: int) -> Seq<Seq<char>> {
    seq!["update-ref"@, "-d"@, plan.delete@[next]@]
}

fn drop_command(ref_name: &String) -> (r: Vec<String>)
    ensures
        texts(r@) == seq!["update-ref"@, "-d"@, ref_name@],
{
    let args = vec!["update-ref".to_owned(), "-d".to_owned(), ref_name.clone()];
    assert(texts(args@) =~= seq!["update-ref"@, "-d"@, ref_name@]);
    args
}

impl RunSession {
    /// What the run asks for next.
    pub fn action(&self) -> (r: RunAction<'_>)
        requires
            self.wf(),
        ensures
            asks(*self, r),
    {
        match &self.stage {
            RunStage::Lock(stage) => match stage {
                LockStage::Create => RunAction::CreateLock,
                LockStage::Inspect => RunAction::ReadLock,
                LockStage::Record { pid, acquired_at_ms } => RunAction::WriteLock(
                    LockMetadata {
                        repo_id: self.descriptor.repo_id.clone(),
                        run_id: self.run_id.clone(),
                        pid: *pid,
                        acquired_at_ms: *acquired_at_ms,
                    },
                ),
                _ => RunAction::RemoveLock,
            },
            RunStage::Release(_) => RunAction::RemoveLock,
            RunStage::Snapshot { .. } => RunAction::Git { args: list_local_refs_command() },
            RunStage::ReadMarker { .. } => RunAction::ReadMarker,
            RunStage::ReadStale { stale_run_id, .. } => RunAction::ReadRecord {
                run_id: stale_run_id,
            },
            RunStage::WriteStale { stale, .. } => RunAction::WriteRecord(stale),
            RunStage::DropStale { .. } => RunAction::RemoveMarker,
            RunStage::DropMarker { .. } => RunAction::RemoveMarker,
            RunStage::WriteMarker { marker, .. } => RunAction::WriteMarker(marker),
            RunStage::WriteStart { state } => RunAction::WriteRecord(&state.run),
            RunStage::WriteProgress { state } => RunAction::WriteRecord(&state.run),
            RunStage::Upstream { session, .. } => RunAction::Git { args: session.command() },
            RunStage::ListMarks { .. } => RunAction::Git {
                args: list_divergence_marker_refs_command(),
            },
            RunStage::WriteMark { plan, next, .. } => {
                let mark = &plan.write[*next];
                RunAction::StoreMark { ref_name: &mark.0, marker: &mark.1 }
            },
            RunStage::DropMark { plan, next, .. } => RunAction::Git {
                args: drop_command(&plan.delete[*next]),
            },
            RunStage::WriteEnd { run } => RunAction::WriteRecord(run),
            RunStage::DropRequest { .. } => RunAction::RemoveRequest,
            RunStage::Finished(_) => RunAction::Finish,
        }
    }
}

// ---------------------------------------------------------------------------
// Where a run goes

/// Whether a record is another with one more result.
pub open spec fn with_result(
    run: ReconcileRunRecord,
    result: ReconcileUpstreamResult,
    next: ReconcileRunRecord,
) -> bool {
    &&& next.upstream_results@ == run.upstream_results@.push(result)
    &&& next == (ReconcileRunRecord { upstream_results: next.upstream_results, ..run })
}

/// Whether a run goes on to its next upstream, or, where all have their result, to the divergence
/// markers.
pub open spec fn turns_to_next(
    descriptor: RepositoryDescriptor,
    state: RunState,
    next: RunStage,
) -> bool {
    if all_reconciled(state) {
        next == (RunStage::ListMarks { state })
    } else {
        &&& next matches RunStage::Upstream { state: kept, session }
        &&& kept == state
        &&& session.upstream == state.upstreams@[state.run.upstream_results@.len() as int]
        &&& session.authority_model == descriptor.authority_model
        &&& session.desired@ == state.run.desired_snapshot@
        &&& session.stage is ReadPrevious
    }
}

/// Whether a run goes on to the first divergence marker that is left to write or to delete, or,
/// where none is left, to its end.
pub open spec fn turns_to_marks(
    state: RunState,
    plan: DivergencePlan,
    written: int,
    deleted: int,
    now_ms: u128,
    next: RunStage,
) -> bool {
    if written < plan.write@.len() {
        next == (RunStage::WriteMark { state, plan, next: written as usize })
    } else if deleted < plan.delete@.len() {
        next == (RunStage::DropMark { state, plan, next: deleted as usize })
    } else {
        next == (RunStage::WriteEnd {
            run: ReconcileRunRecord {
                repo_safety: safety_after(state.run.upstream_results@),
                status: ReconcileRunStatus::Completed,
                completed_at_ms: Some(now_ms),
                ..state.run
            },
        })
    }
}

/// Whether a run gives its lock back over a Git command that failed.
pub open spec fn stops_over(args: Seq<Seq<char>>, reply: GitReply, next: RunStage) -> bool {
    next matches RunStage::Release(Err(e)) && command_failed(args, reply, e)
}

/// Where a run goes.
pub open spec fn follows(s: RunSession, event: RunEvent, next: RunStage) -> bool {
    match (s.stage, event) {
        (RunStage::Lock(_), RunEvent::Failed(error)) => next == RunStage::Finished(Err(error)),
        (RunStage::Lock(stage), RunEvent::Lock(event)) => match stage.next(
            s.lock_timeout_ms,
            event,
        ) {
            LockStage::Held { pid, since_ms } => next == (RunStage::Snapshot {
                pid,
                started_at_ms: since_ms,
            }),
            LockStage::Busy => next matches RunStage::Finished(
                Err(ReconcileError::RunInProgress { repo_id }),
            ) && repo_id@ == s.descriptor.repo_id@,
            stage => next == RunStage::Lock(stage),
        },
        (_, RunEvent::Failed(error)) => next == RunStage::Release(Err(error)),
        (RunStage::Snapshot { pid, started_at_ms }, RunEvent::Git { reply, .. }) => {
            if reply is Ran && reply->Ran_0.success {
                exists|listed: Result<Vec<RefSnapshotEntry>, ReconcileError>| #[trigger]
                    exported_refs_read(
                        reply->Ran_0.stdout@,
                        texts(s.descriptor.exported_refs@),
                        listed,
                    ) && match listed {
                        Ok(desired) => next matches RunStage::ReadMarker { pid: kept, state }
                            && kept == pid && state.upstreams@ == sorted(
                            s.descriptor.write_upstreams@,
                        ) && started(
                            s.descriptor,
                            s.run_id@,
                            started_at_ms,
                            desired@,
                            state.run,
                        ),
                        Err(error) => next == RunStage::Release(Err(error)),
                    }
            } else {
                stops_over(snapshot_args(), reply, next)
            }
        },
        (RunStage::ReadMarker { pid, state }, RunEvent::Marker(marker)) => match marker {
            Some(marker) => next == (RunStage::ReadStale {
                pid,
                state,
                stale_run_id: marker.run_id,
            }),
            None => marks_itself(s, pid, state, next),
        },
        (RunStage::ReadStale { pid, state, .. }, RunEvent::Record { record, now_ms }) => {
            if record is Some && record->0.status == ReconcileRunStatus::InProgress {
                &&& next matches RunStage::WriteStale { pid: kept_pid, state: kept, stale }
                &&& kept_pid == pid
                &&& kept == state
                &&& text_of(stale.superseded_by) == Some(s.run_id@)
                &&& stale == (ReconcileRunRecord {
                    status: ReconcileRunStatus::Superseded,
                    superseded_by: stale.superseded_by,
                    completed_at_ms: Some(now_ms),
                    ..record->0
                })
            } else {
                next == (RunStage::DropStale { pid, state })
            }
        },
        (RunStage::WriteStale { pid, state, .. }, _) => next == (RunStage::DropStale {
            pid,
            state,
        }),
        (RunStage::DropStale { pid, state }, _) => marks_itself(s, pid, state, next),
        (RunStage::WriteMarker { state, .. }, _) => next == (RunStage::WriteStart { state }),
        (RunStage::WriteStart { state }, _) => turns_to_next(s.descriptor, state, next),
        (RunStage::Upstream { state, session }, RunEvent::Git { reply, .. }) => {
            exists|progress: ReconcileProgress| #[trigger]
                session.advances_to(reply, progress) && match progress {
                    ReconcileProgress::Continue(session) => next == (RunStage::Upstream {
                        state,
                        session,
                    }),
                    ReconcileProgress::Done(result) => next matches RunStage::WriteProgress {
                        state: grown,
                    } && grown.upstreams == state.upstreams && with_result(
                        state.run,
                        result,
                        grown.run,
                    ),
                    ReconcileProgress::Failed(error) => next == RunStage::Release(Err(error)),
                }
        },
        (RunStage::WriteProgress { state }, _) => turns_to_next(s.descriptor, state, next),
        (RunStage::ListMarks { state }, RunEvent::Git { reply, now_ms }) => {
            if reply is Ran && reply->Ran_0.success {
                exists|listed: Result<Vec<RefSnapshotEntry>, ReconcileError>| #[trigger]
                    ref_targets_read(reply->Ran_0.stdout@, listed) && match listed {
                        Ok(existing) => exists|plan: DivergencePlan| #[trigger]
                            marked(
                                state.run.repo_id@,
                                state.run.run_id@,
                                state.run.upstream_results@,
                                existing@,
                                now_ms,
                                plan,
                            ) && turns_to_marks(state, plan, 0, 0, now_ms, next),
                        Err(error) => next == RunStage::Release(Err(error)),
                    }
            } else {
                stops_over(marks_args(), reply, next)
            }
        },
        (RunStage::WriteMark { state, plan, next: at }, RunEvent::Done { now_ms }) =>
            turns_to_marks(state, plan, at + 1, 0, now_ms, next),
        (RunStage::DropMark { state, plan, next: at }, RunEvent::Git { reply, now_ms }) => {
            if reply is Ran && (reply->Ran_0.success || holds(
                failure_text(reply->Ran_0),
                "not a valid ref"@,
            )) {
                turns_to_marks(state, plan, plan.write@.len() as int, at + 1, now_ms, next)
            } else {
                stops_over(drop_args(plan, at as int), reply, next)
            }
        },
        (RunStage::WriteEnd { run }, _) => next == (RunStage::DropMarker { run }),
        (RunStage::DropMarker { run }, _) => next == (RunStage::DropRequest { run }),
        (RunStage::DropRequest { run }, _) => next == RunStage::Release(Ok(run)),
        (RunStage::Release(outcome), _) => next == RunStage::Finished(outcome),
        _ => next == s.stage,
    }
}

/// Whether a run goes on to leave its own marker.
pub open spec fn marks_itself(s: RunSession, pid: u32, state: RunState, next: RunStage) -> bool {
    &&& next matches RunStage::WriteMarker { marker, state: kept }
    &&& kept == state
    &&& marker.repo_id@ == s.descriptor.repo_id@
    &&& marker.run_id@ == s.run_id@
    &&& marker.pid == pid
    &&& marker.started_at_ms == state.run.started_at_ms
}

fn mark_itself(descriptor: &RepositoryDescriptor, run_id: &String, pid: u32, state: RunState) -> (r:
    RunStage)
    ensures
        r matches RunStage::WriteMarker { marker, state: kept } && kept == state
            && marker.repo_id@ == descriptor.repo_id@ && marker.run_id@ == run_id@ && marker.pid
            == pid && marker.started_at_ms == state.run.started_at_ms,
{
    RunStage::WriteMarker {
        marker: InProgressMarker {
            repo_id: descriptor.repo_id.clone(),
            run_id: run_id.clone(),
            pid,
            started_at_ms: state.run.started_at_ms,
        },
        state,
    }
}

fn turn_to_next(descriptor: &RepositoryDescriptor, state: RunState) -> (r: RunStage)
    requires
        state.run.upstream_results@.len() <= state.upstreams@.len(),
    ensures
        turns_to_next(*descriptor, state, r),
{
    let at = state.run.upstream_results.len();
    if at < state.upstreams.len() {
        let session = ReconcileSession::new(
            copy_upstream(&state.upstreams[at]),
            descriptor.authority_model,
            copy_entries(&state.run.desired_snapshot),
        );
        RunStage::Upstream { state, session }
    } else {
        RunStage::ListMarks { state }
    }
}

fn turn_to_marks(
    state: RunState,
    plan: DivergencePlan,
    written: usize,
    deleted: usize,
    now_ms: u128,
) -> (r: RunStage)
    ensures
        turns_to_marks(state, plan, written as int, deleted as int, now_ms, r),
{
    if written < plan.write.len() {
        RunStage::WriteMark { state, plan, next: written }
    } else if deleted < plan.delete.len() {
        RunStage::DropMark { state, plan, next: deleted }
    } else {
        RunStage::WriteEnd { run: complete_run(state.run, now_ms) }
    }
}

fn take_snapshot(
    descriptor: &RepositoryDescriptor,
    run_id: &String,
    pid: u32,
    started_at_ms: u128,
    output: &GitProcessOutput,
) -> (r: RunStage)
    ensures
        exists|listed: Result<Vec<RefSnapshotEntry>, ReconcileError>| #[trigger]
            exported_refs_read(output.stdout@, texts(descriptor.exported_refs@), listed)
                && match listed {
                Ok(desired) => r matches RunStage::ReadMarker { pid: kept, state } && kept == pid
                    && state.upstreams@ == sorted(descriptor.write_upstreams@) && started(
                    *descriptor,
                    run_id@,
                    started_at_ms,
                    desired@,
                    state.run,
                ),
                Err(error) => r == RunStage::Release(Err(error)),
            },
{
    let listed = list_local_exported_refs(&output.stdout, &descriptor.exported_refs);
    let ghost read = listed;
    assert(exported_refs_read(output.stdout@, texts(descriptor.exported_refs@), read));
    match listed {
        Err(error) => RunStage::Release(Err(error)),
        Ok(desired) => {
            let upstreams = upstreams_by_name(descriptor);
            let run = start_run(descriptor, &upstreams, run_id, started_at_ms, desired);
            RunStage::ReadMarker { pid, state: RunState { run, upstreams } }
        },
    }
}

fn list_marks(state: RunState, output: &GitProcessOutput, now_ms: u128) -> (r: RunStage)
    ensures
        exists|listed: Result<Vec<RefSnapshotEntry>, ReconcileError>| #[trigger]
            ref_targets_read(output.stdout@, listed) && match listed {
                Ok(existing) => exists|plan: DivergencePlan| #[trigger]
                    marked(
                        state.run.repo_id@,
                        state.run.run_id@,
                        state.run.upstream_results@,
                        existing@,
                        now_ms,
                        plan,
                    ) && turns_to_marks(state, plan, 0, 0, now_ms, r),
                Err(error) => r == RunStage::Release(Err(error)),
            },
{
    let listed = parse_ref_targets(&output.stdout);
    let ghost read = listed;
    assert(ref_targets_read(output.stdout@, read));
    match listed {
        Err(error) => RunStage::Release(Err(error)),
        Ok(existing) => {
            let plan = persist_divergence_markers(
                &state.run.repo_id,
                &state.run.run_id,
                &state.run.upstream_results,
                &existing,
                now_ms,
            );
            turn_to_marks(state, plan, 0, 0, now_ms)
        },
    }
}

fn advance_upstream(state: RunState, session: ReconcileSession, reply: GitReply) -> (r: RunStage)
    requires
        session.wf(),
    ensures
        exists|progress: ReconcileProgress| #[trigger]
            session.advances_to(reply, progress) && match progress {
                ReconcileProgress::Continue(next) => r == (RunStage::Upstream {
                    state,
                    session: next,
                }),
                ReconcileProgress::Done(result) => r matches RunStage::WriteProgress {
                    state: grown,
                } && grown.upstreams == state.upstreams && with_result(
                    state.run,
                    result,
                    grown.run,
                ),
                ReconcileProgress::Failed(error) => r == RunStage::Release(Err(error)),
            },
{
    let progress = session.advance(reply);
    let ghost came = progress;
    assert(session.advances_to(reply, came));
    match progress {
        ReconcileProgress::Continue(next) => RunStage::Upstream { state, session: next },
        ReconcileProgress::Failed(error) => RunStage::Release(Err(error)),
        ReconcileProgress::Done(result) => {
            let mut state = state;
            state.run.upstream_results.push(result);
            RunStage::WriteProgress { state }
        },
    }
}

proof fn lemma_session_keeps(session: ReconcileSession, reply: GitReply, next: ReconcileProgress)
    requires
        session.wf(),
        session.advances_to(reply, next),
    ensures
        next matches ReconcileProgress::Continue(s) ==> session.same_but_stage(s) && s.wf(),
        next matches ReconcileProgress::Done(r) ==> warranted(
            r,
            session.upstream,
            session.desired@,
        ),
{
    law_pushes_are_warranted(session, reply, next);
}

proof fn lemma_upstream_keeps_wf(s: RunSession, event: RunEvent, next: RunSession)
    requires
        s.wf(),
        s.stage is Upstream,
        event is Git,
        follows(s, event, next.stage),
        next.descriptor == s.descriptor,
        next.run_id == s.run_id,
    ensures
        next.wf(),
{
    let state = s.stage->Upstream_state;
    let session = s.stage->session;
    let reply = event->reply;
    let progress = choose|progress: ReconcileProgress| #[trigger]
        session.advances_to(reply, progress) && match progress {
            ReconcileProgress::Continue(session) => next.stage == (RunStage::Upstream {
                state,
                session,
            }),
            ReconcileProgress::Done(result) => next.stage matches RunStage::WriteProgress {
                state: grown,
            } && grown.upstreams == state.upstreams && with_result(state.run, result, grown.run),
            ReconcileProgress::Failed(error) => next.stage == RunStage::Release(Err(error)),
        };
    lemma_session_keeps(session, reply, progress);
}

proof fn lemma_turn_keeps_wf(s: RunSession, state: RunState, next: RunSession)
    requires
        s.wf(),
        in_progress(s.descriptor, s.run_id@, state),
        turns_to_next(s.descriptor, state, next.stage),
        next.descriptor == s.descriptor,
        next.run_id == s.run_id,
    ensures
        next.wf(),
{
}

proof fn lemma_marks_keep_wf(
    s: RunSession,
    state: RunState,
    plan: DivergencePlan,
    written: int,
    deleted: int,
    now_ms: u128,
    next: RunSession,
)
    requires
        s.wf(),
        0 <= written,
        0 <= deleted,
        in_progress(s.descriptor, s.run_id@, state),
        all_reconciled(state),
        turns_to_marks(state, plan, written, deleted, now_ms, next.stage),
        next.descriptor == s.descriptor,
        next.run_id == s.run_id,
    ensures
        next.wf(),
{
    assert(plan.write.len() == plan.write@.len());
    assert(plan.delete.len() == plan.delete@.len());
}

/// What a run keeps, it keeps whatever comes of what it asks for.
proof fn lemma_follows_keeps_wf(s: RunSession, event: RunEvent, next: RunSession)
    requires
        s.wf(),
        s.answered_by(event),
        follows(s, event, next.stage),
        next.descriptor == s.descriptor,
        next.run_id == s.run_id,
    ensures
        next.wf(),
{
    if event is Failed {
        return;
    }
    match (s.stage, event) {
        (RunStage::Upstream { .. }, _) => {
            lemma_upstream_keeps_wf(s, event, next);
        },
        (RunStage::WriteStart { state }, _) | (RunStage::WriteProgress { state }, _) => {
            lemma_turn_keeps_wf(s, state, next);
        },
        (RunStage::Snapshot { .. }, _) => {
            order::lemma_sorted(s.descriptor.write_upstreams@);
        },
        (RunStage::ListMarks { state }, RunEvent::Git { reply, now_ms }) => {
        },
        (RunStage::WriteMark { state, plan, next: at }, RunEvent::Done { now_ms }) => {
            lemma_marks_keep_wf(s, state, plan, at + 1, 0, now_ms, next);
        },
        (RunStage::DropMark { state, plan, next: at }, RunEvent::Git { reply, now_ms }) => {
        },
        _ => {},
    }
}

impl RunSession {
    /// Takes what came of what the run asked for.
    pub fn advance(self, event: RunEvent) -> (r: RunSession)
        requires
            self.wf(),
            self.answered_by(event),
        ensures
            r.wf(),
            r.descriptor == self.descriptor,
            r.run_id == self.run_id,
            r.lock_timeout_ms == self.lock_timeout_ms,
            follows(self, event, r.stage),
    {
        let ghost before = self;
        let descriptor = self.descriptor;
        let run_id = self.run_id;
        let lock_timeout_ms = self.lock_timeout_ms;
        let stage = match (self.stage, event) {
            (RunStage::Lock(_), RunEvent::Failed(error)) => RunStage::Finished(Err(error)),
            (RunStage::Lock(stage), RunEvent::Lock(event)) => match stage.advance(
                lock_timeout_ms,
                event,
            ) {
                LockStage::Held { pid, since_ms } => RunStage::Snapshot {
                    pid,
                    started_at_ms: since_ms,
                },
                LockStage::Busy => RunStage::Finished(
                    Err(ReconcileError::RunInProgress { repo_id: descriptor.repo_id.clone() }),
                ),
                stage => RunStage::Lock(stage),
            },
            (_, RunEvent::Failed(error)) => RunStage::Release(Err(error)),
            (RunStage::Snapshot { pid, started_at_ms }, RunEvent::Git { reply, .. }) => {
                match expect_success(list_local_refs_command(), reply) {
                    Err(error) => RunStage::Release(Err(error)),
                    Ok(output) => take_snapshot(
                        &descriptor,
                        &run_id,
                        pid,
                        started_at_ms,
                        &output,
                    ),
                }
            },
            (RunStage::ReadMarker { pid, state }, RunEvent::Marker(marker)) => match marker {
                Some(marker) => RunStage::ReadStale { pid, state, stale_run_id: marker.run_id },
                None => mark_itself(&descriptor, &run_id, pid, state),
            },
            (RunStage::ReadStale { pid, state, .. }, RunEvent::Record { record, now_ms }) => {
                match record {
                    None => RunStage::DropStale { pid, state },
                    Some(record) => match supersede_stale_run(record, &run_id, now_ms) {
                        Some(stale) => RunStage::WriteStale { pid, state, stale },
                        None => RunStage::DropStale { pid, state },
                    },
                }
            },
            (RunStage::WriteStale { pid, state, .. }, _) => RunStage::DropStale { pid, state },
            (RunStage::DropStale { pid, state }, _) => mark_itself(
                &descriptor,
                &run_id,
                pid,
                state,
            ),
            (RunStage::WriteMarker { state, .. }, _) => RunStage::WriteStart { state },
            (RunStage::WriteStart { state }, _) => turn_to_next(&descriptor, state),
            (RunStage::Upstream { state, session }, RunEvent::Git { reply, .. }) =>
                advance_upstream(state, session, reply),
            (RunStage::WriteProgress { state }, _) => turn_to_next(&descriptor, state),
            (RunStage::ListMarks { state }, RunEvent::Git { reply, now_ms }) => {
                match expect_success(list_divergence_marker_refs_command(), reply) {
                    Err(error) => RunStage::Release(Err(error)),
                    Ok(output) => list_marks(state, &output, now_ms),
                }
            },
            (RunStage::WriteMark { state, plan, next }, RunEvent::Done { now_ms }) => {
                assert(next < plan.write.len());
                turn_to_marks(state, plan, next + 1, 0, now_ms)
            },
            (RunStage::DropMark { state, plan, next }, RunEvent::Git { reply, now_ms }) => {
                let args = drop_command(&plan.delete[next]);
                match reply {
                    GitReply::NotStarted { error } => RunStage::Release(
                        Err(ReconcileError::SpawnGit { args, error }),
                    ),
                    GitReply::Ran(output) => match delete_internal_ref(output) {
                        Err(error) => RunStage::Release(Err(error)),
                        Ok(_) => {
                            let written = plan.write.len();
                            assert(next < plan.delete.len());
                            turn_to_marks(state, plan, written, next + 1, now_ms)
                        },
                    },
                }
            },
            (RunStage::WriteEnd { run }, _) => RunStage::DropMarker { run },
            (RunStage::DropMarker { run }, _) => RunStage::DropRequest { run },
            (RunStage::DropRequest { run }, _) => RunStage::Release(Ok(run)),
            (RunStage::Release(outcome), _) => RunStage::Finished(outcome),
            (stage, _) => stage,
        };
        let next = RunSession { descriptor, run_id, lock_timeout_ms, stage };
        proof {
            lemma_follows_keeps_wf(before, event, next);
        }
        next
    }
}

/// A run of a repository that is to bring its upstreams to the repository's state, where the
/// repository may be reconciled.
pub fn reconcile_repository(
    descriptor: RepositoryDescriptor,
    run_id: String,
    lock_timeout_ms: u64,
) -> (r: Result<RunSession, ReconcileError>)
    ensures
        match r {
            Ok(s) => {
                &&& s.wf()
                &&& s.descriptor == descriptor
                &&& s.run_id == run_id
                &&& s.lock_timeout_ms == lock_timeout_ms
                &&& s.stage == RunStage::Lock(LockStage::Create)
            },
            Err(e) => reconcile_refused(descriptor, e),
        },
{
    match ensure_reconcile_ready(&descriptor) {
        Err(error) => Err(error),
        Ok(_) => Ok(
            RunSession {
                descriptor,
                run_id,
                lock_timeout_ms,
                stage: RunStage::Lock(LockStage::Create),
            },
        ),
    }
}

// ---------------------------------------------------------------------------
// What holds of every run

/// A run touches nothing but its lock before it holds the lock, holds it only once it has created
/// the lock and recorded itself in it, and holds it until it gives it back.
pub proof fn law_lock_is_held_throughout(s: RunSession, event: RunEvent, next: RunSession)
    requires
        s.wf(),
        s.answered_by(event),
        follows(s, event, next.stage),
        next.descriptor == s.descriptor,
        next.run_id == s.run_id,
    ensures
        forall|action: RunAction|
            !s.holds_lock() && #[trigger] asks(s, action) ==> action is CreateLock
                || action is ReadLock || action is RemoveLock || action is WriteLock
                || action is Finish,
        !s.holds_lock() && next.holds_lock() ==> s.stage is Lock && s.stage->Lock_0 is Record
            && event is Lock && event->Lock_0 is Recorded,
        s.holds_lock() && !next.holds_lock() ==> s.stage is Release && next.stage
            == RunStage::Finished(s.stage->Release_0),
        s.stage is Release ==> forall|action: RunAction| #[trigger]
            asks(s, action) ==> action is RemoveLock,
{
    lemma_follows_keeps_wf(s, event, next);
    if event is Git && s.stage is Upstream {
        lemma_upstream_keeps_wf(s, event, next);
    }
}

/// Once an upstream has its result, the run's record is written with it before anything else is
/// done.
pub proof fn law_results_are_recorded(s: RunSession, event: RunEvent, next: RunSession)
    requires
        s.wf(),
        s.answered_by(event),
        follows(s, event, next.stage),
        next.descriptor == s.descriptor,
        next.run_id == s.run_id,
        s.stage is Upstream,
        !(next.stage is Upstream),
        !(next.stage is Release),
    ensures
        forall|action: RunAction| #[trigger]
            asks(next, action) ==> {
                let results = s.stage->Upstream_state.run.upstream_results@;
                &&& action matches RunAction::WriteRecord(record)
                &&& record.upstream_results@.len() == results.len() + 1
                &&& record.upstream_results@.drop_last() == results
            },
{
    assert(next.stage is WriteProgress);
    let results = s.stage->Upstream_state.run.upstream_results@;
    let grown = next.stage->WriteProgress_state.run.upstream_results@;
    assert(grown.drop_last() =~= results);
}

/// A run drops its marker, and the request that it serves, only once the record of its completion
/// is written.
pub proof fn law_requests_are_dropped_when_served(s: RunSession, event: RunEvent, next: RunSession)
    requires
        s.wf(),
        s.answered_by(event),
        follows(s, event, next.stage),
        next.descriptor == s.descriptor,
        next.run_id == s.run_id,
    ensures
        next.stage matches RunStage::DropMarker { run } ==> s.stage == (RunStage::WriteEnd { run })
            && event is Done && completed(s.descriptor, s.run_id@, run),
        next.stage matches RunStage::DropRequest { run } ==> s.stage == (RunStage::DropMarker {
            run,
        }) && completed(s.descriptor, s.run_id@, run),
{
}

/// A run that ends well has one result for each upstream of its repository, in the order of their
/// names, and its record says so. Each upstream was pushed to only where that was called for.
pub proof fn law_successful_runs_are_complete(s: RunSession)
    requires
        s.wf(),
        s.stage matches RunStage::Finished(outcome) && outcome is Ok,
    ensures
        ({
            let run = s.stage->Finished_0->Ok_0;
            let upstreams = sorted(s.descriptor.write_upstreams@);
            &&& run.status == ReconcileRunStatus::Completed
            &&& run.upstream_results@.len() == upstreams.len()
            &&& forall|i: int|
                0 <= i < upstreams.len() ==> warranted(
                    #[trigger] run.upstream_results@[i],
                    upstreams[i],
                    run.desired_snapshot@,
                )
            &&& run.repo_safety == safety_after(run.upstream_results@)
        }),
{
}

/// What a run asks Git for: it lists the branches and tags, and nothing else, each with its object
/// before its name, and the divergence markers, each with its name first; it deletes markers of the
/// plan and nothing else.
pub proof fn law_commands_of_a_run(plan: DivergencePlan, next: int, upstream_id: Seq<char>)
    ensures
        snapshot_args() == seq![
            "for-each-ref"@,
            "--format=%(objectname) %(refname)"@,
            "refs/heads"@,
            "refs/tags"@,
        ],
        marks_args().len() == 3,
        marks_args()[0] == "for-each-ref"@,
        marks_args()[1] == "--format=%(refname) %(objectname)"@,
        crate::text::begins(
            crate::reconcile::divergence_ref(upstream_id),
            marks_args()[2] + seq!['/'],
        ),
        drop_args(plan, next) == seq!["update-ref"@, "-d"@, plan.delete@[next]@],
{
    reveal_strlit("refs/git-relay/safety/divergent");
    reveal_strlit("refs/git-relay/safety/divergent/");
    let lead = marks_args()[2] + seq!['/'];
    assert(lead =~= "refs/git-relay/safety/divergent/"@);
    let name = crate::reconcile::divergence_ref(upstream_id);
    assert(name.take(lead.len() as int) =~= lead);
}

/// An unfinished run that left its marker behind is closed before the new one starts: its record,
/// where it is still in progress, is written again as superseded by this run and completed now,
/// with everything else as it was, and then its marker goes.
pub proof fn law_unfinished_runs_are_superseded(s: RunSession, event: RunEvent, next: RunStage)
    requires
        follows(s, event, next),
        s.stage is ReadMarker || s.stage is ReadStale || s.stage is WriteStale || s.stage
            is DropStale,
        !(event is Failed),
    ensures
        s.stage is ReadMarker && event is Marker && event->Marker_0 is Some ==> next is ReadStale
            && next->ReadStale_stale_run_id == event->Marker_0->0.run_id,
        s.stage is ReadMarker && event is Marker && event->Marker_0 is None ==> next is WriteMarker,
        s.stage is ReadStale && event is Record && event->record is Some && event->record->0.status
            == ReconcileRunStatus::InProgress ==> {
            let old = event->record->0;
            &&& next is WriteStale
            &&& next->WriteStale_stale.status == ReconcileRunStatus::Superseded
            &&& next->WriteStale_stale.superseded_by is Some
            &&& next->WriteStale_stale.superseded_by->0@ == s.run_id@
            &&& next->WriteStale_stale.completed_at_ms == Some(event->Record_now_ms)
            &&& next->WriteStale_stale.run_id == old.run_id
            &&& next->WriteStale_stale.repo_id == old.repo_id
            &&& next->WriteStale_stale.upstream_results == old.upstream_results
            &&& next->WriteStale_stale.desired_snapshot == old.desired_snapshot
            &&& next->WriteStale_stale.started_at_ms == old.started_at_ms
        },
        s.stage is ReadStale && event is Record && !(event->record is Some
            && event->record->0.status == ReconcileRunStatus::InProgress) ==> next is DropStale,
        s.stage is WriteStale ==> next is DropStale,
        s.stage is DropStale ==> next is WriteMarker,
        next matches RunStage::WriteMarker { marker, state } ==> marker.repo_id@
            == s.descriptor.repo_id@ && marker.run_id@ == s.run_id@ && marker.started_at_ms
            == state.run.started_at_ms,
{
}

/// What cannot be done ends a run: it gives its lock back and tells why, with the error unchanged.
pub proof fn law_failures_end_a_run(s: RunSession, error: ReconcileError, next: RunStage)
    requires
        follows(s, RunEvent::Failed(error), next),
    ensures
        s.stage is Lock ==> next == RunStage::Finished(Err(error)),
        !(s.stage is Lock) ==> next == RunStage::Release(Err(error)),
{
}

/// A run reconciles every upstream: after the record is first written, and after each result, it
/// turns to the first upstream without a result, and to the divergence markers only where none is
/// left.
pub proof fn law_every_upstream_has_its_turn(
    s: RunSession,
    event: RunEvent,
    next: RunStage,
    state: RunState,
)
    requires
        follows(s, event, next),
        !(event is Failed),
        s.stage == (RunStage::WriteStart { state }) || s.stage == (RunStage::WriteProgress {
            state,
        }),
        state.run.upstream_results@.len() <= state.upstreams@.len(),
    ensures
        state.run.upstream_results@.len() < state.upstreams@.len() ==> {
            &&& next is Upstream
            &&& next->Upstream_session.upstream
                == state.upstreams@[state.run.upstream_results@.len() as int]
            &&& next->Upstream_session.desired@ == state.run.desired_snapshot@
            &&& next->Upstream_session.authority_model == s.descriptor.authority_model
            &&& next->Upstream_session.stage is ReadPrevious
        },
        state.run.upstream_results@.len() == state.upstreams@.len() ==> next is ListMarks,
{
}

/// A completed run says what its results say: it is divergent exactly where one of them is, and
/// healthy exactly where every upstream is in sync and none diverged; it is completed at the time
/// at which the last marker was seen to, and everything else of its record stays.
pub proof fn law_completed_runs_tell_their_results(
    state: RunState,
    plan: DivergencePlan,
    now_ms: u128,
    next: RunStage,
)
    requires
        turns_to_marks(
            state,
            plan,
            plan.write@.len() as int,
            plan.delete@.len() as int,
            now_ms,
            next,
        ),
    ensures
        next is WriteEnd,
        ({
            let run = next->WriteEnd_run;
            let results = state.run.upstream_results@;
            &&& run.status == ReconcileRunStatus::Completed
            &&& run.completed_at_ms == Some(now_ms)
            &&& run.upstream_results == state.run.upstream_results
            &&& run.run_id == state.run.run_id
            &&& run.repo_id == state.run.repo_id
            &&& run.desired_snapshot == state.run.desired_snapshot
            &&& run.started_at_ms == state.run.started_at_ms
            &&& run.repo_safety == RepositorySafetyState::Divergent <==> exists|i: int|
                0 <= i < results.len() && (#[trigger] results[i]).divergent
            &&& run.repo_safety == RepositorySafetyState::Healthy <==> forall|i: int|
                0 <= i < results.len() ==> (#[trigger] results[i]).state
                    == UpstreamConvergenceState::InSync && !results[i].divergent
        }),
{
    crate::reconcile::law_safety_after_a_run(state.run.upstream_results@);
}

/// Every marker of a plan is seen to: those to be written before those to be deleted, each in its
/// turn, and the run ends only after the last.
pub proof fn law_markers_are_seen_to(
    state: RunState,
    plan: DivergencePlan,
    written: int,
    deleted: int,
    now_ms: u128,
    next: RunStage,
)
    requires
        0 <= written <= plan.write@.len(),
        0 <= deleted <= plan.delete@.len(),
        plan.write@.len() <= usize::MAX,
        plan.delete@.len() <= usize::MAX,
        turns_to_marks(state, plan, written, deleted, now_ms, next),
    ensures
        written < plan.write@.len() ==> next is WriteMark && next->WriteMark_next == written
            && next->WriteMark_plan == plan,
        written == plan.write@.len() && deleted < plan.delete@.len() ==> next is DropMark
            && next->DropMark_next == deleted && next->DropMark_plan == plan,
        next is WriteEnd <==> written == plan.write@.len() && deleted == plan.delete@.len(),
{
}

/// A run lists the references of its repository once it holds the lock, and ends at once where
/// another run holds it. It goes on where the list could be read, and gives the lock back with the
/// error where a command that it needs fails. What came of an upstream is added to the record.
pub proof fn law_course_of_a_run(s: RunSession, event: RunEvent, next: RunStage)
    requires
        follows(s, event, next),
    ensures
        s.stage is Lock && event is Lock ==> {
            let lock = s.stage->Lock_0.next(s.lock_timeout_ms, event->Lock_0);
            &&& next is Snapshot <==> lock is Held
            &&& lock is Held ==> next->Snapshot_started_at_ms == lock->since_ms
            &&& next is Finished <==> lock is Busy
            &&& lock is Busy ==> next->Finished_0 is Err && next->Finished_0->Err_0
                is RunInProgress
        },
        s.stage is Snapshot && event is Git ==> {
            let reply = event->reply;
            let well = reply is Ran && reply->Ran_0.success;
            &&& next is ReadMarker || next is Release
            &&& !well ==> next is Release && next->Release_0 is Err
            &&& next is ReadMarker ==> well
            &&& next is Release ==> next->Release_0 is Err
        },
        s.stage is ListMarks && event is Git ==> {
            let reply = event->reply;
            let well = reply is Ran && reply->Ran_0.success;
            &&& !well ==> next is Release && next->Release_0 is Err
            &&& next is Release ==> next->Release_0 is Err
        },
        s.stage is Upstream && event is Git ==> {
            let before = s.stage->Upstream_state.run;
            &&& next is Upstream || next is WriteProgress || next is Release
            &&& next is Upstream ==> next->Upstream_state == s.stage->Upstream_state
            &&& next is WriteProgress ==> {
                let after = next->WriteProgress_state.run;
                &&& after.upstream_results@.len() == before.upstream_results@.len() + 1
                &&& after.upstream_results@.drop_last() == before.upstream_results@
                &&& after.run_id == before.run_id
                &&& after.desired_snapshot == before.desired_snapshot
                &&& after.status == before.status
            }
            &&& next is Release ==> next->Release_0 is Err
        },
        s.stage is WriteMarker && !(event is Failed) ==> next is WriteStart,
        s.stage is WriteEnd && !(event is Failed) ==> next == (RunStage::DropMarker {
            run: s.stage->WriteEnd_run,
        }),
        s.stage is DropMarker && !(event is Failed) ==> next == (RunStage::DropRequest {
            run: s.stage->DropMarker_run,
        }),
        s.stage is DropRequest && !(event is Failed) ==> next == RunStage::Release(
            Ok(s.stage->DropRequest_run),
        ),
        s.stage is Release && !(event is Failed) ==> next == RunStage::Finished(s.stage->Release_0),
{
    if next is WriteProgress && s.stage is Upstream && event is Git {
        let before = s.stage->Upstream_state.run.upstream_results@;
        let after = next->WriteProgress_state.run.upstream_results@;
        assert(after.drop_last() =~= before);
    }
}

} // verus!
