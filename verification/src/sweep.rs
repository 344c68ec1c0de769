//! The maintenance of one repository, step by step: its old records go, and then a cache that was
//! idle, or what an authoritative repository no longer reaches.

use crate::config::{AppConfig, RepositoryDescriptor, RepositoryLifecycle, RepositoryMode};
use crate::git::{GitProcessOutput, GitReply};
use crate::maintenance::{
    apply_authoritative_maintenance, approxidate, authoritative_maintenance_commands,
    authoritative_swept, cache_decided, cutoff, evicted_report, failed_report,
    law_pruning_keeps_newest, maintain_cache_repository, matrix_probe_run_directory, nothing_pruned, prunable,
    prune_json_records, reconcile_run_directory, record_dir, reports_failure, reports_loss,
    retained_because,    selected, selected_for_maintenance, unpersisted_report, upstream_probe_run_directory,
    AuthoritativeMaintenanceReport, CacheDecision, CacheMaintenanceOutcome, CacheMaintenanceReport,
    CacheRetentionStatus, MaintenanceError, RepoRetentionStatus, RepositoryMaintenanceReport,
    TerminalEvidencePruneReport, TerminalRecord,
};
use crate::order::sorted;
use crate::sanitize::path_component;
use crate::text::texts;
use vstd::prelude::*;

verus! {

/// The kinds of records that are pruned, in this order.
#[derive(Debug, Clone, Copy, PartialEq, Eq, Structural)]
pub enum RecordKind {
    ReconcileRuns,
    UpstreamProbeRuns,
    MatrixProbeRuns,
}

/// What a sweep has come to: when it started, and how many records it has removed.
#[derive(Debug)]
pub struct SweepState {
    pub started_at_ms: u128,
    pub pruned: TerminalEvidencePruneReport,
}

/// How far a sweep has come: what it waits for, and what it needs afterwards.
#[derive(Debug)]
pub enum SweepStage {
    /// The time.
    Start,
    /// Reading the records of a kind.
    ReadRecords { state: SweepState, kind: RecordKind },
    /// Removing a record.
    RemoveRecord { state: SweepState, kind: RecordKind, paths: Vec<String>, next: usize },
    /// Looking at the cache.
    CacheStatus { state: SweepState },
    /// Evicting the cache.
    Evict { state: SweepState },
    /// Looking whether the authoritative repository exists.
    FindRepository { state: SweepState },
    /// Expiring its reflogs.
    Expire { state: SweepState },
    /// Collecting what it no longer reaches.
    Collect { state: SweepState, expire: GitProcessOutput },
    /// Keeping the report.
    Persist(RepositoryMaintenanceReport),
    /// Nothing: the sweep is over.
    Finished(RepositoryMaintenanceReport),
}

/// What came of what a sweep asked for, by a time.
#[derive(Debug)]
pub enum SweepEvent {
    Started { now_ms: u128 },
    Records { records: Vec<TerminalRecord>, now_ms: u128 },
    Done { now_ms: u128 },
    CacheStatus { status: CacheRetentionStatus, now_ms: u128 },
    /// The cache was evicted; what is known of it afterwards.
    Evicted { status: CacheRetentionStatus, removed_visible_ref_count: usize, now_ms: u128 },
    Found { repo_exists: bool, now_ms: u128 },
    Git { reply: GitReply, now_ms: u128 },
    Failed { error: MaintenanceError, now_ms: u128 },
}

/// What a sweep asks for.
#[derive(Debug)]
pub enum SweepAction<'a> {
    ReadTime,
    ReadRecords { directory: String },
    RemoveFile { path: &'a String },
    ReadCacheStatus,
    EvictCache,
    FindRepository,
    Git { args: Vec<String> },
    WriteReport(&'a RepositoryMaintenanceReport),
    Finish,
}

/// A sweep under way.
#[derive(Debug)]
pub struct SweepSession {
    pub descriptor: RepositoryDescriptor,
    pub stage: SweepStage,
}

impl SweepSession {
    /// Whether the stage is one that a sweep of the repository can come to: only caches are
    /// evicted, and only authoritative repositories are collected.
    pub open spec fn wf(self) -> bool {
        match self.stage {
            SweepStage::RemoveRecord { paths, next, .. } => next < paths@.len(),
            SweepStage::CacheStatus { .. } | SweepStage::Evict { .. } => self.descriptor.mode
                == RepositoryMode::CacheOnly,
            SweepStage::FindRepository { .. } | SweepStage::Expire { .. } => self.descriptor.mode
                == RepositoryMode::Authoritative,
            SweepStage::Collect { expire, .. } => self.descriptor.mode
                == RepositoryMode::Authoritative && expire.success,
            SweepStage::Persist(report) | SweepStage::Finished(report) => report.repo_id@
                == self.descriptor.repo_id@ && report.repo_mode == self.descriptor.mode,
            _ => true,
        }
    }

    /// What can come of what the sweep asks for.
    pub open spec fn answered_by(self, event: SweepEvent) -> bool {
        match self.stage {
            SweepStage::Start => event is Started,
            SweepStage::ReadRecords { .. } => event is Records || event is Failed,
            SweepStage::RemoveRecord { .. } => event is Done || event is Failed,
            SweepStage::CacheStatus { .. } => event is CacheStatus || event is Failed,
            SweepStage::Evict { .. } => event is Evicted || event is Failed,
            SweepStage::FindRepository { .. } => event is Found,
            SweepStage::Expire { .. } | SweepStage::Collect { .. } => event is Git,
            SweepStage::Persist(_) => event is Done || event is Failed,
            SweepStage::Finished(_) => false,
        }
    }
}

// ---------------------------------------------------------------------------
// What a sweep asks for

/// The directory of the records of a kind.
pub open spec fn kind_dir(state_root: Seq<char>, kind: RecordKind, repo_id: Seq<char>) -> Seq<char> {
    match kind {
        RecordKind::ReconcileRuns => record_dir(state_root, "reconcile"@, "runs"@, repo_id),
        RecordKind::UpstreamProbeRuns => record_dir(
            state_root,
            "upstream-probes"@,
            "runs"@,
            repo_id,
        ),
        RecordKind::MatrixProbeRuns => record_dir(
            state_root,
            "upstream-probes"@,
            "matrix-runs"@,
            repo_id,
        ),
    }
}

/// The arguments of the Git command that expires reflogs.
pub open spec fn expire_args(config: AppConfig) -> Seq<Seq<char>> {
    seq![
        "reflog"@,
        "expire"@,
        "--expire="@ + approxidate(config.retention.authoritative_reflog_ttl.0.0 as nat),
        "--expire-unreachable="@ + approxidate(config.retention.authoritative_prune_ttl.0.0 as nat),
        "--all"@,
    ]
}

/// The arguments of the Git command that collects what is not reached.
pub open spec fn collect_args(config: AppConfig) -> Seq<Seq<char>> {
    seq![
        "gc"@,
        "--prune="@ + approxidate(config.retention.authoritative_prune_ttl.0.0 as nat),
    ]
}

/// What a sweep asks for.
pub open spec fn asks(config: AppConfig, s: SweepSession, action: SweepAction) -> bool {
    match s.stage {
        SweepStage::Start => action is ReadTime,
        SweepStage::ReadRecords { kind, .. } => {
            &&& action matches SweepAction::ReadRecords { directory }
            &&& directory@ == kind_dir(config.paths.state_root@, kind, s.descriptor.repo_id@)
        },
        SweepStage::RemoveRecord { paths, next, .. } => {
            &&& action matches SweepAction::RemoveFile { path }
            &&& *path == paths@[next as int]
        },
        SweepStage::CacheStatus { .. } => action is ReadCacheStatus,
        SweepStage::Evict { .. } => action is EvictCache,
        SweepStage::FindRepository { .. } => action is FindRepository,
        SweepStage::Expire { .. } => {
            &&& action matches SweepAction::Git { args }
            &&& texts(args@) == expire_args(config)
        },
        SweepStage::Collect { .. } => {
            &&& action matches SweepAction::Git { args }
            &&& texts(args@) == collect_args(config)
        },
        SweepStage::Persist(report) => {
            &&& action matches SweepAction::WriteReport(written)
            &&& *written == report
        },
        SweepStage::Finished(_) => action is Finish,
    }
}

impl SweepSession {
    /// What the sweep asks for next.
    pub fn action(&self, config: &AppConfig) -> (r: SweepAction<'_>)
        requires
            self.wf(),
        ensures
            asks(*config, *self, r),
    {
        let state_root = &config.paths.state_root;
        let repo_id = &self.descriptor.repo_id;
        match &self.stage {
            SweepStage::Start => SweepAction::ReadTime,
            SweepStage::ReadRecords { kind, .. } => SweepAction::ReadRecords {
                directory: match kind {
                    RecordKind::ReconcileRuns => reconcile_run_directory(state_root, repo_id),
                    RecordKind::UpstreamProbeRuns => upstream_probe_run_directory(
                        state_root,
                        repo_id,
                    ),
                    RecordKind::MatrixProbeRuns => matrix_probe_run_directory(state_root, repo_id),
                },
            },
            SweepStage::RemoveRecord { paths, next, .. } => SweepAction::RemoveFile {
                path: &paths[*next],
            },
            SweepStage::CacheStatus { .. } => SweepAction::ReadCacheStatus,
            SweepStage::Evict { .. } => SweepAction::EvictCache,
            SweepStage::FindRepository { .. } => SweepAction::FindRepository,
            SweepStage::Expire { .. } => SweepAction::Git {
                args: authoritative_maintenance_commands(config).0,
            },
            SweepStage::Collect { .. } => SweepAction::Git {
                args: authoritative_maintenance_commands(config).1,
            },
            SweepStage::Persist(report) => SweepAction::WriteReport(report),
            SweepStage::Finished(_) => SweepAction::Finish,
        }
    }
}

// ---------------------------------------------------------------------------
// Where a sweep goes

/// The counts with those of a kind set.
pub open spec fn with_count(
    pruned: TerminalEvidencePruneReport,
    kind: RecordKind,
    count: usize,
) -> TerminalEvidencePruneReport {
    match kind {
        RecordKind::ReconcileRuns => TerminalEvidencePruneReport {
            reconcile_runs_removed: count,
            ..pruned
        },
        RecordKind::UpstreamProbeRuns => TerminalEvidencePruneReport {
            upstream_probe_runs_removed: count,
            ..pruned
        },
        RecordKind::MatrixProbeRuns => TerminalEvidencePruneReport {
            matrix_probe_runs_removed: count,
            ..pruned
        },
    }
}

/// Where a sweep goes once the records of a kind are pruned: to the next kind, and after the last
/// to the repository itself.
pub open spec fn after_kind(
    descriptor: RepositoryDescriptor,
    state: SweepState,
    kind: RecordKind,
    count: usize,
) -> SweepStage {
    let state = SweepState {
        started_at_ms: state.started_at_ms,
        pruned: with_count(state.pruned, kind, count),
    };
    match kind {
        RecordKind::ReconcileRuns => SweepStage::ReadRecords {
            state,
            kind: RecordKind::UpstreamProbeRuns,
        },
        RecordKind::UpstreamProbeRuns => SweepStage::ReadRecords {
            state,
            kind: RecordKind::MatrixProbeRuns,
        },
        RecordKind::MatrixProbeRuns => match descriptor.mode {
            RepositoryMode::CacheOnly => SweepStage::CacheStatus { state },
            RepositoryMode::Authoritative => SweepStage::FindRepository { state },
        },
    }
}

/// Whether a sweep ends with the report of its success.
pub open spec fn ends_well(
    descriptor: RepositoryDescriptor,
    state: SweepState,
    cache: Option<CacheMaintenanceReport>,
    authoritative: Option<AuthoritativeMaintenanceReport>,
    now_ms: u128,
    next: SweepStage,
) -> bool {
    &&& next matches SweepStage::Persist(report)
    &&& report.repo_id@ == descriptor.repo_id@
    &&& report.repo_path@ == descriptor.repo_path@
    &&& report.repo_mode == descriptor.mode
    &&& report.started_at_ms == state.started_at_ms
    &&& report.completed_at_ms == now_ms
    &&& report.evidence_pruned == state.pruned
    &&& report.cache == cache
    &&& report.authoritative == authoritative
    &&& report.error is None
}

/// Whether a sweep ends with the report of its failure.
pub open spec fn ends_badly(
    descriptor: RepositoryDescriptor,
    error: MaintenanceError,
    now_ms: u128,
    next: SweepStage,
) -> bool {
    next matches SweepStage::Persist(report) && reports_failure(
        descriptor,
        error,
        now_ms,
        now_ms,
        report,
    )
}

/// What a Git command that was not started is reported as.
pub open spec fn not_started(args: Seq<Seq<char>>, error: String, e: MaintenanceError) -> bool {
    e matches MaintenanceError::SpawnGit { args: said_args, error: said } && texts(said_args@)
        == args && said == error
}

/// Where a sweep goes.
pub open spec fn follows(
    config: AppConfig,
    s: SweepSession,
    event: SweepEvent,
    next: SweepStage,
) -> bool {
    let descriptor = s.descriptor;
    match (s.stage, event) {
        (SweepStage::Start, SweepEvent::Started { now_ms }) => next == (SweepStage::ReadRecords {
            state: SweepState { started_at_ms: now_ms, pruned: nothing_pruned() },
            kind: RecordKind::ReconcileRuns,
        }),
        (SweepStage::Persist(report), SweepEvent::Failed { error, .. }) => next
            matches SweepStage::Finished(lost) && reports_loss(report, error, lost),
        (SweepStage::Persist(report), _) => next == SweepStage::Finished(report),
        (_, SweepEvent::Failed { error, now_ms }) => ends_badly(descriptor, error, now_ms, next),
        (SweepStage::ReadRecords { state, kind }, SweepEvent::Records { records, .. }) => {
            let gone = prunable(
                sorted(records@),
                config.retention.terminal_run_keep_count as nat,
                cutoff(state.started_at_ms, config.retention.terminal_run_ttl),
                records@.len() as int,
            );
            if gone.len() == 0 {
                next == after_kind(descriptor, state, kind, 0)
            } else {
                &&& next matches SweepStage::RemoveRecord { state: kept, kind: same, paths, next: at }
                &&& kept == state
                &&& same == kind
                &&& texts(paths@) == gone
                &&& at == 0
            }
        },
        (SweepStage::RemoveRecord { state, kind, paths, next: at }, SweepEvent::Done { .. }) => {
            if at + 1 < paths@.len() {
                next == (SweepStage::RemoveRecord { state, kind, paths, next: (at + 1) as usize })
            } else {
                next == after_kind(descriptor, state, kind, (at + 1) as usize)
            }
        },
        (SweepStage::CacheStatus { state }, SweepEvent::CacheStatus { status, now_ms }) => {
            exists|decision: Result<CacheDecision, MaintenanceError>| #[trigger]
                cache_decided(config, descriptor, status, state.started_at_ms, decision)
                    && match decision {
                    Err(error) => ends_badly(descriptor, error, now_ms, next),
                    Ok(CacheDecision::Retain(report)) => ends_well(
                        descriptor,
                        state,
                        Some(report),
                        None,
                        now_ms,
                        next,
                    ),
                    Ok(CacheDecision::Evict) => next == (SweepStage::Evict { state }),
                }
        },
        (
            SweepStage::Evict { state },
            SweepEvent::Evicted { status, removed_visible_ref_count, now_ms },
        ) => ends_well(
            descriptor,
            state,
            Some(
                CacheMaintenanceReport {
                    outcome: CacheMaintenanceOutcome::Evicted,
                    pinned: status.pinned,
                    repo_accessible: status.repo_accessible,
                    has_visible_refs: status.has_visible_refs,
                    last_activity_at_ms: status.last_activity_at_ms,
                    removed_visible_ref_count,
                },
            ),
            None,
            now_ms,
            next,
        ),
        (SweepStage::FindRepository { state }, SweepEvent::Found { repo_exists, now_ms }) => {
            if repo_exists {
                next == (SweepStage::Expire { state })
            } else {
                exists|error: MaintenanceError| #[trigger]
                    authoritative_swept(config, descriptor, false, None, None, Err(error))
                        && ends_badly(descriptor, error, now_ms, next)
            }
        },
        (SweepStage::Expire { state }, SweepEvent::Git { reply, now_ms }) => match reply {
            GitReply::NotStarted { error: said } => exists|error: MaintenanceError| #[trigger]
                not_started(expire_args(config), said, error) && ends_badly(
                    descriptor,
                    error,
                    now_ms,
                    next,
                ),
            GitReply::Ran(output) => if output.success {
                next == (SweepStage::Collect { state, expire: output })
            } else {
                exists|error: MaintenanceError| #[trigger]
                    authoritative_swept(config, descriptor, true, Some(output), None, Err(error))
                        && ends_badly(descriptor, error, now_ms, next)
            },
        },
        (SweepStage::Collect { state, expire }, SweepEvent::Git { reply, now_ms }) => match reply {
            GitReply::NotStarted { error: said } => exists|error: MaintenanceError| #[trigger]
                not_started(collect_args(config), said, error) && ends_badly(
                    descriptor,
                    error,
                    now_ms,
                    next,
                ),
            GitReply::Ran(output) => exists|
                swept: Result<AuthoritativeMaintenanceReport, MaintenanceError>,
            | #[trigger]
                authoritative_swept(config, descriptor, true, Some(expire), Some(output), swept)
                    && match swept {
                    Ok(report) => ends_well(
                        descriptor,
                        state,
                        None,
                        Some(report),
                        now_ms,
                        next,
                    ),
                    Err(error) => ends_badly(descriptor, error, now_ms, next),
                },
        },
        _ => next == s.stage,
    }
}

fn end_well(
    descriptor: &RepositoryDescriptor,
    state: SweepState,
    cache: Option<CacheMaintenanceReport>,
    authoritative: Option<AuthoritativeMaintenanceReport>,
    now_ms: u128,
) -> (r: SweepStage)
    ensures
        ends_well(*descriptor, state, cache, authoritative, now_ms, r),
{
    SweepStage::Persist(
        RepositoryMaintenanceReport {
            repo_id: descriptor.repo_id.clone(),
            repo_path: descriptor.repo_path.clone(),
            repo_mode: descriptor.mode,
            started_at_ms: state.started_at_ms,
            completed_at_ms: now_ms,
            evidence_pruned: state.pruned,
            cache,
            authoritative,
            error: None,
        },
    )
}

fn end_badly(descriptor: &RepositoryDescriptor, error: &MaintenanceError, now_ms: u128) -> (r:
    SweepStage)
    ensures
        ends_badly(*descriptor, *error, now_ms, r),
{
    SweepStage::Persist(failed_report(descriptor, error, now_ms, now_ms))
}

fn finish_kind(
    descriptor: &RepositoryDescriptor,
    state: SweepState,
    kind: RecordKind,
    count: usize,
) -> (r: SweepStage)
    ensures
        r == after_kind(*descriptor, state, kind, count),
{
    let mut state = state;
    match kind {
        RecordKind::ReconcileRuns => {
            state.pruned.reconcile_runs_removed = count;
            SweepStage::ReadRecords { state, kind: RecordKind::UpstreamProbeRuns }
        },
        RecordKind::UpstreamProbeRuns => {
            state.pruned.upstream_probe_runs_removed = count;
            SweepStage::ReadRecords { state, kind: RecordKind::MatrixProbeRuns }
        },
        RecordKind::MatrixProbeRuns => {
            state.pruned.matrix_probe_runs_removed = count;
            match descriptor.mode {
                RepositoryMode::CacheOnly => SweepStage::CacheStatus { state },
                RepositoryMode::Authoritative => SweepStage::FindRepository { state },
            }
        },
    }
}

fn prune_kind(
    config: &AppConfig,
    descriptor: &RepositoryDescriptor,
    state: SweepState,
    kind: RecordKind,
    records: Vec<TerminalRecord>,
) -> (r: SweepStage)
    ensures
        ({
            let gone = prunable(
                sorted(records@),
                config.retention.terminal_run_keep_count as nat,
                cutoff(state.started_at_ms, config.retention.terminal_run_ttl),
                records@.len() as int,
            );
            if gone.len() == 0 {
                r == after_kind(*descriptor, state, kind, 0)
            } else {
                &&& r matches SweepStage::RemoveRecord { state: kept, kind: same, paths, next }
                &&& kept == state
                &&& same == kind
                &&& texts(paths@) == gone
                &&& next == 0
            }
        }),
{
    let paths = prune_json_records(
        records,
        config.retention.terminal_run_keep_count,
        config.retention.terminal_run_ttl,
        state.started_at_ms,
    );
    assert(texts(paths@).len() == paths@.len());
    if paths.len() == 0 {
        finish_kind(descriptor, state, kind, 0)
    } else {
        SweepStage::RemoveRecord { state, kind, paths, next: 0 }
    }
}

fn decide_cache(
    config: &AppConfig,
    descriptor: &RepositoryDescriptor,
    state: SweepState,
    status: &CacheRetentionStatus,
    now_ms: u128,
) -> (r: SweepStage)
    ensures
        exists|decision: Result<CacheDecision, MaintenanceError>| #[trigger]
            cache_decided(*config, *descriptor, *status, state.started_at_ms, decision)
                && match decision {
                Err(error) => ends_badly(*descriptor, error, now_ms, r),
                Ok(CacheDecision::Retain(report)) => ends_well(
                    *descriptor,
                    state,
                    Some(report),
                    None,
                    now_ms,
                    r,
                ),
                Ok(CacheDecision::Evict) => r == (SweepStage::Evict { state }),
            },
{
    let decision = maintain_cache_repository(config, descriptor, status, state.started_at_ms);
    let ghost decided = decision;
    assert(cache_decided(*config, *descriptor, *status, state.started_at_ms, decided));
    match decision {
        Err(error) => end_badly(descriptor, &error, now_ms),
        Ok(CacheDecision::Retain(report)) => end_well(
            descriptor,
            state,
            Some(report),
            None,
            now_ms,
        ),
        Ok(CacheDecision::Evict) => SweepStage::Evict { state },
    }
}

fn take_expire(
    config: &AppConfig,
    descriptor: &RepositoryDescriptor,
    state: SweepState,
    reply: GitReply,
    now_ms: u128,
) -> (r: SweepStage)
    ensures
        match reply {
            GitReply::NotStarted { error: said } => exists|error: MaintenanceError| #[trigger]
                not_started(expire_args(*config), said, error) && ends_badly(
                    *descriptor,
                    error,
                    now_ms,
                    r,
                ),
            GitReply::Ran(output) => if output.success {
                r == (SweepStage::Collect { state, expire: output })
            } else {
                exists|error: MaintenanceError| #[trigger]
                    authoritative_swept(*config, *descriptor, true, Some(output), None, Err(error))
                        && ends_badly(*descriptor, error, now_ms, r)
            },
        },
{
    match reply {
        GitReply::NotStarted { error: said } => {
            let args = authoritative_maintenance_commands(config).0;
            let error = MaintenanceError::SpawnGit { args, error: said };
            assert(not_started(expire_args(*config), said, error));
            end_badly(descriptor, &error, now_ms)
        },
        GitReply::Ran(output) => {
            if output.success {
                SweepStage::Collect { state, expire: output }
            } else {
                let swept = apply_authoritative_maintenance(
                    config,
                    descriptor,
                    true,
                    Some(output),
                    None,
                );
                match swept {
                    Err(error) => end_badly(descriptor, &error, now_ms),
                    Ok(_) => SweepStage::Expire { state },
                }
            }
        },
    }
}

fn take_collect(
    config: &AppConfig,
    descriptor: &RepositoryDescriptor,
    state: SweepState,
    expire: GitProcessOutput,
    reply: GitReply,
    now_ms: u128,
) -> (r: SweepStage)
    requires
        expire.success,
    ensures
        match reply {
            GitReply::NotStarted { error: said } => exists|error: MaintenanceError| #[trigger]
                not_started(collect_args(*config), said, error) && ends_badly(
                    *descriptor,
                    error,
                    now_ms,
                    r,
                ),
            GitReply::Ran(output) => exists|
                swept: Result<AuthoritativeMaintenanceReport, MaintenanceError>,
            | #[trigger]
                authoritative_swept(*config, *descriptor, true, Some(expire), Some(output), swept)
                    && match swept {
                    Ok(report) => ends_well(*descriptor, state, None, Some(report), now_ms, r),
                    Err(error) => ends_badly(*descriptor, error, now_ms, r),
                },
        },
{
    match reply {
        GitReply::NotStarted { error: said } => {
            let args = authoritative_maintenance_commands(config).1;
            let error = MaintenanceError::SpawnGit { args, error: said };
            assert(not_started(collect_args(*config), said, error));
            end_badly(descriptor, &error, now_ms)
        },
        GitReply::Ran(output) => {
            let ghost printed = output;
            let swept = apply_authoritative_maintenance(
                config,
                descriptor,
                true,
                Some(expire),
                Some(output),
            );
            let ghost came = swept;
            assert(authoritative_swept(
                *config,
                *descriptor,
                true,
                Some(expire),
                Some(printed),
                came,
            ));
            match swept {
                Ok(report) => end_well(descriptor, state, None, Some(report), now_ms),
                Err(error) => end_badly(descriptor, &error, now_ms),
            }
        },
    }
}

fn take_found(
    config: &AppConfig,
    descriptor: &RepositoryDescriptor,
    state: SweepState,
    repo_exists: bool,
    now_ms: u128,
) -> (r: SweepStage)
    ensures
        if repo_exists {
            r == (SweepStage::Expire { state })
        } else {
            exists|error: MaintenanceError| #[trigger]
                authoritative_swept(*config, *descriptor, false, None, None, Err(error))
                    && ends_badly(*descriptor, error, now_ms, r)
        },
{
    if repo_exists {
        return SweepStage::Expire { state };
    }
    match apply_authoritative_maintenance(config, descriptor, false, None, None) {
        Err(error) => end_badly(descriptor, &error, now_ms),
        Ok(_) => SweepStage::Expire { state },
    }
}

impl SweepSession {
    /// Takes what came of what the sweep asked for.
    pub fn advance(self, config: &AppConfig, event: SweepEvent) -> (r: SweepSession)
        requires
            self.wf(),
            self.answered_by(event),
        ensures
            r.wf(),
            r.descriptor == self.descriptor,
            follows(*config, self, event, r.stage),
    {
        let descriptor = self.descriptor;
        let stage = match (self.stage, event) {
            (SweepStage::Start, SweepEvent::Started { now_ms }) => SweepStage::ReadRecords {
                state: SweepState {
                    started_at_ms: now_ms,
                    pruned: TerminalEvidencePruneReport {
                        reconcile_runs_removed: 0,
                        upstream_probe_runs_removed: 0,
                        matrix_probe_runs_removed: 0,
                    },
                },
                kind: RecordKind::ReconcileRuns,
            },
            (SweepStage::Persist(report), SweepEvent::Failed { error, .. }) => SweepStage::Finished(
                unpersisted_report(report, &error),
            ),
            (SweepStage::Persist(report), _) => SweepStage::Finished(report),
            (_, SweepEvent::Failed { error, now_ms }) => end_badly(&descriptor, &error, now_ms),
            (SweepStage::ReadRecords { state, kind }, SweepEvent::Records { records, .. }) =>
                prune_kind(config, &descriptor, state, kind, records),
            (SweepStage::RemoveRecord { state, kind, paths, next }, SweepEvent::Done { .. }) => {
                assert(next < paths.len());
                if next + 1 < paths.len() {
                    SweepStage::RemoveRecord { state, kind, paths, next: next + 1 }
                } else {
                    finish_kind(&descriptor, state, kind, next + 1)
                }
            },
            (SweepStage::CacheStatus { state }, SweepEvent::CacheStatus { status, now_ms }) =>
                decide_cache(config, &descriptor, state, &status, now_ms),
            (
                SweepStage::Evict { state },
                SweepEvent::Evicted { status, removed_visible_ref_count, now_ms },
            ) => {
                let cache = evicted_report(&status, removed_visible_ref_count);
                end_well(&descriptor, state, Some(cache), None, now_ms)
            },
            (SweepStage::FindRepository { state }, SweepEvent::Found { repo_exists, now_ms }) =>
                take_found(config, &descriptor, state, repo_exists, now_ms),
            (SweepStage::Expire { state }, SweepEvent::Git { reply, now_ms }) => take_expire(
                config,
                &descriptor,
                state,
                reply,
                now_ms,
            ),
            (SweepStage::Collect { state, expire }, SweepEvent::Git { reply, now_ms }) =>
                take_collect(config, &descriptor, state, expire, reply, now_ms),
            (stage, _) => stage,
        };
        SweepSession { descriptor, stage }
    }
}

/// The repositories that are swept, in their order.
pub open spec fn swept_repositories(
    descriptors: Seq<RepositoryDescriptor>,
    statuses: Seq<Option<RepoRetentionStatus>>,
    n: int,
) -> Seq<RepositoryDescriptor>
    decreases n,
{
    if n <= 0 {
        Seq::empty()
    } else if selected(descriptors[n - 1], statuses[n - 1]) {
        swept_repositories(descriptors, statuses, n - 1).push(descriptors[n - 1])
    } else {
        swept_repositories(descriptors, statuses, n - 1)
    }
}

/// The sweeps of the repositories that are ready and due. `statuses` holds what is known of each
/// repository's maintenance.
pub fn run_retention_maintenance(
    descriptors: Vec<RepositoryDescriptor>,
    statuses: &Vec<Option<RepoRetentionStatus>>,
) -> (r: Vec<SweepSession>)
    requires
        statuses@.len() == descriptors@.len(),
    ensures
        r@.len() == swept_repositories(
            descriptors@,
            statuses@,
            descriptors@.len() as int,
        ).len(),
        forall|i: int|
            0 <= i < r@.len() ==> (#[trigger] r@[i]).wf() && r@[i].stage is Start
                && r@[i].descriptor == swept_repositories(
                descriptors@,
                statuses@,
                descriptors@.len() as int,
            )[i],
{
    let ghost all = descriptors@;
    let mut sessions: Vec<SweepSession> = Vec::new();
    let total = statuses.len();
    let mut i: usize = 0;
    for descriptor in it: descriptors
        invariant
            it.seq() == all,
            total == statuses@.len(),
            i == it.index(),
            statuses@.len() == all.len(),
            sessions@.len() == swept_repositories(all, statuses@, i as int).len(),
            forall|k: int|
                0 <= k < sessions@.len() ==> (#[trigger] sessions@[k]).stage is Start
                    && sessions@[k].descriptor == swept_repositories(all, statuses@, i as int)[k],
    {
        assert(i < total);
        if selected_for_maintenance(&descriptor, &statuses[i]) {
            sessions.push(SweepSession { descriptor, stage: SweepStage::Start });
        }
        i += 1;
    }
    sessions
}

// ---------------------------------------------------------------------------
// What holds of every sweep

/// A sweep asks for the eviction of a cache only where the cache is accessible and nothing speaks
/// for keeping it; it never asks for that of an authoritative repository, and never collects in a
/// cache.
pub proof fn law_only_idle_caches_are_evicted(
    config: AppConfig,
    s: SweepSession,
    event: SweepEvent,
    next: SweepSession,
)
    requires
        s.wf(),
        s.answered_by(event),
        follows(config, s, event, next.stage),
        next.descriptor == s.descriptor,
        next.wf(),
    ensures
        next.stage is Evict && !(s.stage is Evict) ==> {
            &&& s.descriptor.mode == RepositoryMode::CacheOnly
            &&& event matches SweepEvent::CacheStatus { status, .. }
            &&& status.repo_accessible
            &&& retained_because(
                status,
                config.retention.cache_idle_ttl,
                s.stage->CacheStatus_state.started_at_ms,
            ) is None
        },
        next.stage is Expire || next.stage is Collect ==> s.descriptor.mode
            == RepositoryMode::Authoritative,
{
}

/// Whether a path is that of a record that is old, and not one of the newest.
pub open spec fn old_and_not_newest(
    path: Seq<char>,
    ordered: Seq<TerminalRecord>,
    keep_count: nat,
    before_ms: int,
) -> bool {
    exists|i: int|
        keep_count <= i < ordered.len() && #[trigger] ordered[i].path@ == path
            && ordered[i].timestamp_ms < before_ms
}

/// A sweep removes only records that are old, and never one of the newest that are to be kept.
pub proof fn law_sweeps_keep_newest_records(
    config: AppConfig,
    s: SweepSession,
    records: Vec<TerminalRecord>,
    now_ms: u128,
    next: SweepSession,
)
    requires
        s.wf(),
        s.stage is ReadRecords,
        follows(config, s, SweepEvent::Records { records, now_ms }, next.stage),
        next.stage is RemoveRecord,
    ensures
        forall|k: int|
            0 <= k < next.stage->paths@.len() ==> old_and_not_newest(
                (#[trigger] next.stage->paths@[k])@,
                sorted(records@),
                config.retention.terminal_run_keep_count as nat,
                cutoff(
                    s.stage->ReadRecords_state.started_at_ms,
                    config.retention.terminal_run_ttl,
                ),
            ),
{
    let keep = config.retention.terminal_run_keep_count as nat;
    let before_ms = cutoff(
        s.stage->ReadRecords_state.started_at_ms,
        config.retention.terminal_run_ttl,
    );
    law_pruning_keeps_newest(records@, keep, before_ms);
    crate::order::lemma_sorted(records@);
    let ordered = sorted(records@);
    let paths = next.stage->paths@;
    let gone = prunable(ordered, keep, before_ms, records@.len() as int);
    assert forall|k: int| 0 <= k < paths.len() implies old_and_not_newest(
        (#[trigger] paths[k])@,
        ordered,
        keep,
        before_ms,
    ) by {
        assert(gone[k] == texts(paths)[k]);
        let i = choose|i: int|
            {
                &&& keep <= i < records@.len()
                &&& #[trigger] ordered[i].path@ == gone[k]
                &&& ordered[i].timestamp_ms < before_ms
                &&& forall|j: int|
                    0 <= j < keep ==> (#[trigger] ordered[j]).timestamp_ms
                        >= ordered[i].timestamp_ms
            };
        assert(ordered[i].path@ == paths[k]@);
    }
}

/// What Git is told to let go of: reflogs older than the one limit, with what they alone reach
/// after the other, everywhere, and objects that nothing reaches after that other limit.
pub proof fn law_commands_of_a_sweep(config: AppConfig)
    ensures
        ({
            let reflog = approxidate(config.retention.authoritative_reflog_ttl.0.0 as nat);
            let prune = approxidate(config.retention.authoritative_prune_ttl.0.0 as nat);
            &&& expire_args(config)[0] == "reflog"@
            &&& expire_args(config)[1] == "expire"@
            &&& expire_args(config).contains("--all"@)
            &&& expire_args(config).contains("--expire="@ + reflog)
            &&& expire_args(config).contains("--expire-unreachable="@ + prune)
            &&& expire_args(config).len() == 5
            &&& collect_args(config)[0] == "gc"@
            &&& collect_args(config).contains("--prune="@ + prune)
            &&& collect_args(config).len() == 2
        }),
{
    let reflog = approxidate(config.retention.authoritative_reflog_ttl.0.0 as nat);
    let prune = approxidate(config.retention.authoritative_prune_ttl.0.0 as nat);
    assert(expire_args(config)[2] == "--expire="@ + reflog);
    assert(expire_args(config)[3] == "--expire-unreachable="@ + prune);
    assert(expire_args(config)[4] == "--all"@);
    assert(collect_args(config)[1] == "--prune="@ + prune);
}

/// A sweep prunes the records of all three kinds, one after the other, counts each kind by itself,
/// and only then turns to the repository.
pub proof fn law_every_kind_is_pruned(
    descriptor: RepositoryDescriptor,
    state: SweepState,
    count: usize,
)
    ensures
        ({
            let next = after_kind(descriptor, state, RecordKind::ReconcileRuns, count);
            &&& next is ReadRecords
            &&& next->ReadRecords_kind == RecordKind::UpstreamProbeRuns
            &&& next->ReadRecords_state.pruned.reconcile_runs_removed == count
            &&& next->ReadRecords_state.pruned.upstream_probe_runs_removed
                == state.pruned.upstream_probe_runs_removed
            &&& next->ReadRecords_state.pruned.matrix_probe_runs_removed
                == state.pruned.matrix_probe_runs_removed
            &&& next->ReadRecords_state.started_at_ms == state.started_at_ms
        }),
        ({
            let next = after_kind(descriptor, state, RecordKind::UpstreamProbeRuns, count);
            &&& next is ReadRecords
            &&& next->ReadRecords_kind == RecordKind::MatrixProbeRuns
            &&& next->ReadRecords_state.pruned.upstream_probe_runs_removed == count
            &&& next->ReadRecords_state.pruned.reconcile_runs_removed
                == state.pruned.reconcile_runs_removed
            &&& next->ReadRecords_state.started_at_ms == state.started_at_ms
        }),
        ({
            let next = after_kind(descriptor, state, RecordKind::MatrixProbeRuns, count);
            &&& descriptor.mode == RepositoryMode::CacheOnly ==> next is CacheStatus
                && next->CacheStatus_state.pruned.matrix_probe_runs_removed == count
                && next->CacheStatus_state.pruned.reconcile_runs_removed
                == state.pruned.reconcile_runs_removed
            &&& descriptor.mode == RepositoryMode::Authoritative ==> next is FindRepository
                && next->FindRepository_state.pruned.matrix_probe_runs_removed == count
                && next->FindRepository_state.pruned.reconcile_runs_removed
                == state.pruned.reconcile_runs_removed
        }),
{
}

/// The records of the three kinds are kept apart, each repository's under its own name.
pub proof fn law_records_are_kept_apart(state_root: Seq<char>, repo_id: Seq<char>)
    requires
        state_root.len() > 0,
        state_root.last() != '/',
    ensures
        kind_dir(state_root, RecordKind::ReconcileRuns, repo_id) == state_root
            + "/reconcile/runs/"@ + path_component(repo_id),
        kind_dir(state_root, RecordKind::UpstreamProbeRuns, repo_id) == state_root
            + "/upstream-probes/runs/"@ + path_component(repo_id),
        kind_dir(state_root, RecordKind::MatrixProbeRuns, repo_id) == state_root
            + "/upstream-probes/matrix-runs/"@ + path_component(repo_id),
{
    reveal_strlit("reconcile");
    reveal_strlit("upstream-probes");
    reveal_strlit("runs");
    reveal_strlit("matrix-runs");
    reveal_strlit("/reconcile/runs/");
    reveal_strlit("/upstream-probes/runs/");
    reveal_strlit("/upstream-probes/matrix-runs/");
    let name = path_component(repo_id);
    crate::sanitize::law_path_component_is_safe(repo_id);
    assert(crate::sanitize::path_safe(name[0]));
    lemma_three_joined(state_root, "reconcile"@, "runs"@, name);
    lemma_three_joined(state_root, "upstream-probes"@, "runs"@, name);
    lemma_three_joined(state_root, "upstream-probes"@, "matrix-runs"@, name);
    let slash = seq!['/'];
    assert(slash + "reconcile"@ + slash + "runs"@ + slash =~= "/reconcile/runs/"@);
    assert(slash + "upstream-probes"@ + slash + "runs"@ + slash =~= "/upstream-probes/runs/"@);
    assert(slash + "upstream-probes"@ + slash + "matrix-runs"@ + slash
        =~= "/upstream-probes/matrix-runs/"@);
}

proof fn lemma_three_joined(root: Seq<char>, area: Seq<char>, kind: Seq<char>, name: Seq<char>)
    requires
        root.len() > 0 && root.last() != '/',
        area.len() > 0 && area.last() != '/' && area[0] != '/',
        kind.len() > 0 && kind.last() != '/' && kind[0] != '/',
        name.len() > 0 && name[0] != '/',
    ensures
        crate::path::joined_path(
            crate::path::joined_path(crate::path::joined_path(root, area), kind),
            name,
        ) == root + (seq!['/'] + area + seq!['/'] + kind + seq!['/']) + name,
{
    let slash = seq!['/'];
    crate::path::law_joined_paths(root, area);
    let one = root + slash + area;
    crate::path::law_joined_paths(one, kind);
    let two = one + slash + kind;
    crate::path::law_joined_paths(two, name);
    assert(two + slash + name =~= root + (slash + area + slash + kind + slash) + name);
}

/// A sweep that fails says why and claims nothing else; its report is kept before it ends, and one
/// that cannot be kept says that too.
pub proof fn law_failed_sweeps_say_so(
    config: AppConfig,
    s: SweepSession,
    error: MaintenanceError,
    now_ms: u128,
    next: SweepStage,
)
    requires
        follows(config, s, SweepEvent::Failed { error, now_ms }, next),
        !(s.stage is Start) && !(s.stage is Finished),
    ensures
        !(s.stage is Persist) ==> next is Persist && next->Persist_0.error is Some
            && next->Persist_0.error->0@ == error.message_text() && next->Persist_0.cache is None
            && next->Persist_0.authoritative is None && next->Persist_0.repo_id@
            == s.descriptor.repo_id@,
        s.stage is Persist ==> next is Finished && next->Finished_0.error is Some
            && crate::text::ends(next->Finished_0.error->0@, error.message_text()),
{
    if s.stage is Persist {
        let said = next->Finished_0.error->0@;
        let tail = error.message_text();
        assert(said.skip(said.len() - tail.len()) =~= tail);
    }
}

/// The repositories that are swept are exactly those that are ready and due, each once and in
/// their order.
pub proof fn law_due_repositories_are_swept(
    descriptors: Seq<RepositoryDescriptor>,
    statuses: Seq<Option<RepoRetentionStatus>>,
    n: int,
    i: int,
)
    requires
        0 <= i < n <= descriptors.len(),
        statuses.len() == descriptors.len(),
    ensures
        selected(descriptors[i], statuses[i]) ==> swept_repositories(
            descriptors,
            statuses,
            n,
        ).contains(descriptors[i]),
        swept_repositories(descriptors, statuses, n).len() <= n,
        forall|k: int|
            0 <= k < swept_repositories(descriptors, statuses, n).len() ==> (
            #[trigger] swept_repositories(descriptors, statuses, n)[k]).lifecycle
                == RepositoryLifecycle::Ready,
    decreases n,
{
    let all = swept_repositories(descriptors, statuses, n);
    if n > 1 {
        let j = if i < n - 1 {
            i
        } else {
            0
        };
        law_due_repositories_are_swept(descriptors, statuses, n - 1, j);
    } else {
        assert(swept_repositories(descriptors, statuses, 0).len() == 0);
    }
    let before = swept_repositories(descriptors, statuses, n - 1);
    assert forall|k: int| 0 <= k < all.len() implies (#[trigger] all[k]).lifecycle
        == RepositoryLifecycle::Ready by {
        if k < before.len() {
            assert(all[k] == before[k]);
        }
    }
    if selected(descriptors[i], statuses[i]) {
        if i < n - 1 {
            let k = choose|k: int| 0 <= k < before.len() && before[k] == descriptors[i];
            assert(all[k] == descriptors[i]);
        } else {
            assert(all[all.len() - 1] == descriptors[i]);
        }
    }
}

/// A sweep starts with the records of reconciliations and has pruned none, removes record after
/// record and counts them, and prunes a repository only where it is found. It says that it
/// maintained an authoritative repository exactly where both commands succeeded.
pub proof fn law_course_of_a_sweep(
    config: AppConfig,
    s: SweepSession,
    event: SweepEvent,
    next: SweepStage,
)
    requires
        s.wf(),
        s.answered_by(event),
        follows(config, s, event, next),
    ensures
        s.stage is Start && event is Started ==> {
            &&& next is ReadRecords
            &&& next->ReadRecords_kind == RecordKind::ReconcileRuns
            &&& next->ReadRecords_state.started_at_ms == event->Started_now_ms
            &&& next->ReadRecords_state.pruned.reconcile_runs_removed == 0
            &&& next->ReadRecords_state.pruned.upstream_probe_runs_removed == 0
            &&& next->ReadRecords_state.pruned.matrix_probe_runs_removed == 0
        },
        s.stage is RemoveRecord && event is Done && s.stage->next + 1 < s.stage->paths@.len() ==> {
            &&& next is RemoveRecord
            &&& next->next == s.stage->next + 1
            &&& next->paths == s.stage->paths
        },
        s.stage is RemoveRecord && event is Done && s.stage->next + 1 == s.stage->paths@.len()
            && s.stage->RemoveRecord_kind == RecordKind::ReconcileRuns ==> {
            &&& next is ReadRecords
            &&& next->ReadRecords_state.pruned.reconcile_runs_removed == s.stage->paths@.len()
        },
        s.stage is FindRepository && event is Found ==> {
            &&& next is Expire <==> event->repo_exists
            &&& !event->repo_exists ==> next is Persist && next->Persist_0.error is Some
        },
        s.stage is Expire && event is Git ==> {
            let well = event->reply is Ran && event->reply->Ran_0.success;
            &&& next is Collect <==> well
            &&& !well ==> next is Persist && next->Persist_0.error is Some
        },
        s.stage is Collect && event is Git && s.stage->expire.success ==> {
            let well = event->reply is Ran && event->reply->Ran_0.success;
            &&& next is Persist
            &&& next->Persist_0.error is None <==> well
            &&& next->Persist_0.authoritative is Some <==> well
            &&& well ==> next->Persist_0.authoritative->0.applied
        },
        s.stage is Persist && !(event is Failed) ==> next is Finished && next->Finished_0
            == s.stage->Persist_0,
{
    if s.stage is RemoveRecord {
        assert(s.stage->paths@.len() == s.stage->paths.len());
    }
}

/// A sweep reads the records of the kind that it prunes, removes the record that comes next, and
/// of an authoritative repository lets the history expire before it collects what is not reached.
pub proof fn law_what_a_sweep_asks_for(config: AppConfig, s: SweepSession, action: SweepAction<'_>)
    requires
        s.wf(),
        asks(config, s, action),
    ensures
        s.stage is ReadRecords ==> action is ReadRecords && action->directory@ == kind_dir(
            config.paths.state_root@,
            s.stage->ReadRecords_kind,
            s.descriptor.repo_id@,
        ),
        s.stage is RemoveRecord ==> action is RemoveFile && *action->path
            == s.stage->paths@[s.stage->next as int],
        s.stage is Expire ==> action is Git && texts(action->args@)[0] == "reflog"@ && texts(
            action->args@,
        ) == expire_args(config),
        s.stage is Collect ==> action is Git && texts(action->args@)[0] == "gc"@ && texts(
            action->args@,
        ) == collect_args(config),
        action is EvictCache <==> s.stage is Evict,
        action is WriteReport <==> s.stage is Persist,
        s.stage is Persist ==> *action->WriteReport_0 == s.stage->Persist_0,
        action is Finish <==> s.stage is Finished,
{
}

} // verus!
