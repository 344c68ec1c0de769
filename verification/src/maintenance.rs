//! Retention: what is swept from a repository and its records, and what stays.

use crate::config::{
    AppConfig, HumanDuration, RepositoryDescriptor, RepositoryLifecycle, RepositoryMode,
};
use crate::git::{
    debug_list, debug_list_text, failure_text, format_git_failure, render_status, status_text,
    GitProcessOutput,
};
use crate::order::{self, in_order, sorted, text_le, Ordered};
use crate::path::{self, joined_path};
use crate::sanitize::{path_component, sanitize_path_component};
use crate::text::{concat2, concat3, concat4, concat5, decimal, render_u64, text_of, texts};
use vstd::prelude::*;

pub use crate::sweep::run_retention_maintenance;

verus! {

#[derive(Debug, Clone, PartialEq, Eq)]
pub struct RetentionPolicyReport {
    pub maintenance_interval: HumanDuration,
    pub cache_idle_ttl: HumanDuration,
    pub terminal_run_ttl: HumanDuration,
    pub terminal_run_keep_count: usize,
    pub authoritative_reflog_ttl: HumanDuration,
    pub authoritative_prune_ttl: HumanDuration,
}

#[derive(Debug, Clone, PartialEq, Eq)]
pub struct TerminalEvidenceCounts {
    pub reconcile_runs: usize,
    pub upstream_probe_runs: usize,
    pub matrix_probe_runs: usize,
}

#[derive(Debug, Clone, PartialEq, Eq)]
pub struct TerminalEvidencePruneReport {
    pub reconcile_runs_removed: usize,
    pub upstream_probe_runs_removed: usize,
    pub matrix_probe_runs_removed: usize,
}

#[derive(Debug, Clone, Copy, PartialEq, Eq, Structural)]
pub enum CacheMaintenanceOutcome {
    NotApplicable,
    PinnedRetained,
    RecentRetained,
    NoActivityEvidenceRetained,
    EmptyRetained,
    Evicted,
}

#[derive(Debug, Clone, PartialEq, Eq)]
pub struct CacheMaintenanceReport {
    pub outcome: CacheMaintenanceOutcome,
    pub pinned: bool,
    pub repo_accessible: bool,
    pub has_visible_refs: Option<bool>,
    pub last_activity_at_ms: Option<u128>,
    pub removed_visible_ref_count: usize,
}

#[derive(Debug, Clone, PartialEq, Eq)]
pub struct AuthoritativeMaintenanceReport {
    pub applied: bool,
    pub reflog_ttl: HumanDuration,
    pub prune_ttl: HumanDuration,
}

#[derive(Debug, Clone, PartialEq, Eq)]
pub struct RepositoryMaintenanceReport {
    pub repo_id: String,
    pub repo_path: String,
    pub repo_mode: RepositoryMode,
    pub started_at_ms: u128,
    pub completed_at_ms: u128,
    pub evidence_pruned: TerminalEvidencePruneReport,
    pub cache: Option<CacheMaintenanceReport>,
    pub authoritative: Option<AuthoritativeMaintenanceReport>,
    pub error: Option<String>,
}

#[derive(Debug, Clone, PartialEq, Eq)]
pub struct RepoRetentionStatus {
    pub policy: RetentionPolicyReport,
    pub due_now: bool,
    pub next_due_at_ms: Option<u128>,
    pub evidence_counts: TerminalEvidenceCounts,
    pub last_maintenance: Option<RepositoryMaintenanceReport>,
}

/// What is known of a cache when it is swept.
#[derive(Debug, Clone, Copy, PartialEq, Eq)]
pub struct CacheRetentionStatus {
    pub repo_accessible: bool,
    pub pinned: bool,
    pub has_visible_refs: Option<bool>,
    pub last_activity_at_ms: Option<u128>,
}

#[derive(Debug, Clone)]
pub enum MaintenanceError {
    CreateDir { path: String, error: String },
    Read { path: String, error: String },
    Write { path: String, error: String },
    Remove { path: String, error: String },
    ParseJson { path: String, error: String },
    SpawnGit { args: Vec<String>, error: String },
    Git { args: Vec<String>, status: Option<i32>, detail: String },
    CacheControl(String),
    RepositoryUnavailable { repo_id: String, repo_path: String },
}

impl MaintenanceError {
    pub open spec fn message_text(self) -> Seq<char> {
        match self {
            MaintenanceError::CreateDir { path, error } => "failed to create directory "@ + path@
                + ": "@ + error@,
            MaintenanceError::Read { path, error } => "failed to read "@ + path@ + ": "@ + error@,
            MaintenanceError::Write { path, error } => "failed to write "@ + path@ + ": "@ + error@,
            MaintenanceError::Remove { path, error } => "failed to remove "@ + path@ + ": "@
                + error@,
            MaintenanceError::ParseJson { path, error } => "failed to parse JSON "@ + path@ + ": "@
                + error@,
            MaintenanceError::SpawnGit { args, error } => "failed to run git "@ + debug_list_text(
                texts(args@),
            ) + ": "@ + error@,
            MaintenanceError::Git { args, status, detail } => "git failed for args "@
                + debug_list_text(texts(args@)) + " with status "@ + status_text(status) + ": "@
                + detail@,
            MaintenanceError::CacheControl(error) => error@,
            MaintenanceError::RepositoryUnavailable { repo_id, repo_path } => "repository "@
                + repo_id@ + " at "@ + repo_path@ + " is not accessible for maintenance"@,
        }
    }

    /// The error in words.
    pub fn message(&self) -> (r: String)
        ensures
            r@ == self.message_text(),
    {
        match self {
            MaintenanceError::CreateDir { path, error } => concat4(
                "failed to create directory ",
                path,
                ": ",
                error,
            ),
            MaintenanceError::Read { path, error } => concat4("failed to read ", path, ": ", error),
            MaintenanceError::Write { path, error } => concat4(
                "failed to write ",
                path,
                ": ",
                error,
            ),
            MaintenanceError::Remove { path, error } => concat4(
                "failed to remove ",
                path,
                ": ",
                error,
            ),
            MaintenanceError::ParseJson { path, error } => concat4(
                "failed to parse JSON ",
                path,
                ": ",
                error,
            ),
            MaintenanceError::SpawnGit { args, error } => concat4(
                "failed to run git ",
                &debug_list(args),
                ": ",
                error,
            ),
            MaintenanceError::Git { args, status, detail } => {
                let head = concat4(
                    "git failed for args ",
                    &debug_list(args),
                    " with status ",
                    &render_status(*status),
                );
                concat3(&head, ": ", detail)
            },
            MaintenanceError::CacheControl(error) => error.clone(),
            MaintenanceError::RepositoryUnavailable { repo_id, repo_path } => concat5(
                "repository ",
                repo_id,
                " at ",
                repo_path,
                " is not accessible for maintenance",
            ),
        }
    }
}

// ---------------------------------------------------------------------------
// When maintenance is due

/// The retention limits of a configuration.
pub fn retention_policy_report(config: &AppConfig) -> (r: RetentionPolicyReport)
    ensures
        r == (RetentionPolicyReport {
            maintenance_interval: config.retention.maintenance_interval,
            cache_idle_ttl: config.retention.cache_idle_ttl,
            terminal_run_ttl: config.retention.terminal_run_ttl,
            terminal_run_keep_count: config.retention.terminal_run_keep_count,
            authoritative_reflog_ttl: config.retention.authoritative_reflog_ttl,
            authoritative_prune_ttl: config.retention.authoritative_prune_ttl,
        }),
{
    RetentionPolicyReport {
        maintenance_interval: config.retention.maintenance_interval,
        cache_idle_ttl: config.retention.cache_idle_ttl,
        terminal_run_ttl: config.retention.terminal_run_ttl,
        terminal_run_keep_count: config.retention.terminal_run_keep_count,
        authoritative_reflog_ttl: config.retention.authoritative_reflog_ttl,
        authoritative_prune_ttl: config.retention.authoritative_prune_ttl,
    }
}

/// How many milliseconds have passed, or none where the clock went back.
pub open spec fn elapsed(now_ms: u128, since_ms: u128) -> int {
    if now_ms >= since_ms {
        now_ms - since_ms
    } else {
        0
    }
}

/// Whether maintenance is due: it was never done, or the interval has passed since.
pub open spec fn is_due(
    last: Option<RepositoryMaintenanceReport>,
    interval: HumanDuration,
    now_ms: u128,
) -> bool {
    match last {
        Some(report) => elapsed(now_ms, report.completed_at_ms) >= interval.0.0 * 1000,
        None => true,
    }
}

/// Whether maintenance is due.
pub fn maintenance_due(
    report: &Option<RepositoryMaintenanceReport>,
    interval: HumanDuration,
    now_ms: u128,
) -> (r: bool)
    ensures
        r == is_due(*report, interval, now_ms),
{
    match report {
        Some(report) => now_ms.saturating_sub(report.completed_at_ms)
            >= interval.as_duration().as_millis(),
        None => true,
    }
}

/// The retention status of a repository.
pub fn retention_status_for_repo(
    config: &AppConfig,
    last_maintenance: Option<RepositoryMaintenanceReport>,
    evidence_counts: TerminalEvidenceCounts,
    now_ms: u128,
) -> (r: RepoRetentionStatus)
    requires
        last_maintenance matches Some(report) ==> report.completed_at_ms
            + config.retention.maintenance_interval.0.0 * 1000 <= u128::MAX,
    ensures
        r.policy.maintenance_interval == config.retention.maintenance_interval,
        r.policy.cache_idle_ttl == config.retention.cache_idle_ttl,
        r.policy.terminal_run_ttl == config.retention.terminal_run_ttl,
        r.policy.terminal_run_keep_count == config.retention.terminal_run_keep_count,
        r.policy.authoritative_reflog_ttl == config.retention.authoritative_reflog_ttl,
        r.policy.authoritative_prune_ttl == config.retention.authoritative_prune_ttl,
        r.due_now == is_due(last_maintenance, config.retention.maintenance_interval, now_ms),
        r.evidence_counts == evidence_counts,
        r.last_maintenance == last_maintenance,
        match last_maintenance {
            Some(report) => r.next_due_at_ms is Some && r.next_due_at_ms->0
                == report.completed_at_ms + config.retention.maintenance_interval.0.0 * 1000,
            None => r.next_due_at_ms is None,
        },
{
    let due_now = maintenance_due(
        &last_maintenance,
        config.retention.maintenance_interval,
        now_ms,
    );
    let next_due_at_ms = match &last_maintenance {
        Some(report) => Some(
            report.completed_at_ms
                + config.retention.maintenance_interval.as_duration().as_millis(),
        ),
        None => None,
    };
    RepoRetentionStatus {
        policy: retention_policy_report(config),
        due_now,
        next_due_at_ms,
        evidence_counts,
        last_maintenance,
    }
}

/// Whether a repository is swept: it is ready, and it is due or its status is not known.
pub open spec fn selected(
    descriptor: RepositoryDescriptor,
    status: Option<RepoRetentionStatus>,
) -> bool {
    descriptor.lifecycle == RepositoryLifecycle::Ready && match status {
        Some(s) => s.due_now,
        None => true,
    }
}

/// Whether a repository is swept.
pub fn selected_for_maintenance(
    descriptor: &RepositoryDescriptor,
    status: &Option<RepoRetentionStatus>,
) -> (r: bool)
    ensures
        r == selected(*descriptor, *status),
{
    descriptor.lifecycle == RepositoryLifecycle::Ready && match status {
        Some(s) => s.due_now,
        None => true,
    }
}

// ---------------------------------------------------------------------------
// Caches

/// What is to be done about a cache.
#[derive(Debug, Clone, PartialEq, Eq)]
pub enum CacheDecision {
    Retain(CacheMaintenanceReport),
    Evict,
}

/// Why a cache that is accessible stays; the first of these that holds. `None` where it goes.
pub open spec fn retained_because(
    status: CacheRetentionStatus,
    cache_idle_ttl: HumanDuration,
    now_ms: u128,
) -> Option<CacheMaintenanceOutcome> {
    if status.pinned {
        Some(CacheMaintenanceOutcome::PinnedRetained)
    } else if status.has_visible_refs != Some(true) {
        Some(CacheMaintenanceOutcome::EmptyRetained)
    } else {
        match status.last_activity_at_ms {
            None => Some(CacheMaintenanceOutcome::NoActivityEvidenceRetained),
            Some(last) => if elapsed(now_ms, last) < cache_idle_ttl.0.0 * 1000 {
                Some(CacheMaintenanceOutcome::RecentRetained)
            } else {
                None
            },
        }
    }
}

/// What is to be done about a cache: one that is not accessible cannot be maintained.
pub open spec fn cache_decided(
    config: AppConfig,
    descriptor: RepositoryDescriptor,
    status: CacheRetentionStatus,
    now_ms: u128,
    r: Result<CacheDecision, MaintenanceError>,
) -> bool {
    match r {
        Err(MaintenanceError::RepositoryUnavailable { repo_id, repo_path }) => {
            &&& !status.repo_accessible
            &&& repo_id@ == descriptor.repo_id@
            &&& repo_path@ == descriptor.repo_path@
        },
        Err(_) => false,
        Ok(CacheDecision::Retain(report)) => {
            &&& status.repo_accessible
            &&& retained_because(status, config.retention.cache_idle_ttl, now_ms) == Some(
                report.outcome,
            )
            &&& report.pinned == status.pinned
            &&& report.repo_accessible
            &&& report.has_visible_refs == status.has_visible_refs
            &&& report.last_activity_at_ms == status.last_activity_at_ms
            &&& report.removed_visible_ref_count == 0
        },
        Ok(CacheDecision::Evict) => {
            &&& status.repo_accessible
            &&& retained_because(status, config.retention.cache_idle_ttl, now_ms) is None
        },
    }
}

/// What is to be done about a cache.
pub fn maintain_cache_repository(
    config: &AppConfig,
    descriptor: &RepositoryDescriptor,
    status: &CacheRetentionStatus,
    now_ms: u128,
) -> (r: Result<CacheDecision, MaintenanceError>)
    ensures
        cache_decided(*config, *descriptor, *status, now_ms, r),
{
    if !status.repo_accessible {
        return Err(
            MaintenanceError::RepositoryUnavailable {
                repo_id: descriptor.repo_id.clone(),
                repo_path: descriptor.repo_path.clone(),
            },
        );
    }
    let visible = match status.has_visible_refs {
        Some(visible) => visible,
        None => false,
    };
    let outcome = if status.pinned {
        CacheMaintenanceOutcome::PinnedRetained
    } else if !visible {
        CacheMaintenanceOutcome::EmptyRetained
    } else {
        match status.last_activity_at_ms {
            None => CacheMaintenanceOutcome::NoActivityEvidenceRetained,
            Some(last) => {
                if now_ms.saturating_sub(last)
                    < config.retention.cache_idle_ttl.as_duration().as_millis() {
                    CacheMaintenanceOutcome::RecentRetained
                } else {
                    return Ok(CacheDecision::Evict);
                }
            },
        }
    };
    Ok(
        CacheDecision::Retain(
            CacheMaintenanceReport {
                outcome,
                pinned: status.pinned,
                repo_accessible: status.repo_accessible,
                has_visible_refs: status.has_visible_refs,
                last_activity_at_ms: status.last_activity_at_ms,
                removed_visible_ref_count: 0,
            },
        ),
    )
}

/// The report on a cache that was evicted; `status` is what is known of it afterwards.
pub fn evicted_report(status: &CacheRetentionStatus, removed_visible_ref_count: usize) -> (r:
    CacheMaintenanceReport)
    ensures
        r == (CacheMaintenanceReport {
            outcome: CacheMaintenanceOutcome::Evicted,
            pinned: status.pinned,
            repo_accessible: status.repo_accessible,
            has_visible_refs: status.has_visible_refs,
            last_activity_at_ms: status.last_activity_at_ms,
            removed_visible_ref_count,
        }),
{
    CacheMaintenanceReport {
        outcome: CacheMaintenanceOutcome::Evicted,
        pinned: status.pinned,
        repo_accessible: status.repo_accessible,
        has_visible_refs: status.has_visible_refs,
        last_activity_at_ms: status.last_activity_at_ms,
        removed_visible_ref_count,
    }
}

/// Maintenance evicts a cache exactly where it is not pinned, holds visible references, and was
/// idle for as long as the limit; a cache without evidence of activity is never evicted.
pub proof fn law_eviction_needs_evidence(
    status: CacheRetentionStatus,
    cache_idle_ttl: HumanDuration,
    now_ms: u128,
)
    ensures
        retained_because(status, cache_idle_ttl, now_ms) is None <==> {
            &&& !status.pinned
            &&& status.has_visible_refs == Some(true)
            &&& status.last_activity_at_ms is Some
            &&& elapsed(now_ms, status.last_activity_at_ms->0) >= cache_idle_ttl.0.0 * 1000
        },
{
}

// ---------------------------------------------------------------------------
// Records

/// A record of a run that has ended: when, and in which file.
#[derive(Debug, Clone, PartialEq, Eq)]
pub struct TerminalRecord {
    pub timestamp_ms: u128,
    pub path: String,
}

impl Ordered for TerminalRecord {
    /// The newest first, and of those from one moment the last by name.
    open spec fn le(&self, other: &Self) -> bool {
        if self.timestamp_ms == other.timestamp_ms {
            text_le(other.path@, self.path@)
        } else {
            self.timestamp_ms > other.timestamp_ms
        }
    }

    proof fn total(a: &Self, b: &Self) {
        order::lemma_text_le_total(a.path@, b.path@);
    }

    proof fn transitive(a: &Self, b: &Self, c: &Self) {
        if a.timestamp_ms == b.timestamp_ms && b.timestamp_ms == c.timestamp_ms {
            order::lemma_text_le_trans(c.path@, b.path@, a.path@);
        }
    }

    fn not_after(&self, other: &Self) -> (r: bool) {
        if self.timestamp_ms == other.timestamp_ms {
            order::not_after(&other.path, &self.path)
        } else {
            self.timestamp_ms > other.timestamp_ms
        }
    }
}

/// The moment before which records are old.
pub open spec fn cutoff(now_ms: u128, ttl: HumanDuration) -> int {
    if now_ms >= ttl.0.0 * 1000 {
        now_ms - ttl.0.0 * 1000
    } else {
        0
    }
}

/// The paths of the records that go, among the first `n` of those ordered from the newest: the
/// first `keep_count` stay, and so do those that are not old.
pub open spec fn prunable(
    records: Seq<TerminalRecord>,
    keep_count: nat,
    before_ms: int,
    n: int,
) -> Seq<Seq<char>>
    decreases n,
{
    if n <= 0 {
        Seq::empty()
    } else if n - 1 >= keep_count && records[n - 1].timestamp_ms < before_ms {
        prunable(records, keep_count, before_ms, n - 1).push(records[n - 1].path@)
    } else {
        prunable(records, keep_count, before_ms, n - 1)
    }
}

/// The paths of the records that go.
pub fn prune_json_records(
    records: Vec<TerminalRecord>,
    keep_count: usize,
    ttl: HumanDuration,
    now_ms: u128,
) -> (r: Vec<String>)
    ensures
        texts(r@) == prunable(
            sorted(records@),
            keep_count as nat,
            cutoff(now_ms, ttl),
            records@.len() as int,
        ),
{
    let ghost unsorted = records@;
    let records = order::sort(records);
    let before_ms = now_ms.saturating_sub(ttl.as_duration().as_millis());
    let mut removed: Vec<String> = Vec::new();
    let mut i: usize = 0;
    assert(texts(removed@) =~= prunable(records@, keep_count as nat, before_ms as int, 0));
    while i < records.len()
        invariant
            i <= records@.len(),
            texts(removed@) == prunable(
                records@,
                keep_count as nat,
                before_ms as int,
                i as int,
            ),
        decreases records@.len() - i,
    {
        proof {
            crate::text::lemma_texts_push(removed@, records@[i as int].path);
        }
        if i >= keep_count && records[i].timestamp_ms < before_ms {
            removed.push(records[i].path.clone());
        }
        i += 1;
    }
    removed
}

/// Pruning keeps the newest records and every recent one: each record that goes is old, at least
/// `keep_count` others are no older than it, and no more go than exceed `keep_count`.
pub proof fn law_pruning_keeps_newest(
    records: Seq<TerminalRecord>,
    keep_count: nat,
    before_ms: int,
)
    ensures
        prunable(sorted(records), keep_count, before_ms, records.len() as int).len() <= (
        if records.len() >= keep_count {
            records.len() - keep_count
        } else {
            0
        }),
        forall|k: int|
            0 <= k < prunable(
                sorted(records),
                keep_count,
                before_ms,
                records.len() as int,
            ).len() ==> exists|i: int|
                {
                    &&& keep_count <= i < records.len()
                    &&& #[trigger] sorted(records)[i].path@ == #[trigger] prunable(
                        sorted(records),
                        keep_count,
                        before_ms,
                        records.len() as int,
                    )[k]
                    &&& sorted(records)[i].timestamp_ms < before_ms
                    &&& forall|j: int|
                        0 <= j < keep_count ==> (#[trigger] sorted(records)[j]).timestamp_ms
                            >= sorted(records)[i].timestamp_ms
                },
{
    order::lemma_sorted(records);
    lemma_prunable(sorted(records), keep_count, before_ms, records.len() as int);
}

proof fn lemma_prunable(
    records: Seq<TerminalRecord>,
    keep_count: nat,
    before_ms: int,
    n: int,
)
    requires
        in_order(records),
        0 <= n <= records.len(),
    ensures
        prunable(records, keep_count, before_ms, n).len() <= (if n >= keep_count {
            n - keep_count
        } else {
            0
        }),
        forall|k: int|
            0 <= k < prunable(records, keep_count, before_ms, n).len() ==> exists|i: int|
                {
                    &&& keep_count <= i < n
                    &&& #[trigger] records[i].path@ == #[trigger] prunable(
                        records,
                        keep_count,
                        before_ms,
                        n,
                    )[k]
                    &&& records[i].timestamp_ms < before_ms
                    &&& forall|j: int|
                        0 <= j < keep_count ==> (#[trigger] records[j]).timestamp_ms
                            >= records[i].timestamp_ms
                },
    decreases n,
{
    if n > 0 {
        lemma_prunable(records, keep_count, before_ms, n - 1);
        let before = prunable(records, keep_count, before_ms, n - 1);
        let all = prunable(records, keep_count, before_ms, n);
        assert forall|k: int| 0 <= k < all.len() implies exists|i: int|
            {
                &&& keep_count <= i < n
                &&& #[trigger] records[i].path@ == #[trigger] all[k]
                &&& records[i].timestamp_ms < before_ms
                &&& forall|j: int|
                    0 <= j < keep_count ==> (#[trigger] records[j]).timestamp_ms
                        >= records[i].timestamp_ms
            } by {
            if k < before.len() {
                assert(all[k] == before[k]);
                let i = choose|i: int|
                    {
                        &&& keep_count <= i < n - 1
                        &&& #[trigger] records[i].path@ == before[k]
                        &&& records[i].timestamp_ms < before_ms
                        &&& forall|j: int|
                            0 <= j < keep_count ==> (#[trigger] records[j]).timestamp_ms
                                >= records[i].timestamp_ms
                    };
                assert(records[i].path@ == all[k]);
            } else {
                assert(records[n - 1].path@ == all[k]);
                assert forall|j: int| 0 <= j < keep_count implies (
                #[trigger] records[j]).timestamp_ms >= records[n - 1].timestamp_ms by {
                    assert(records[j].le(&records[n - 1]));
                }
            }
        }
    }
}

/// The records that are left once the files at `removed` are gone.
pub open spec fn left_over(records: Seq<TerminalRecord>, removed: Seq<Seq<char>>) -> Seq<
    TerminalRecord,
> {
    records.filter(|record: TerminalRecord| !removed.contains(record.path@))
}

/// Whether no two records are in the same file.
pub open spec fn files_distinct(records: Seq<TerminalRecord>) -> bool {
    forall|i: int, j: int|
        0 <= i < j < records.len() ==> (#[trigger] records[i]).path@ != (
        #[trigger] records[j]).path@
}

/// Pruning is done at once: the same call on what is left removes nothing. Where each record has a
/// file of its own, at least `keep_count` records are left, or all of them.
pub proof fn law_pruning_again_removes_nothing(
    records: Seq<TerminalRecord>,
    keep_count: nat,
    before_ms: int,
)
    ensures
        ({
            let n = records.len() as int;
            let removed = prunable(sorted(records), keep_count, before_ms, n);
            let left = left_over(records, removed);
            &&& prunable(sorted(left), keep_count, before_ms, left.len() as int)
                == Seq::<Seq<char>>::empty()
            &&& files_distinct(records) ==> left.len() >= (if n < keep_count {
                n
            } else {
                keep_count as int
            })
        }),
{
    let n = records.len() as int;
    let all = sorted(records);
    let removed = prunable(all, keep_count, before_ms, n);
    let keep = |record: TerminalRecord| !removed.contains(record.path@);
    let left = left_over(records, removed);
    order::lemma_sorted(records);
    order::lemma_sorted(left);
    order::lemma_sorted_kept(records, keep);
    assert(left == records.filter(keep));
    assert forall|i: int| keep_count <= i < n && all[i].timestamp_ms < before_ms implies !keep(
        #[trigger] all[i],
    ) by {
        lemma_pruned(all, keep_count, before_ms, n, i);
    }
    lemma_kept_are_recent(all, keep_count, before_ms, keep, n);
    assert(all.take(n) =~= all);
    lemma_none_prunable(sorted(left), keep_count, before_ms, left.len() as int);
    if files_distinct(records) {
        lemma_distinct_when_sorted(records);
        let m = if n < keep_count {
            n
        } else {
            keep_count as int
        };
        assert forall|j: int| 0 <= j < m implies keep(#[trigger] all[j]) by {
            lemma_prunable(all, keep_count, before_ms, n);
            if removed.contains(all[j].path@) {
                let k = choose|k: int| 0 <= k < removed.len() && removed[k] == all[j].path@;
                let i = choose|i: int|
                    keep_count <= i < n && #[trigger] all[i].path@ == removed[k];
                assert(all[j].path@ != all[i].path@);
            }
        }
        lemma_all_kept(all.take(m), keep);
        assert(all =~= all.take(m) + all.skip(m));
        Seq::filter_distributes_over_add(all.take(m), all.skip(m), keep);
    }
}

proof fn lemma_all_kept(records: Seq<TerminalRecord>, keep: spec_fn(TerminalRecord) -> bool)
    requires
        forall|i: int| 0 <= i < records.len() ==> keep(#[trigger] records[i]),
    ensures
        records.filter(keep) == records,
    decreases records.len(),
{
    reveal(Seq::filter);
    if records.len() > 0 {
        assert(keep(records[records.len() - 1]));
        lemma_all_kept(records.drop_last(), keep);
        assert(records.drop_last().push(records.last()) =~= records);
    }
}

proof fn lemma_pruned(
    records: Seq<TerminalRecord>,
    keep_count: nat,
    before_ms: int,
    n: int,
    i: int,
)
    requires
        keep_count <= i < n,
        records[i].timestamp_ms < before_ms,
    ensures
        prunable(records, keep_count, before_ms, n).contains(records[i].path@),
    decreases n,
{
    let all = prunable(records, keep_count, before_ms, n);
    let before = prunable(records, keep_count, before_ms, n - 1);
    if i == n - 1 {
        assert(all[all.len() - 1] == records[i].path@);
    } else {
        lemma_pruned(records, keep_count, before_ms, n - 1, i);
        let k = choose|k: int| 0 <= k < before.len() && before[k] == records[i].path@;
        assert(all[k] == records[i].path@);
    }
}

/// Of the first `n` records, those that are kept beyond the first `keep_count` are not old.
proof fn lemma_kept_are_recent(
    records: Seq<TerminalRecord>,
    keep_count: nat,
    before_ms: int,
    keep: spec_fn(TerminalRecord) -> bool,
    n: int,
)
    requires
        0 <= n <= records.len(),
        forall|i: int|
            keep_count <= i < records.len() && records[i].timestamp_ms < before_ms ==> !keep(
                #[trigger] records[i],
            ),
    ensures
        records.take(n).filter(keep).len() <= n,
        forall|k: int|
            keep_count <= k < records.take(n).filter(keep).len() ==> (#[trigger] records.take(
                n,
            ).filter(keep)[k]).timestamp_ms >= before_ms,
    decreases n,
{
    reveal(Seq::filter);
    if n > 0 {
        lemma_kept_are_recent(records, keep_count, before_ms, keep, n - 1);
        assert(records.take(n).drop_last() =~= records.take(n - 1));
        let before = records.take(n - 1).filter(keep);
        let all = records.take(n).filter(keep);
        assert forall|k: int| keep_count <= k < all.len() implies (
        #[trigger] all[k]).timestamp_ms >= before_ms by {
            if k < before.len() {
                assert(all[k] == before[k]);
            } else {
                assert(all[k] == records[n - 1]);
            }
        }
    }
}

proof fn lemma_none_prunable(
    records: Seq<TerminalRecord>,
    keep_count: nat,
    before_ms: int,
    n: int,
)
    requires
        n <= records.len(),
        forall|k: int|
            keep_count <= k < records.len() ==> (#[trigger] records[k]).timestamp_ms >= before_ms,
    ensures
        prunable(records, keep_count, before_ms, n) == Seq::<Seq<char>>::empty(),
    decreases n,
{
    if n > 0 {
        lemma_none_prunable(records, keep_count, before_ms, n - 1);
    }
}

proof fn lemma_distinct_when_sorted(records: Seq<TerminalRecord>)
    requires
        files_distinct(records),
    ensures
        files_distinct(sorted(records)),
{
    broadcast use vstd::seq_lib::group_to_multiset_ensures;

    let all = sorted(records);
    order::lemma_sorted(records);
    assert(records.no_duplicates()) by {
        assert forall|i: int, j: int|
            0 <= i < records.len() && 0 <= j < records.len() && i != j implies records[i]
            != records[j] by {
            if i < j {
                assert(records[i].path@ != records[j].path@);
            } else {
                assert(records[j].path@ != records[i].path@);
            }
        }
    }
    records.lemma_multiset_has_no_duplicates();
    all.lemma_multiset_has_no_duplicates_conv();
    assert forall|i: int, j: int| 0 <= i < j < all.len() implies (#[trigger] all[i]).path@ != (
    #[trigger] all[j]).path@ by {
        assert(all.to_multiset().contains(all[i]));
        assert(all.to_multiset().contains(all[j]));
        assert(records.contains(all[i]));
        assert(records.contains(all[j]));
        let m = choose|m: int| 0 <= m < records.len() && records[m] == all[i];
        let k = choose|k: int| 0 <= k < records.len() && records[k] == all[j];
        assert(all[i] != all[j]);
        if m < k {
            assert(records[m].path@ != records[k].path@);
        } else {
            assert(records[k].path@ != records[m].path@);
        }
    }
}

/// What `serde_json` reads of a member of the JSON object that a text says: the error where the
/// text is no JSON, and otherwise the member's value where it is one that fits in 64 unsigned bits.
pub uninterp spec fn json_u64_member_of(text: Seq<char>, key: Seq<char>) -> Result<
    Option<u64>,
    Seq<char>,
>;

/// Reads a text with `serde_json::from_str`, takes the member `key` with `Value::get`, and its
/// number with `Value::as_u64`. What comes back depends on the text and the key alone.
#[verifier::external_body]
fn json_u64_member(text: &str, key: &str) -> (r: Result<Option<u64>, String>)
    ensures
        match r {
            Ok(value) => json_u64_member_of(text@, key@) == Ok::<Option<u64>, Seq<char>>(value),
            Err(error) => json_u64_member_of(text@, key@) == Err::<Option<u64>, Seq<char>>(error@),
        },
{
    match serde_json::from_str::<serde_json::Value>(text) {
        Ok(value) => Ok(value.get(key).and_then(serde_json::Value::as_u64)),
        Err(error) => Err(error.to_string()),
    }
}

/// When a record was made: when its run completed, or else when it started, or else at the
/// beginning of time.
pub open spec fn recorded_at(completed: Option<u64>, started: Option<u64>) -> u128 {
    match (completed, started) {
        (Some(at), _) => at as u128,
        (None, Some(at)) => at as u128,
        (None, None) => 0,
    }
}

/// When a record was made.
pub fn record_timestamp(completed_at_ms: Option<u64>, started_at_ms: Option<u64>) -> (r: u128)
    ensures
        r == recorded_at(completed_at_ms, started_at_ms),
{
    match (completed_at_ms, started_at_ms) {
        (Some(at), _) => at as u128,
        (None, Some(at)) => at as u128,
        (None, None) => 0,
    }
}

/// When the record that a file holds was made.
pub fn terminal_record_timestamp(path: &str, source: &str) -> (r: Result<u128, MaintenanceError>)
    ensures
        match json_u64_member_of(source@, "completed_at_ms"@) {
            Err(error) => r matches Err(MaintenanceError::ParseJson { path: p, error: e }) && p@
                == path@ && e@ == error,
            Ok(completed) => match json_u64_member_of(source@, "started_at_ms"@) {
                Ok(started) => r is Ok && r->Ok_0 == recorded_at(completed, started),
                Err(error) => r matches Err(MaintenanceError::ParseJson { path: p, error: e })
                    && p@ == path@ && e@ == error,
            },
        },
{
    let completed = match json_u64_member(source, "completed_at_ms") {
        Ok(value) => value,
        Err(error) => {
            return Err(MaintenanceError::ParseJson { path: path.to_owned(), error });
        },
    };
    let started = match json_u64_member(source, "started_at_ms") {
        Ok(value) => value,
        Err(error) => {
            return Err(MaintenanceError::ParseJson { path: path.to_owned(), error });
        },
    };
    Ok(record_timestamp(completed, started))
}

/// How many of the first `n` files have the extension `json`.
pub open spec fn json_count(files: Seq<String>, n: int) -> nat
    decreases n,
{
    if n <= 0 {
        0
    } else {
        json_count(files, n - 1) + (if path::file_extension(files[n - 1]@) == Some("json"@) {
            1nat
        } else {
            0nat
        })
    }
}

/// How many of the files have the extension `json`.
pub fn count_json_files(files: &Vec<String>) -> (r: usize)
    ensures
        r == json_count(files@, files@.len() as int),
{
    let mut count: usize = 0;
    let mut i: usize = 0;
    while i < files.len()
        invariant
            i <= files@.len(),
            count <= i,
            count == json_count(files@, i as int),
        decreases files@.len() - i,
    {
        if path::has_extension(&files[i], "json") {
            count += 1;
        }
        i += 1;
    }
    count
}

// ---------------------------------------------------------------------------
// Authoritative repositories

/// How Git is told a length of time: in the largest unit that holds it exactly.
pub open spec fn approxidate(seconds: nat) -> Seq<char> {
    if seconds == 0 {
        "now"@
    } else if seconds % 86400 == 0 {
        decimal(seconds / 86400) + ".days.ago"@
    } else if seconds % 3600 == 0 {
        decimal(seconds / 3600) + ".hours.ago"@
    } else if seconds % 60 == 0 {
        decimal(seconds / 60) + ".minutes.ago"@
    } else {
        decimal(seconds) + ".seconds.ago"@
    }
}

/// How Git is told a length of time.
pub fn git_approxidate(duration: HumanDuration) -> (r: String)
    ensures
        r@ == approxidate(duration.0.0 as nat),
{
    let seconds = duration.as_duration().as_secs();
    if seconds == 0 {
        return "now".to_owned();
    }
    if seconds % 86400 == 0 {
        concat2(&render_u64(seconds / 86400), ".days.ago")
    } else if seconds % 3600 == 0 {
        concat2(&render_u64(seconds / 3600), ".hours.ago")
    } else if seconds % 60 == 0 {
        concat2(&render_u64(seconds / 60), ".minutes.ago")
    } else {
        concat2(&render_u64(seconds), ".seconds.ago")
    }
}

/// The Git commands that an authoritative repository is swept with, in their order: one that
/// expires reflogs, one that collects what is unreachable.
pub fn authoritative_maintenance_commands(config: &AppConfig) -> (r: (Vec<String>, Vec<String>))
    ensures
        ({
            let reflog = approxidate(config.retention.authoritative_reflog_ttl.0.0 as nat);
            let prune = approxidate(config.retention.authoritative_prune_ttl.0.0 as nat);
            &&& texts(r.0@) == seq![
                "reflog"@,
                "expire"@,
                "--expire="@ + reflog,
                "--expire-unreachable="@ + prune,
                "--all"@,
            ]
            &&& texts(r.1@) == seq!["gc"@, "--prune="@ + prune]
        }),
{
    let reflog = git_approxidate(config.retention.authoritative_reflog_ttl);
    let prune = git_approxidate(config.retention.authoritative_prune_ttl);
    let expire = vec![
        "reflog".to_owned(),
        "expire".to_owned(),
        concat2("--expire=", &reflog),
        concat2("--expire-unreachable=", &prune),
        "--all".to_owned(),
    ];
    let collect = vec!["gc".to_owned(), concat2("--prune=", &prune)];
    proof {
        let reflog = approxidate(config.retention.authoritative_reflog_ttl.0.0 as nat);
        let prune = approxidate(config.retention.authoritative_prune_ttl.0.0 as nat);
        assert(texts(expire@) =~= seq![
            "reflog"@,
            "expire"@,
            "--expire="@ + reflog,
            "--expire-unreachable="@ + prune,
            "--all"@,
        ]);
        assert(texts(collect@) =~= seq!["gc"@, "--prune="@ + prune]);
    }
    (expire, collect)
}

/// What came of sweeping an authoritative repository: it must exist, and both commands must
/// succeed. `expire` and `collect` are what they came to, as far as they ran.
pub open spec fn authoritative_swept(
    config: AppConfig,
    descriptor: RepositoryDescriptor,
    repo_exists: bool,
    expire: Option<GitProcessOutput>,
    collect: Option<GitProcessOutput>,
    r: Result<AuthoritativeMaintenanceReport, MaintenanceError>,
) -> bool {
    match r {
        Ok(report) => {
            &&& repo_exists
            &&& expire->0.success
            &&& collect->0.success
            &&& report.applied
            &&& report.reflog_ttl == config.retention.authoritative_reflog_ttl
            &&& report.prune_ttl == config.retention.authoritative_prune_ttl
        },
        Err(MaintenanceError::RepositoryUnavailable { repo_id, repo_path }) => {
            &&& !repo_exists
            &&& repo_id@ == descriptor.repo_id@
            &&& repo_path@ == descriptor.repo_path@
        },
        Err(MaintenanceError::Git { args, status, detail }) => {
            let failed = if !expire->0.success {
                expire->0
            } else {
                collect->0
            };
            &&& repo_exists
            &&& !failed.success
            &&& args == failed.args
            &&& status == failed.status
            &&& detail@ == failure_text(failed)
        },
        Err(_) => false,
    }
}

/// What came of sweeping an authoritative repository.
pub fn apply_authoritative_maintenance(
    config: &AppConfig,
    descriptor: &RepositoryDescriptor,
    repo_exists: bool,
    expire: Option<GitProcessOutput>,
    collect: Option<GitProcessOutput>,
) -> (r: Result<AuthoritativeMaintenanceReport, MaintenanceError>)
    requires
        repo_exists ==> expire is Some && (expire->0.success ==> collect is Some),
    ensures
        authoritative_swept(*config, *descriptor, repo_exists, expire, collect, r),
{
    if !repo_exists {
        return Err(
            MaintenanceError::RepositoryUnavailable {
                repo_id: descriptor.repo_id.clone(),
                repo_path: descriptor.repo_path.clone(),
            },
        );
    }
    match expire {
        Some(output) => {
            if !output.success {
                let detail = format_git_failure(&output);
                return Err(
                    MaintenanceError::Git { args: output.args, status: output.status, detail },
                );
            }
        },
        None => {},
    }
    match collect {
        Some(output) => {
            if !output.success {
                let detail = format_git_failure(&output);
                return Err(
                    MaintenanceError::Git { args: output.args, status: output.status, detail },
                );
            }
        },
        None => {},
    }
    Ok(
        AuthoritativeMaintenanceReport {
            applied: true,
            reflog_ttl: config.retention.authoritative_reflog_ttl,
            prune_ttl: config.retention.authoritative_prune_ttl,
        },
    )
}

// ---------------------------------------------------------------------------
// Reports

impl Ordered for RepositoryMaintenanceReport {
    open spec fn le(&self, other: &Self) -> bool {
        text_le(self.repo_id@, other.repo_id@)
    }

    proof fn total(a: &Self, b: &Self) {
        order::lemma_text_le_total(a.repo_id@, b.repo_id@);
    }

    proof fn transitive(a: &Self, b: &Self, c: &Self) {
        order::lemma_text_le_trans(a.repo_id@, b.repo_id@, c.repo_id@);
    }

    fn not_after(&self, other: &Self) -> (r: bool) {
        order::not_after(&self.repo_id, &other.repo_id)
    }
}

/// Whether a report is that on a repository whose maintenance failed.
pub open spec fn reports_failure(
    descriptor: RepositoryDescriptor,
    error: MaintenanceError,
    started_at_ms: u128,
    completed_at_ms: u128,
    r: RepositoryMaintenanceReport,
) -> bool {
    &&& r.repo_id@ == descriptor.repo_id@
    &&& r.repo_path@ == descriptor.repo_path@
    &&& r.repo_mode == descriptor.mode
    &&& r.started_at_ms == started_at_ms
    &&& r.completed_at_ms == completed_at_ms
    &&& r.evidence_pruned == nothing_pruned()
    &&& r.cache is None
    &&& r.authoritative is None
    &&& text_of(r.error) == Some(error.message_text())
}

/// The counts of a sweep that has removed nothing.
pub open spec fn nothing_pruned() -> TerminalEvidencePruneReport {
    TerminalEvidencePruneReport {
        reconcile_runs_removed: 0,
        upstream_probe_runs_removed: 0,
        matrix_probe_runs_removed: 0,
    }
}

/// The report on a repository whose maintenance failed.
pub fn failed_report(
    descriptor: &RepositoryDescriptor,
    error: &MaintenanceError,
    started_at_ms: u128,
    completed_at_ms: u128,
) -> (r: RepositoryMaintenanceReport)
    ensures
        reports_failure(*descriptor, *error, started_at_ms, completed_at_ms, r),
{
    RepositoryMaintenanceReport {
        repo_id: descriptor.repo_id.clone(),
        repo_path: descriptor.repo_path.clone(),
        repo_mode: descriptor.mode,
        started_at_ms,
        completed_at_ms,
        evidence_pruned: TerminalEvidencePruneReport {
            reconcile_runs_removed: 0,
            upstream_probe_runs_removed: 0,
            matrix_probe_runs_removed: 0,
        },
        cache: None,
        authoritative: None,
        error: Some(error.message()),
    }
}

/// Whether a report is another that could not be kept: it says so beside what it said before.
pub open spec fn reports_loss(
    report: RepositoryMaintenanceReport,
    error: MaintenanceError,
    r: RepositoryMaintenanceReport,
) -> bool {
    &&& text_of(r.error) == Some(
        match report.error {
            Some(existing) => existing@ + " | failed to persist maintenance report: "@
                + error.message_text(),
            None => "failed to persist maintenance report: "@ + error.message_text(),
        },
    )
    &&& r == (RepositoryMaintenanceReport { error: r.error, ..report })
}

/// The report where it could not be kept.
pub fn unpersisted_report(report: RepositoryMaintenanceReport, error: &MaintenanceError) -> (r:
    RepositoryMaintenanceReport)
    ensures
        reports_loss(report, *error, r),
{
    let mut report = report;
    let error = match &report.error {
        Some(existing) => concat3(
            existing,
            " | failed to persist maintenance report: ",
            &error.message(),
        ),
        None => concat2("failed to persist maintenance report: ", &error.message()),
    };
    report.error = Some(error);
    report
}

/// The reports of a sweep in the order of their repositories.
pub fn reports_by_repository(reports: Vec<RepositoryMaintenanceReport>) -> (r: Vec<
    RepositoryMaintenanceReport,
>)
    ensures
        r@ == sorted(reports@),
{
    order::sort(reports)
}

// ---------------------------------------------------------------------------
// Files

/// Where the last report on a repository is kept.
pub fn last_report_path(state_root: &str, repo_id: &str) -> (r: String)
    ensures
        r@ == joined_path(
            joined_path(joined_path(state_root@, "retention"@), "maintenance"@),
            path_component(repo_id@) + ".json"@,
        ),
{
    let dir = path::join(&path::join(state_root, "retention"), "maintenance");
    path::join(&dir, &concat2(&sanitize_path_component(repo_id), ".json"))
}

/// The directory of a repository's records of one kind.
pub open spec fn record_dir(
    state_root: Seq<char>,
    area: Seq<char>,
    kind: Seq<char>,
    repo_id: Seq<char>,
) -> Seq<char> {
    joined_path(joined_path(joined_path(state_root, area), kind), path_component(repo_id))
}

fn record_directory(state_root: &str, area: &str, kind: &str, repo_id: &str) -> (r: String)
    ensures
        r@ == record_dir(state_root@, area@, kind@, repo_id@),
{
    let dir = path::join(&path::join(state_root, area), kind);
    path::join(&dir, &sanitize_path_component(repo_id))
}

pub fn reconcile_run_directory(state_root: &str, repo_id: &str) -> (r: String)
    ensures
        r@ == record_dir(state_root@, "reconcile"@, "runs"@, repo_id@),
{
    record_directory(state_root, "reconcile", "runs", repo_id)
}

pub fn upstream_probe_run_directory(state_root: &str, repo_id: &str) -> (r: String)
    ensures
        r@ == record_dir(state_root@, "upstream-probes"@, "runs"@, repo_id@),
{
    record_directory(state_root, "upstream-probes", "runs", repo_id)
}

pub fn matrix_probe_run_directory(state_root: &str, repo_id: &str) -> (r: String)
    ensures
        r@ == record_dir(state_root@, "upstream-probes"@, "matrix-runs"@, repo_id@),
{
    record_directory(state_root, "upstream-probes", "matrix-runs", repo_id)
}

// ---------------------------------------------------------------------------
// What maintenance decides

/// Maintenance that was done is due again exactly where the interval has passed since; what was
/// never maintained is due at once.
pub proof fn law_maintenance_is_due(
    report: RepositoryMaintenanceReport,
    interval: HumanDuration,
    now_ms: u128,
)
    ensures
        is_due(None, interval, now_ms),
        interval.0.0 > 0 ==> (is_due(Some(report), interval, now_ms) <==> now_ms
            >= report.completed_at_ms + interval.0.0 * 1000),
{
}

/// A repository is swept exactly where it is ready and its maintenance is due or unknown.
pub proof fn law_ready_repositories_are_swept(
    descriptor: RepositoryDescriptor,
    status: RepoRetentionStatus,
)
    ensures
        selected(descriptor, None) <==> descriptor.lifecycle == RepositoryLifecycle::Ready,
        selected(descriptor, Some(status)) <==> descriptor.lifecycle == RepositoryLifecycle::Ready
            && status.due_now,
{
}

/// What becomes of a cache. One that cannot be reached is not maintained; one that is pinned, empty,
/// or without a trace of its use stays; any other goes exactly where it was not used for as long as
/// the limit, and the reason is told.
pub proof fn law_fate_of_caches(
    config: AppConfig,
    descriptor: RepositoryDescriptor,
    status: CacheRetentionStatus,
    now_ms: u128,
    r: Result<CacheDecision, MaintenanceError>,
)
    requires
        cache_decided(config, descriptor, status, now_ms, r),
    ensures
        r is Err <==> !status.repo_accessible,
        status.repo_accessible && status.pinned ==> r->Ok_0 is Retain && r->Ok_0->Retain_0.outcome
            == CacheMaintenanceOutcome::PinnedRetained,
        status.repo_accessible && !status.pinned && status.has_visible_refs != Some(true)
            ==> r->Ok_0 is Retain && r->Ok_0->Retain_0.outcome
            == CacheMaintenanceOutcome::EmptyRetained,
        status.repo_accessible && !status.pinned && status.has_visible_refs == Some(true)
            && status.last_activity_at_ms is None ==> r->Ok_0 is Retain
            && r->Ok_0->Retain_0.outcome == CacheMaintenanceOutcome::NoActivityEvidenceRetained,
        status.repo_accessible && !status.pinned && status.has_visible_refs == Some(true)
            && status.last_activity_at_ms is Some && status.last_activity_at_ms->0 <= now_ms ==> {
            let idle = now_ms - status.last_activity_at_ms->0;
            &&& r->Ok_0 is Evict <==> idle >= config.retention.cache_idle_ttl.0.0 * 1000
            &&& r->Ok_0 is Retain ==> r->Ok_0->Retain_0.outcome
                == CacheMaintenanceOutcome::RecentRetained
        },
        r is Ok && r->Ok_0 is Retain ==> r->Ok_0->Retain_0.removed_visible_ref_count == 0
            && r->Ok_0->Retain_0.pinned == status.pinned
            && r->Ok_0->Retain_0.last_activity_at_ms == status.last_activity_at_ms,
{
}

/// Pruning lets go of every record that is old and not among the newest: it removes as much as it
/// may.
pub proof fn law_old_records_go(
    ordered: Seq<TerminalRecord>,
    keep_count: nat,
    before_ms: int,
    n: int,
    i: int,
)
    requires
        keep_count <= i < n <= ordered.len(),
        ordered[i].timestamp_ms < before_ms,
    ensures
        prunable(ordered, keep_count, before_ms, n).contains(ordered[i].path@),
    decreases n,
{
    let all = prunable(ordered, keep_count, before_ms, n);
    if i < n - 1 {
        law_old_records_go(ordered, keep_count, before_ms, n - 1, i);
        let before = prunable(ordered, keep_count, before_ms, n - 1);
        let k = choose|k: int| 0 <= k < before.len() && before[k] == ordered[i].path@;
        assert(all[k] == before[k]);
    } else {
        assert(all[all.len() - 1] == ordered[i].path@);
    }
}

/// A record is old exactly where more time than the limit has passed since it was made.
pub proof fn law_old_records(timestamp_ms: u128, ttl: HumanDuration, now_ms: u128)
    ensures
        timestamp_ms < cutoff(now_ms, ttl) <==> timestamp_ms + ttl.0.0 * 1000 < now_ms,
{
}

/// A record counts from when its run completed, and only where that is not told from when it
/// started; one that tells neither is the oldest.
pub proof fn law_records_count_from_their_completion(completed: u64, started: Option<u64>)
    ensures
        recorded_at(Some(completed), started) == completed,
        started is Some ==> recorded_at(None, started) == started->0,
        started is None ==> recorded_at(None, started) == 0,
{
}

/// Git is told a length of time exactly: as a number of days, hours, minutes or seconds that make
/// it up, and as the present where there is none.
pub proof fn law_lengths_of_time_are_told_exactly(seconds: nat)
    ensures
        seconds == 0 ==> approxidate(seconds) == "now"@,
        seconds > 0 ==> exists|n: nat|
            {
                ||| approxidate(seconds) == #[trigger] decimal(n) + ".days.ago"@ && n * 86400
                    == seconds
                ||| approxidate(seconds) == decimal(n) + ".hours.ago"@ && n * 3600 == seconds
                ||| approxidate(seconds) == decimal(n) + ".minutes.ago"@ && n * 60 == seconds
                ||| approxidate(seconds) == decimal(n) + ".seconds.ago"@ && n == seconds
            },
{
    if seconds > 0 {
        let n = if seconds % 86400 == 0 {
            seconds / 86400
        } else if seconds % 3600 == 0 {
            seconds / 3600
        } else if seconds % 60 == 0 {
            seconds / 60
        } else {
            seconds
        };
        assert(decimal(n) + ".days.ago"@ == decimal(n) + ".days.ago"@);
        if seconds % 86400 == 0 {
            assert(n * 86400 == seconds);
        } else if seconds % 3600 == 0 {
            assert(n * 3600 == seconds);
        } else if seconds % 60 == 0 {
            assert(n * 60 == seconds);
        }
    }
}

/// An authoritative repository counts as swept exactly where it is there and both commands
/// succeeded; otherwise the first that failed is told.
pub proof fn law_swept_repositories(
    config: AppConfig,
    descriptor: RepositoryDescriptor,
    repo_exists: bool,
    expire: GitProcessOutput,
    collect: GitProcessOutput,
    r: Result<AuthoritativeMaintenanceReport, MaintenanceError>,
)
    requires
        authoritative_swept(config, descriptor, repo_exists, Some(expire), Some(collect), r),
    ensures
        r is Ok <==> repo_exists && expire.success && collect.success,
        r is Ok ==> r->Ok_0.applied && r->Ok_0.reflog_ttl
            == config.retention.authoritative_reflog_ttl && r->Ok_0.prune_ttl
            == config.retention.authoritative_prune_ttl,
        !repo_exists ==> r->Err_0 is RepositoryUnavailable,
        repo_exists && !expire.success ==> r->Err_0 is Git && r->Err_0->Git_args == expire.args,
        repo_exists && expire.success && !collect.success ==> r->Err_0 is Git
            && r->Err_0->Git_args == collect.args,
{
}

/// The count of records is the number of files with the extension `json`.
pub proof fn law_records_are_json_files(files: Seq<String>, n: int)
    requires
        0 <= n <= files.len(),
    ensures
        json_count(files, n) == files.take(n).filter(
            |file: String| path::file_extension(file@) == Some("json"@),
        ).len(),
    decreases n,
{
    reveal(Seq::filter);
    if n > 0 {
        law_records_are_json_files(files, n - 1);
        assert(files.take(n).drop_last() =~= files.take(n - 1));
    }
}

/// A report on maintenance that failed claims nothing but the failure, and one that could not be
/// kept says so and nothing else new.
pub proof fn law_failed_maintenance_is_told(
    descriptor: RepositoryDescriptor,
    error: MaintenanceError,
    started_at_ms: u128,
    completed_at_ms: u128,
    r: RepositoryMaintenanceReport,
    lost: RepositoryMaintenanceReport,
)
    requires
        reports_failure(descriptor, error, started_at_ms, completed_at_ms, r),
        reports_loss(r, error, lost),
    ensures
        r.repo_id@ == descriptor.repo_id@,
        r.error is Some,
        r.error->0@ == error.message_text(),
        r.cache is None,
        r.authoritative is None,
        r.evidence_pruned.reconcile_runs_removed == 0,
        r.evidence_pruned.upstream_probe_runs_removed == 0,
        r.evidence_pruned.matrix_probe_runs_removed == 0,
        lost.error is Some,
        crate::text::begins(lost.error->0@, r.error->0@),
        crate::text::ends(
            lost.error->0@,
            "failed to persist maintenance report: "@ + error.message_text(),
        ),
        lost.repo_id == r.repo_id,
        lost.completed_at_ms == r.completed_at_ms,
        lost.evidence_pruned == r.evidence_pruned,
{
    reveal_strlit(" | failed to persist maintenance report: ");
    reveal_strlit("failed to persist maintenance report: ");
    let said = lost.error->0@;
    let first = r.error->0@;
    let tail = "failed to persist maintenance report: "@ + error.message_text();
    assert(said.take(first.len() as int) =~= first);
    assert(said.skip(said.len() - tail.len()) =~= tail);
}

} // verus!
