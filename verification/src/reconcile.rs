//! Bringing upstreams to the state of an authoritative repository: observe, compute, apply,
//! observe.

use crate::classification::{RepositorySafetyState, UpstreamConvergenceState};
use crate::config::{
    lifecycle_name, lifecycle_text, mode_name, mode_text, AuthorityModel, RepositoryDescriptor,
    RepositoryLifecycle, RepositoryMode, WriteUpstream,
};
use crate::git::{
    debug_list, debug_list_text, failure_text, format_git_failure, render_status, status_text,
    GitProcessOutput, GitReply,
};
use crate::locking::{breakable, is_breakable};
use crate::order::{self, lemma_sorted_view, sorted, sorted_by, text_le, Ordered};
use crate::path::{self, absolute, joined_path};
use crate::refs::{
    by_ref_name, copy_entries, entry_text, entry_texts, exported, exported_entries,
    first_malformed, glob_refspec, internal, law_exported_refs_are_not_internal, listed, malformed_line,
    parse_ref_snapshot, retain_exported, same_refs, same_snapshot, some_malformed, takes,
};
use crate::sanitize::{
    law_path_component_is_safe, path_component, ref_component, sanitize_path_component,
    sanitize_ref_component,
};
use crate::text::{
    after, begins, chars_of, concat2, concat3, concat4, concat5, contains, copy_option, holds,
    lemma_run_is, lines, lines_of, list_holds, lowered, not_space, run, same, space, string_of,
    strip_prefix, text_of, texts, to_lower, trim, trimmed,
};
use crate::upstream::{atomic_probe_args, atomic_probe_command};
use crate::validator::all_exportable;
use vstd::prelude::*;

pub use crate::refs::RefSnapshotEntry;
pub use crate::run::reconcile_repository;
pub use crate::upstream::AtomicCapabilityVerdict;

verus! {

#[derive(Debug, Clone, Copy, PartialEq, Eq, Structural)]
pub enum ReconcileRunStatus {
    InProgress,
    Completed,
    Superseded,
}

#[derive(Debug, Clone, PartialEq, Eq)]
pub struct ReconcileUpstreamResult {
    pub upstream_id: String,
    pub require_atomic: bool,
    pub state: UpstreamConvergenceState,
    pub divergent: bool,
    pub apply_attempted: bool,
    pub detail: Option<String>,
    pub atomic_capability: Option<AtomicCapabilityVerdict>,
    pub observed_before: Vec<RefSnapshotEntry>,
    pub observed_after: Vec<RefSnapshotEntry>,
}

#[derive(Debug, Clone, PartialEq, Eq)]
pub struct ReconcileRunRecord {
    pub run_id: String,
    pub repo_id: String,
    pub repo_path: String,
    pub started_at_ms: u128,
    pub completed_at_ms: Option<u128>,
    pub desired_snapshot: Vec<RefSnapshotEntry>,
    pub captured_upstreams: Vec<String>,
    pub repo_safety: RepositorySafetyState,
    pub status: ReconcileRunStatus,
    pub superseded_by: Option<String>,
    pub upstream_results: Vec<ReconcileUpstreamResult>,
}

#[derive(Debug, Clone, PartialEq, Eq)]
pub struct PendingReconcileRequest {
    pub repo_id: String,
    pub repo_path: String,
    pub requested_at_ms: u128,
    pub last_push_id: Option<String>,
    pub last_request_id: Option<String>,
}

#[derive(Debug, Clone, PartialEq, Eq)]
pub struct DivergenceMarker {
    pub repo_id: String,
    pub upstream_id: String,
    pub run_id: String,
    pub recorded_at_ms: u128,
    pub detail: Option<String>,
}

/// What a lock says of the run that holds it.
#[derive(Debug, Clone, PartialEq, Eq)]
pub struct LockMetadata {
    pub repo_id: String,
    pub run_id: String,
    pub pid: u32,
    pub acquired_at_ms: u128,
}

/// What is left behind by a run that has not ended.
#[derive(Debug, Clone, PartialEq, Eq)]
pub struct InProgressMarker {
    pub repo_id: String,
    pub run_id: String,
    pub pid: u32,
    pub started_at_ms: u128,
}

#[derive(Debug, Clone, PartialEq, Eq)]
pub struct ReplicationStatus {
    pub repo_id: String,
    pub pending_request: Option<PendingReconcileRequest>,
    pub latest_run: Option<ReconcileRunRecord>,
}

#[derive(Debug, Clone)]
pub enum ReconcileError {
    UnsupportedRepositoryMode { repo_id: String, mode: RepositoryMode },
    RepositoryNotReady { repo_id: String, lifecycle: RepositoryLifecycle },
    RunInProgress { repo_id: String },
    CreateDir { path: String, error: String },
    Read { path: String, error: String },
    Write { path: String, error: String },
    WriteGitInput { args: Vec<String>, error: String },
    ParseJson { path: String, error: String },
    SpawnGit { args: Vec<String>, error: String },
    Git { args: Vec<String>, status: Option<i32>, detail: String },
}

impl ReconcileError {
    pub open spec fn message_text(self) -> Seq<char> {
        match self {
            ReconcileError::UnsupportedRepositoryMode { repo_id, mode } => "repository "@ + repo_id@ + " is "@ + mode_text(mode) + "; manual reconcile is supported only for authoritative repositories"@,
            ReconcileError::RepositoryNotReady { repo_id, lifecycle } => "repository "@ + repo_id@ + " is "@ + lifecycle_text(lifecycle) + "; manual reconcile requires lifecycle ready"@,
            ReconcileError::RunInProgress { repo_id } => "repository "@ + repo_id@ + " already has a live reconcile run in progress"@,
            ReconcileError::WriteGitInput { args, error } => "failed to write git input for args "@ + debug_list_text(texts(args@)) + ": "@ + error@,
            ReconcileError::CreateDir { path, error } => "failed to create directory "@ + path@ + ": "@ + error@,
            ReconcileError::Read { path, error } => "failed to read "@ + path@ + ": "@ + error@,
            ReconcileError::Write { path, error } => "failed to write "@ + path@ + ": "@ + error@,
            ReconcileError::ParseJson { path, error } => "failed to parse JSON "@ + path@ + ": "@ + error@,
            ReconcileError::SpawnGit { args, error } => "failed to run git "@ + debug_list_text(texts(args@)) + ": "@ + error@,
            ReconcileError::Git { args, status, detail } => "git failed for args "@ + debug_list_text(texts(args@)) + " with status "@ + status_text(status) + ": "@ + detail@,
        }
    }

    /// The error in words.
    pub fn message(&self) -> (r: String)
        ensures
            r@ == self.message_text(),
    {
        match self {
            ReconcileError::UnsupportedRepositoryMode { repo_id, mode } => concat5("repository ", repo_id, " is ", mode_name(*mode), "; manual reconcile is supported only for authoritative repositories"),
            ReconcileError::RepositoryNotReady { repo_id, lifecycle } => concat5("repository ", repo_id, " is ", lifecycle_name(*lifecycle), "; manual reconcile requires lifecycle ready"),
            ReconcileError::RunInProgress { repo_id } => concat3("repository ", repo_id, " already has a live reconcile run in progress"),
            ReconcileError::WriteGitInput { args, error } => concat4("failed to write git input for args ", &debug_list(args), ": ", error),
            ReconcileError::CreateDir { path, error } => concat4("failed to create directory ", path, ": ", error),
            ReconcileError::Read { path, error } => concat4("failed to read ", path, ": ", error),
            ReconcileError::Write { path, error } => concat4("failed to write ", path, ": ", error),
            ReconcileError::ParseJson { path, error } => concat4("failed to parse JSON ", path, ": ", error),
            ReconcileError::SpawnGit { args, error } => concat4("failed to run git ", &debug_list(args), ": ", error),
            ReconcileError::Git { args, status, detail } => {
                let head = concat5("git failed for args ", &debug_list(args), " with status ", &render_status(*status), ": ");
                concat2(&head, detail)
            },
        }
    }
}

// ---------------------------------------------------------------------------
// Internal references

/// Where the references that were observed on an upstream are kept.
pub open spec fn observed_prefix(upstream_id: Seq<char>) -> Seq<char> {
    "refs/git-relay/upstreams/"@ + ref_component(upstream_id)
}

/// The marker of an upstream's divergence.
pub open spec fn divergence_ref(upstream_id: Seq<char>) -> Seq<char> {
    "refs/git-relay/safety/divergent/"@ + ref_component(upstream_id)
}

/// Where the references that were observed on an upstream are kept.
pub fn observed_ref_prefix(upstream_id: &str) -> (r: String)
    ensures
        r@ == observed_prefix(upstream_id@),
{
    concat2("refs/git-relay/upstreams/", &sanitize_ref_component(upstream_id))
}

/// The marker of an upstream's divergence.
pub fn divergence_ref_name(upstream_id: &str) -> (r: String)
    ensures
        r@ == divergence_ref(upstream_id@),
{
    concat2("refs/git-relay/safety/divergent/", &sanitize_ref_component(upstream_id))
}

/// What the relay records of an upstream stays under its internal namespace, whatever the
/// upstream is called.
pub proof fn law_relay_state_stays_internal(upstream_id: Seq<char>)
    ensures
        internal(observed_prefix(upstream_id)),
        internal(divergence_ref(upstream_id)),
{
    reveal_strlit("refs/git-relay/");
    reveal_strlit("refs/git-relay/upstreams/");
    reveal_strlit("refs/git-relay/safety/divergent/");
    assert(observed_prefix(upstream_id).take(15) =~= "refs/git-relay/"@);
    assert(divergence_ref(upstream_id).take(15) =~= "refs/git-relay/"@);
}

// ---------------------------------------------------------------------------
// What upstreams were seen to hold

/// The public name of a reference that was observed on an upstream; `None` where it is none.
pub open spec fn public_name(upstream_id: Seq<char>, name: Seq<char>) -> Option<Seq<char>> {
    let prefix = observed_prefix(upstream_id);
    match after(name, prefix + "/heads/"@) {
        Some(rest) => Some("refs/heads/"@ + rest),
        None => match after(name, prefix + "/tags/"@) {
            Some(rest) => Some("refs/tags/"@ + rest),
            None => None,
        },
    }
}

/// The public name of a reference that was observed on an upstream.
fn to_public_name(upstream_id: &str, name: &str) -> (r: Option<String>)
    ensures
        text_of(r) == public_name(upstream_id@, name@),
{
    let prefix = observed_ref_prefix(upstream_id);
    match strip_prefix(name, &concat2(&prefix, "/heads/")) {
        Some(rest) => Some(concat2("refs/heads/", &rest)),
        None => match strip_prefix(name, &concat2(&prefix, "/tags/")) {
            Some(rest) => Some(concat2("refs/tags/", &rest)),
            None => None,
        },
    }
}

/// Whether every entry names a reference that was observed on an upstream.
pub open spec fn all_observed(
    upstream_id: Seq<char>,
    entries: Seq<(Seq<char>, Seq<char>)>,
) -> bool {
    forall|i: int|
        0 <= i < entries.len() ==> public_name(upstream_id, (#[trigger] entries[i]).0) is Some
}

/// The entries under their public names.
pub open spec fn published(
    upstream_id: Seq<char>,
    entries: Seq<(Seq<char>, Seq<char>)>,
) -> Seq<(Seq<char>, Seq<char>)> {
    Seq::new(
        entries.len(),
        |i: int|
            match public_name(upstream_id, entries[i].0) {
                Some(name) => (name, entries[i].1),
                None => entries[i],
            },
    )
}

/// The entries of a listing, ordered by reference.
pub open spec fn listing(source: Seq<char>) -> Seq<(Seq<char>, Seq<char>)> {
    sorted_by(listed(lines_of(source)), by_ref_name())
}

/// The snapshot of an upstream that a listing of the internal references says.
pub open spec fn observed_snapshot(upstream_id: Seq<char>, source: Seq<char>) -> Seq<
    (Seq<char>, Seq<char>),
> {
    sorted_by(published(upstream_id, listing(source)), by_ref_name())
}

/// Whether a listing of the internal references of an upstream can be read.
pub open spec fn observed_readable(upstream_id: Seq<char>, source: Seq<char>) -> bool {
    !some_malformed(lines_of(source)) && all_observed(upstream_id, listing(source))
}

/// Whether an error is that of a listing of internal references that cannot be read: it names the
/// first malformed line, or else the first reference that is none of the upstream's.
pub open spec fn observed_unreadable(
    upstream_id: Seq<char>,
    source: Seq<char>,
    e: ReconcileError,
) -> bool {
    if some_malformed(lines_of(source)) {
        e matches ReconcileError::Git { args, status, detail } && texts(args@) == seq![
            "parse-ref-snapshot"@,
        ] && status is None && exists|line: Seq<char>| #[trigger]
            first_malformed(lines_of(source), line) && detail@ == "malformed ref line "@ + line
    } else {
        e matches ReconcileError::Git { args, status, detail } && texts(args@) == seq![
            "parse-internal-observed-snapshot"@,
        ] && status is None && exists|i: int|
            {
                &&& 0 <= i < listing(source).len()
                &&& public_name(upstream_id, (#[trigger] listing(source)[i]).0) is None
                &&& forall|j: int|
                    0 <= j < i ==> public_name(upstream_id, (#[trigger] listing(source)[j]).0)
                        is Some
                &&& detail@ == "unexpected internal observed ref "@ + listing(source)[i].0
            }
    }
}

/// The snapshot of an upstream that a listing of the internal references says.
pub fn parse_internal_observed_snapshot(upstream_id: &str, source: &str) -> (r: Result<
    Vec<RefSnapshotEntry>,
    ReconcileError,
>)
    ensures
        match r {
            Ok(entries) => {
                &&& observed_readable(upstream_id@, source@)
                &&& entry_texts(entries@) == observed_snapshot(upstream_id@, source@)
            },
            Err(e) => observed_unreadable(upstream_id@, source@, e),
        },
{
    let raw = match parse_ref_snapshot(source) {
        Ok(entries) => entries,
        Err(line) => {
            let detail = concat2("malformed ref line ", &line);
            proof {
                let ls = lines_of(source@);
                assert(first_malformed(ls, line@));
                let i = choose|i: int|
                    {
                        &&& 0 <= i < ls.len()
                        &&& trimmed(#[trigger] ls[i]) == line@
                        &&& malformed_line(line@)
                        &&& forall|j: int| 0 <= j < i ==> !malformed_line(trimmed(#[trigger] ls[j]))
                    };
                assert(malformed_line(trimmed(ls[i])));
                assert(some_malformed(ls));
            }
            let args = vec!["parse-ref-snapshot".to_owned()];
            assert(texts(args@) =~= seq!["parse-ref-snapshot"@]);
            return Err(ReconcileError::Git { args, status: None, detail });
        },
    };
    let ghost all = listing(source@);
    let mut refs: Vec<RefSnapshotEntry> = Vec::new();
    let mut i: usize = 0;
    while i < raw.len()
        invariant
            i <= raw@.len(),
            all == listing(source@),
            entry_texts(raw@) == all,
            !some_malformed(lines_of(source@)),
            refs@.len() == i,
            forall|j: int|
                0 <= j < i ==> public_name(upstream_id@, (#[trigger] all[j]).0) is Some,
            forall|j: int|
                0 <= j < i ==> (refs@[j].ref_name@, refs@[j].oid@) == #[trigger] published(
                    upstream_id@,
                    all,
                )[j],
        decreases raw@.len() - i,
    {
        assert(all[i as int] == (raw@[i as int].ref_name@, raw@[i as int].oid@));
        match to_public_name(upstream_id, &raw[i].ref_name) {
            Some(ref_name) => {
                refs.push(RefSnapshotEntry { ref_name, oid: raw[i].oid.clone() });
            },
            None => {
                let args = vec!["parse-internal-observed-snapshot".to_owned()];
                assert(texts(args@) =~= seq!["parse-internal-observed-snapshot"@]);
                let detail = concat2("unexpected internal observed ref ", &raw[i].ref_name);
                return Err(ReconcileError::Git { args, status: None, detail });
            },
        }
        i += 1;
    }
    proof {
        assert(entry_texts(refs@) =~= published(upstream_id@, all));
        lemma_sorted_view(refs@, entry_text(), by_ref_name());
    }
    Ok(order::sort(refs))
}

// ---------------------------------------------------------------------------
// Decisions

/// Whether an upstream of an authoritative repository diverged: it holds neither what it was last
/// seen to hold nor what it should hold.
pub open spec fn diverged(
    authority_model: AuthorityModel,
    previous: Seq<RefSnapshotEntry>,
    before: Seq<RefSnapshotEntry>,
    desired: Seq<RefSnapshotEntry>,
) -> bool {
    &&& authority_model == AuthorityModel::RelayAuthoritative
    &&& previous.len() > 0
    &&& !same_refs(previous, before)
    &&& !same_refs(before, desired)
}

/// Whether an upstream of an authoritative repository diverged.
pub fn detect_divergence(
    authority_model: AuthorityModel,
    previous_observed: &Vec<RefSnapshotEntry>,
    observed_before: &Vec<RefSnapshotEntry>,
    desired_snapshot: &Vec<RefSnapshotEntry>,
) -> (r: bool)
    ensures
        r == diverged(
            authority_model,
            previous_observed@,
            observed_before@,
            desired_snapshot@,
        ),
{
    authority_model == AuthorityModel::RelayAuthoritative && previous_observed.len() > 0
        && !same_snapshot(previous_observed, observed_before) && !same_snapshot(
        observed_before,
        desired_snapshot,
    )
}

/// How safe a repository is after its upstreams were reconciled: divergent where one diverged,
/// healthy where all are in sync, and degraded otherwise.
pub open spec fn safety_after(results: Seq<ReconcileUpstreamResult>) -> RepositorySafetyState {
    if exists|i: int| 0 <= i < results.len() && (#[trigger] results[i]).divergent {
        RepositorySafetyState::Divergent
    } else if forall|i: int|
        0 <= i < results.len() ==> (#[trigger] results[i]).state
            == UpstreamConvergenceState::InSync {
        RepositorySafetyState::Healthy
    } else {
        RepositorySafetyState::Degraded
    }
}

/// How safe a repository is after its upstreams were reconciled.
pub fn classify_repository_safety(results: &Vec<ReconcileUpstreamResult>) -> (r:
    RepositorySafetyState)
    ensures
        r == safety_after(results@),
{
    let mut in_sync = true;
    let mut i: usize = 0;
    while i < results.len()
        invariant
            i <= results@.len(),
            forall|j: int| 0 <= j < i ==> !(#[trigger] results@[j]).divergent,
            in_sync == (forall|j: int|
                0 <= j < i ==> (#[trigger] results@[j]).state == UpstreamConvergenceState::InSync),
        decreases results@.len() - i,
    {
        if results[i].divergent {
            assert(results@[i as int].divergent);
            return RepositorySafetyState::Divergent;
        }
        if results[i].state != UpstreamConvergenceState::InSync {
            assert(results@[i as int].state != UpstreamConvergenceState::InSync);
            in_sync = false;
        }
        i += 1;
    }
    if in_sync {
        RepositorySafetyState::Healthy
    } else {
        RepositorySafetyState::Degraded
    }
}

/// What a push sends: each reference to itself.
pub open spec fn push_refspecs(entries: Seq<RefSnapshotEntry>) -> Seq<Seq<char>> {
    Seq::new(entries.len(), |i: int| entries[i].ref_name@ + ":"@ + entries[i].ref_name@)
}

/// What a push sends: each reference to itself.
pub fn build_push_refspecs(snapshot: &Vec<RefSnapshotEntry>) -> (r: Vec<String>)
    ensures
        texts(r@) == push_refspecs(snapshot@),
{
    let mut out: Vec<String> = Vec::new();
    let mut i: usize = 0;
    while i < snapshot.len()
        invariant
            i <= snapshot@.len(),
            out@.len() == i,
            forall|j: int| 0 <= j < i ==> (#[trigger] out@[j])@ == push_refspecs(snapshot@)[j],
        decreases snapshot@.len() - i,
    {
        let name = &snapshot[i].ref_name;
        out.push(concat3(name, ":", name));
        i += 1;
    }
    assert(texts(out@) =~= push_refspecs(snapshot@));
    out
}

/// No push of references that patterns over branches and tags export names an internal one.
pub proof fn law_internal_refs_are_never_pushed(
    patterns: Seq<String>,
    snapshot: Seq<RefSnapshotEntry>,
)
    requires
        all_exportable(patterns),
        forall|i: int|
            0 <= i < snapshot.len() ==> exported(
                texts(patterns),
                (#[trigger] snapshot[i]).ref_name@,
            ),
    ensures
        forall|i: int| 0 <= i < snapshot.len() ==> !internal((#[trigger] snapshot[i]).ref_name@),
        forall|i: int|
            0 <= i < snapshot.len() ==> !internal(#[trigger] push_refspecs(snapshot)[i]),
{
    assert forall|i: int| 0 <= i < snapshot.len() implies !internal(
        (#[trigger] snapshot[i]).ref_name@,
    ) by {
        law_exported_refs_are_not_internal(patterns, snapshot[i].ref_name@);
    }
    assert forall|i: int| 0 <= i < snapshot.len() implies !internal(
        #[trigger] push_refspecs(snapshot)[i],
    ) by {
        let name = snapshot[i].ref_name@;
        law_exported_refs_are_not_internal(patterns, name);
        reveal_strlit("refs/heads/");
        reveal_strlit("refs/tags/");
        reveal_strlit("refs/git-relay/");
        let spec = push_refspecs(snapshot)[i];
        if begins(name, "refs/heads/"@) {
            assert(name.take(11)[5] == 'h');
        } else {
            assert(name.take(10)[5] == 't');
        }
        assert(spec[5] == name[5]);
        if internal(spec) {
            assert(spec.take(15)[5] == 'g');
        }
    }
}

/// What an atomic push that changes nothing shows.
pub open spec fn atomic_verdict(output: GitProcessOutput) -> AtomicCapabilityVerdict {
    let t = lowered(failure_text(output));
    if output.success {
        AtomicCapabilityVerdict::Supported
    } else if holds(t, "atomic"@) && (holds(t, "support"@) || holds(t, "advertis"@)) {
        AtomicCapabilityVerdict::Unsupported
    } else {
        AtomicCapabilityVerdict::Inconclusive
    }
}

/// What an atomic push that changes nothing shows.
pub fn probe_atomic_capability(output: &GitProcessOutput) -> (r: AtomicCapabilityVerdict)
    ensures
        r == atomic_verdict(*output),
{
    if output.success {
        return AtomicCapabilityVerdict::Supported;
    }
    let detail = to_lower(&format_git_failure(output));
    if contains(&detail, "atomic") && (contains(&detail, "support") || contains(
        &detail,
        "advertis",
    )) {
        AtomicCapabilityVerdict::Unsupported
    } else {
        AtomicCapabilityVerdict::Inconclusive
    }
}

// ---------------------------------------------------------------------------
// The course of one upstream

/// What a Git command that did not succeed is reported as.
pub open spec fn command_failed(args: Seq<Seq<char>>, reply: GitReply, e: ReconcileError) -> bool {
    match reply {
        GitReply::NotStarted { error } => e matches ReconcileError::SpawnGit {
            args: said_args,
            error: said,
        } && texts(said_args@) == args && said@ == error@,
        GitReply::Ran(output) => {
            &&& !output.success
            &&& e matches ReconcileError::Git { args: said_args, status, detail }
            &&& said_args@ == output.args@
            &&& status == output.status
            &&& detail@ == failure_text(output)
        },
    }
}

/// What a Git command printed, where it succeeded.
pub fn expect_success(args: Vec<String>, reply: GitReply) -> (r: Result<
    GitProcessOutput,
    ReconcileError,
>)
    ensures
        match r {
            Ok(output) => reply == GitReply::Ran(output) && output.success,
            Err(e) => command_failed(texts(args@), reply, e),
        },
{
    match reply {
        GitReply::NotStarted { error } => Err(ReconcileError::SpawnGit { args, error }),
        GitReply::Ran(output) => if output.success {
            Ok(output)
        } else {
            let detail = format_git_failure(&output);
            Err(ReconcileError::Git { args: output.args, status: output.status, detail })
        },
    }
}

/// The reconciliation of one upstream under way.
#[derive(Debug, Clone)]
pub struct ReconcileSession {
    pub upstream: WriteUpstream,
    pub authority_model: AuthorityModel,
    pub desired: Vec<RefSnapshotEntry>,
    pub stage: ReconcileStage,
}

/// How far a reconciliation has come: the command whose outcome it waits for, and what it has
/// seen so far.
#[derive(Debug, Clone)]
pub enum ReconcileStage {
    /// Listing what the upstream was last seen to hold.
    ReadPrevious,
    /// Fetching from the upstream.
    Fetch { previous: Vec<RefSnapshotEntry> },
    /// Listing what the upstream holds now.
    ReadBefore { previous: Vec<RefSnapshotEntry> },
    /// An atomic push that changes nothing.
    Atomic { before: Vec<RefSnapshotEntry> },
    /// The push.
    Push { before: Vec<RefSnapshotEntry>, atomic: Option<AtomicCapabilityVerdict> },
    /// Fetching from the upstream again.
    FetchAfter {
        before: Vec<RefSnapshotEntry>,
        atomic: Option<AtomicCapabilityVerdict>,
        apply_attempted: bool,
        detail: Option<String>,
    },
    /// Listing what the upstream holds in the end.
    ReadAfter {
        before: Vec<RefSnapshotEntry>,
        atomic: Option<AtomicCapabilityVerdict>,
        apply_attempted: bool,
        detail: Option<String>,
    },
}

/// Where a reconciliation stands after the outcome of a command.
#[derive(Debug, Clone)]
pub enum ReconcileProgress {
    Continue(ReconcileSession),
    Done(ReconcileUpstreamResult),
    Failed(ReconcileError),
}

impl ReconcileStage {
    /// How many more commands the reconciliation can come to run.
    pub open spec fn remaining(self) -> nat {
        match self {
            ReconcileStage::ReadPrevious => 7,
            ReconcileStage::Fetch { .. } => 6,
            ReconcileStage::ReadBefore { .. } => 5,
            ReconcileStage::Atomic { .. } => 4,
            ReconcileStage::Push { .. } => 3,
            ReconcileStage::FetchAfter { .. } => 2,
            ReconcileStage::ReadAfter { .. } => 1,
        }
    }
}

/// What a finished reconciliation says beside the upstream's name and whether it must push
/// atomically.
pub open spec fn result_is(
    r: ReconcileUpstreamResult,
    state: UpstreamConvergenceState,
    divergent: bool,
    apply_attempted: bool,
    detail: Option<Seq<char>>,
    atomic: Option<AtomicCapabilityVerdict>,
    before: Seq<RefSnapshotEntry>,
    after: Seq<RefSnapshotEntry>,
) -> bool {
    &&& r.state == state
    &&& r.divergent == divergent
    &&& r.apply_attempted == apply_attempted
    &&& text_of(r.detail) == detail
    &&& r.atomic_capability == atomic
    &&& r.observed_before@ == before
    &&& r.observed_after@ == after
}

/// Whether an upstream that holds `after` holds what it should.
pub open spec fn sync_state(
    after: Seq<RefSnapshotEntry>,
    desired: Seq<RefSnapshotEntry>,
) -> UpstreamConvergenceState {
    if same_refs(after, desired) {
        UpstreamConvergenceState::InSync
    } else {
        UpstreamConvergenceState::OutOfSync
    }
}

/// Whether a result is one that the reconciliation of an upstream can come to. A push was attempted
/// only where there was something to push, the upstream held something else, it had not diverged,
/// and it supports atomic pushes where it must push so. An upstream that does not hold what it
/// should was pushed to, unless it diverged or there was nothing to push.
pub open spec fn warranted(
    r: ReconcileUpstreamResult,
    upstream: WriteUpstream,
    desired: Seq<RefSnapshotEntry>,
) -> bool {
    let differed = !same_refs(r.observed_before@, desired);
    &&& r.upstream_id@ == upstream.name@
    &&& r.require_atomic == upstream.require_atomic
    &&& r.apply_attempted ==> desired.len() > 0 && differed && !r.divergent && (r.require_atomic
        ==> r.atomic_capability == Some(AtomicCapabilityVerdict::Supported))
    &&& r.divergent ==> differed && r.state == UpstreamConvergenceState::OutOfSync
    &&& r.atomic_capability is Some ==> r.require_atomic && differed
    &&& r.state == UpstreamConvergenceState::InSync ==> same_refs(r.observed_after@, desired)
    &&& r.state == UpstreamConvergenceState::OutOfSync ==> !same_refs(r.observed_after@, desired)
        && (r.apply_attempted || r.divergent || desired.len() == 0 || !differed)
    &&& r.state == UpstreamConvergenceState::Unsupported ==> r.atomic_capability == Some(
        AtomicCapabilityVerdict::Unsupported,
    )
}

impl ReconcileSession {
    /// Whether what was found out about the upstream allows for what is under way: the question for
    /// atomic pushes and the push come only where the upstream holds something else than it should,
    /// and the push only where there is something to push and atomic pushes are supported where
    /// they must be.
    pub open spec fn wf(self) -> bool {
        let desired = self.desired@;
        let must = self.upstream.require_atomic;
        let supported = Some(AtomicCapabilityVerdict::Supported);
        match self.stage {
            ReconcileStage::ReadPrevious | ReconcileStage::Fetch { .. }
            | ReconcileStage::ReadBefore { .. } => true,
            ReconcileStage::Atomic { before } => must && !same_refs(before@, desired),
            ReconcileStage::Push { before, atomic } => {
                &&& desired.len() > 0
                &&& !same_refs(before@, desired)
                &&& atomic == (if must {
                    supported
                } else {
                    None
                })
            },
            ReconcileStage::FetchAfter { before, atomic, apply_attempted, detail }
            | ReconcileStage::ReadAfter { before, atomic, apply_attempted, detail } => {
                &&& apply_attempted == (desired.len() > 0 && !same_refs(before@, desired))
                &&& atomic == (if must && !same_refs(before@, desired) {
                    supported
                } else {
                    None
                })
                &&& detail is Some ==> apply_attempted
            },
        }
    }

    /// The reconciliation of an upstream that has run no command yet.
    pub fn new(
        upstream: WriteUpstream,
        authority_model: AuthorityModel,
        desired: Vec<RefSnapshotEntry>,
    ) -> (r: ReconcileSession)
        ensures
            r.upstream == upstream,
            r.authority_model == authority_model,
            r.desired == desired,
            r.stage is ReadPrevious,
            r.wf(),
    {
        ReconcileSession {
            upstream,
            authority_model,
            desired,
            stage: ReconcileStage::ReadPrevious,
        }
    }

    /// The arguments of the Git command that the reconciliation waits for.
    pub open spec fn command_args(self) -> Seq<Seq<char>> {
        let prefix = observed_prefix(self.upstream.name@);
        match self.stage {
            ReconcileStage::ReadPrevious | ReconcileStage::ReadBefore { .. }
            | ReconcileStage::ReadAfter { .. } => seq![
                "for-each-ref"@,
                "--format=%(objectname) %(refname)"@,
                prefix + "/heads"@,
                prefix + "/tags"@,
            ],
            ReconcileStage::Fetch { .. } | ReconcileStage::FetchAfter { .. } => seq![
                "fetch"@,
                "--prune"@,
                "--no-tags"@,
                self.upstream.url@,
                "+refs/heads/*:"@ + prefix + "/heads/*"@,
                "+refs/tags/*:"@ + prefix + "/tags/*"@,
            ],
            ReconcileStage::Atomic { .. } => atomic_probe_args(
                self.upstream.url@,
                push_refspecs(self.desired@),
            ),
            ReconcileStage::Push { .. } => (if self.upstream.require_atomic {
                seq!["push"@, "--porcelain"@, "--atomic"@]
            } else {
                seq!["push"@, "--porcelain"@]
            }) + seq![self.upstream.url@] + push_refspecs(self.desired@),
        }
    }

    /// The arguments of the Git command that the reconciliation waits for.
    pub fn command(&self) -> (r: Vec<String>)
        ensures
            texts(r@) == self.command_args(),
    {
        let prefix = observed_ref_prefix(&self.upstream.name);
        match &self.stage {
            ReconcileStage::ReadPrevious | ReconcileStage::ReadBefore { .. }
            | ReconcileStage::ReadAfter { .. } => {
                vec![
                    "for-each-ref".to_owned(),
                    "--format=%(objectname) %(refname)".to_owned(),
                    concat2(&prefix, "/heads"),
                    concat2(&prefix, "/tags"),
                ]
            },
            ReconcileStage::Fetch { .. } | ReconcileStage::FetchAfter { .. } => {
                vec![
                    "fetch".to_owned(),
                    "--prune".to_owned(),
                    "--no-tags".to_owned(),
                    self.upstream.url.clone(),
                    concat3("+refs/heads/*:", &prefix, "/heads/*"),
                    concat3("+refs/tags/*:", &prefix, "/tags/*"),
                ]
            },
            ReconcileStage::Atomic { .. } => atomic_probe_command(
                &self.upstream.url,
                &build_push_refspecs(&self.desired),
            ),
            ReconcileStage::Push { .. } => {
                let mut args: Vec<String> = if self.upstream.require_atomic {
                    vec!["push".to_owned(), "--porcelain".to_owned(), "--atomic".to_owned()]
                } else {
                    vec!["push".to_owned(), "--porcelain".to_owned()]
                };
                args.push(self.upstream.url.clone());
                let mut rest = build_push_refspecs(&self.desired);
                args.append(&mut rest);
                assert(texts(args@) =~= self.command_args());
                args
            },
        }
    }

    /// Whether `next` is this reconciliation at another stage.
    pub open spec fn same_but_stage(self, next: ReconcileSession) -> bool {
        next.upstream == self.upstream && next.authority_model == self.authority_model
            && next.desired == self.desired
    }

    /// Whether the reconciliation goes on at a stage.
    pub open spec fn continues(self, next: ReconcileProgress, stage: ReconcileStage) -> bool {
        next matches ReconcileProgress::Continue(s) && self.same_but_stage(s) && s.stage == stage
    }

    /// Whether the reconciliation ended with a result.
    pub open spec fn ends(
        self,
        next: ReconcileProgress,
        state: UpstreamConvergenceState,
        divergent: bool,
        apply_attempted: bool,
        detail: Option<Seq<char>>,
        atomic: Option<AtomicCapabilityVerdict>,
        before: Seq<RefSnapshotEntry>,
        after: Seq<RefSnapshotEntry>,
    ) -> bool {
        next matches ReconcileProgress::Done(r) && r.upstream_id@ == self.upstream.name@
            && r.require_atomic == self.upstream.require_atomic && result_is(
            r,
            state,
            divergent,
            apply_attempted,
            detail,
            atomic,
            before,
            after,
        )
    }

    /// Whether the reconciliation gave up over a command that it cannot go on without.
    pub open spec fn gives_up(self, reply: GitReply, next: ReconcileProgress) -> bool {
        next matches ReconcileProgress::Failed(e) && command_failed(self.command_args(), reply, e)
    }

    /// Where the reconciliation goes once the upstream's present state is known.
    pub open spec fn decides(
        self,
        previous: Seq<RefSnapshotEntry>,
        before: Vec<RefSnapshotEntry>,
        next: ReconcileProgress,
    ) -> bool {
        if diverged(self.authority_model, previous, before@, self.desired@) {
            self.ends(
                next,
                UpstreamConvergenceState::OutOfSync,
                true,
                false,
                Some(
                    "fresh upstream observation differs from both the prior observed state and the current desired state under relay-authoritative policy"@,
                ),
                None,
                before@,
                before@,
            )
        } else if same_refs(before@, self.desired@) {
            self.continues(
                next,
                ReconcileStage::FetchAfter {
                    before,
                    atomic: None,
                    apply_attempted: false,
                    detail: None,
                },
            )
        } else if self.upstream.require_atomic {
            self.continues(next, ReconcileStage::Atomic { before })
        } else {
            self.applies(before, None, next)
        }
    }

    /// Where the reconciliation goes once nothing speaks against the push: it pushes, unless
    /// there is nothing to push.
    pub open spec fn applies(
        self,
        before: Vec<RefSnapshotEntry>,
        atomic: Option<AtomicCapabilityVerdict>,
        next: ReconcileProgress,
    ) -> bool {
        if self.desired@.len() > 0 {
            self.continues(next, ReconcileStage::Push { before, atomic })
        } else {
            self.continues(
                next,
                ReconcileStage::FetchAfter {
                    before,
                    atomic,
                    apply_attempted: false,
                    detail: None,
                },
            )
        }
    }

    /// Where the reconciliation stands after the outcome of its command.
    pub open spec fn advances_to(self, reply: GitReply, next: ReconcileProgress) -> bool {
        let name = self.upstream.name@;
        match reply {
            GitReply::NotStarted { .. } => self.gives_up(reply, next),
            GitReply::Ran(output) => match self.stage {
                ReconcileStage::ReadPrevious => if !output.success {
                    self.gives_up(reply, next)
                } else if !observed_readable(name, output.stdout@) {
                    next matches ReconcileProgress::Failed(e) && observed_unreadable(
                        name,
                        output.stdout@,
                        e,
                    )
                } else {
                    exists|previous: Vec<RefSnapshotEntry>|
                        entry_texts(previous@) == observed_snapshot(name, output.stdout@)
                            && #[trigger] self.continues(next, ReconcileStage::Fetch { previous })
                },
                ReconcileStage::Fetch { previous } => if output.success {
                    self.continues(next, ReconcileStage::ReadBefore { previous })
                } else {
                    self.ends(
                        next,
                        UpstreamConvergenceState::Stalled,
                        false,
                        false,
                        Some(failure_text(output)),
                        None,
                        Seq::empty(),
                        Seq::empty(),
                    )
                },
                ReconcileStage::ReadBefore { previous } => if !output.success {
                    self.gives_up(reply, next)
                } else if !observed_readable(name, output.stdout@) {
                    next matches ReconcileProgress::Failed(e) && observed_unreadable(
                        name,
                        output.stdout@,
                        e,
                    )
                } else {
                    exists|before: Vec<RefSnapshotEntry>|
                        entry_texts(before@) == observed_snapshot(name, output.stdout@)
                            && #[trigger] self.decides(previous@, before, next)
                },
                ReconcileStage::Atomic { before } => {
                    let verdict = atomic_verdict(output);
                    match verdict {
                        AtomicCapabilityVerdict::Supported => self.applies(
                            before,
                            Some(verdict),
                            next,
                        ),
                        AtomicCapabilityVerdict::Unsupported => self.ends(
                            next,
                            UpstreamConvergenceState::Unsupported,
                            false,
                            false,
                            Some("upstream does not support required atomic multi-ref apply"@),
                            Some(verdict),
                            before@,
                            before@,
                        ),
                        AtomicCapabilityVerdict::Inconclusive => self.ends(
                            next,
                            UpstreamConvergenceState::Stalled,
                            false,
                            false,
                            Some(
                                "atomic capability probe was inconclusive and is treated as unsupported for this run"@,
                            ),
                            Some(verdict),
                            before@,
                            before@,
                        ),
                    }
                },
                ReconcileStage::Push { before, atomic } => next
                    matches ReconcileProgress::Continue(s) && self.same_but_stage(s)
                    && s.stage is FetchAfter && s.stage->FetchAfter_before == before
                    && s.stage->FetchAfter_atomic == atomic && s.stage->FetchAfter_apply_attempted
                    && text_of(s.stage->FetchAfter_detail) == (if output.success {
                    None
                } else {
                    Some(failure_text(output))
                }),
                ReconcileStage::FetchAfter { before, atomic, apply_attempted, detail } =>
                    if output.success {
                    self.continues(
                        next,
                        ReconcileStage::ReadAfter { before, atomic, apply_attempted, detail },
                    )
                } else {
                    self.ends(
                        next,
                        UpstreamConvergenceState::Stalled,
                        false,
                        apply_attempted,
                        Some(failure_text(output)),
                        atomic,
                        before@,
                        Seq::empty(),
                    )
                },
                ReconcileStage::ReadAfter { before, atomic, apply_attempted, detail } =>
                    if !output.success {
                    self.gives_up(reply, next)
                } else if !observed_readable(name, output.stdout@) {
                    next matches ReconcileProgress::Failed(e) && observed_unreadable(
                        name,
                        output.stdout@,
                        e,
                    )
                } else {
                    exists|after: Seq<RefSnapshotEntry>|
                        entry_texts(after) == observed_snapshot(name, output.stdout@)
                            && #[trigger] self.ends(
                            next,
                            sync_state(after, self.desired@),
                            false,
                            apply_attempted,
                            text_of(detail),
                            atomic,
                            before@,
                            after,
                        )
                },
            },
        }
    }

    fn at(self, stage: ReconcileStage) -> (r: ReconcileProgress)
        ensures
            self.continues(r, stage),
    {
        ReconcileProgress::Continue(
            ReconcileSession {
                upstream: self.upstream,
                authority_model: self.authority_model,
                desired: self.desired,
                stage,
            },
        )
    }

    fn done(
        self,
        state: UpstreamConvergenceState,
        divergent: bool,
        apply_attempted: bool,
        detail: Option<String>,
        atomic_capability: Option<AtomicCapabilityVerdict>,
        observed_before: Vec<RefSnapshotEntry>,
        observed_after: Vec<RefSnapshotEntry>,
    ) -> (r: ReconcileProgress)
        ensures
            self.ends(
                r,
                state,
                divergent,
                apply_attempted,
                text_of(detail),
                atomic_capability,
                observed_before@,
                observed_after@,
            ),
    {
        ReconcileProgress::Done(
            ReconcileUpstreamResult {
                upstream_id: self.upstream.name,
                require_atomic: self.upstream.require_atomic,
                state,
                divergent,
                apply_attempted,
                detail,
                atomic_capability,
                observed_before,
                observed_after,
            },
        )
    }

    fn apply(
        self,
        before: Vec<RefSnapshotEntry>,
        atomic: Option<AtomicCapabilityVerdict>,
    ) -> (r: ReconcileProgress)
        ensures
            self.applies(before, atomic, r),
    {
        if self.desired.len() > 0 {
            self.at(ReconcileStage::Push { before, atomic })
        } else {
            self.at(
                ReconcileStage::FetchAfter {
                    before,
                    atomic,
                    apply_attempted: false,
                    detail: None,
                },
            )
        }
    }

    fn decide(self, previous: &Vec<RefSnapshotEntry>, before: Vec<RefSnapshotEntry>) -> (r:
        ReconcileProgress)
        ensures
            self.decides(previous@, before, r),
    {
        if detect_divergence(self.authority_model, previous, &before, &self.desired) {
            let observed_before = copy_entries(&before);
            return self.done(
                UpstreamConvergenceState::OutOfSync,
                true,
                false,
                Some(
                    "fresh upstream observation differs from both the prior observed state and the current desired state under relay-authoritative policy".to_owned(),
                ),
                None,
                observed_before,
                before,
            );
        }
        if same_snapshot(&before, &self.desired) {
            return self.at(
                ReconcileStage::FetchAfter {
                    before,
                    atomic: None,
                    apply_attempted: false,
                    detail: None,
                },
            );
        }
        if self.upstream.require_atomic {
            return self.at(ReconcileStage::Atomic { before });
        }
        self.apply(before, None)
    }

    /// Takes the outcome of the command that the reconciliation waited for.
    pub fn advance(self, reply: GitReply) -> (r: ReconcileProgress)
        requires
            self.wf(),
        ensures
            self.advances_to(reply, r),
            r matches ReconcileProgress::Continue(s) ==> s.wf() && s.stage.remaining()
                < self.stage.remaining(),
            r matches ReconcileProgress::Done(result) ==> warranted(
                result,
                self.upstream,
                self.desired@,
            ),
    {
        let args = self.command();
        let output = match reply {
            GitReply::Ran(output) => output,
            GitReply::NotStarted { error } => {
                return ReconcileProgress::Failed(ReconcileError::SpawnGit { args, error });
            },
        };
        let ReconcileSession { upstream, authority_model, desired, stage } = self;
        let base = ReconcileSession {
            upstream,
            authority_model,
            desired,
            stage: ReconcileStage::ReadPrevious,
        };
        match stage {
            ReconcileStage::ReadPrevious => {
                if !output.success {
                    let detail = format_git_failure(&output);
                    return ReconcileProgress::Failed(
                        ReconcileError::Git { args: output.args, status: output.status, detail },
                    );
                }
                match parse_internal_observed_snapshot(&base.upstream.name, &output.stdout) {
                    Ok(previous) => {
                        let r = base.at(ReconcileStage::Fetch { previous });
                        assert(self.continues(r, ReconcileStage::Fetch { previous }));
                        r
                    },
                    Err(error) => {
                        proof {
                            lemma_unreadable(base.upstream.name@, output.stdout@, error);
                        }
                        ReconcileProgress::Failed(error)
                    },
                }
            },
            ReconcileStage::Fetch { previous } => {
                if output.success {
                    return base.at(ReconcileStage::ReadBefore { previous });
                }
                let detail = format_git_failure(&output);
                base.done(
                    UpstreamConvergenceState::Stalled,
                    false,
                    false,
                    Some(detail),
                    None,
                    Vec::new(),
                    Vec::new(),
                )
            },
            ReconcileStage::ReadBefore { previous } => {
                if !output.success {
                    let detail = format_git_failure(&output);
                    return ReconcileProgress::Failed(
                        ReconcileError::Git { args: output.args, status: output.status, detail },
                    );
                }
                match parse_internal_observed_snapshot(&base.upstream.name, &output.stdout) {
                    Ok(before) => {
                        let r = base.decide(&previous, before);
                        assert(self.decides(previous@, before, r));
                        r
                    },
                    Err(error) => {
                        proof {
                            lemma_unreadable(base.upstream.name@, output.stdout@, error);
                        }
                        ReconcileProgress::Failed(error)
                    },
                }
            },
            ReconcileStage::Atomic { before } => {
                let verdict = probe_atomic_capability(&output);
                match verdict {
                    AtomicCapabilityVerdict::Supported => base.apply(before, Some(verdict)),
                    AtomicCapabilityVerdict::Unsupported => {
                        let observed_before = copy_entries(&before);
                        base.done(
                            UpstreamConvergenceState::Unsupported,
                            false,
                            false,
                            Some(
                                "upstream does not support required atomic multi-ref apply".to_owned(),
                            ),
                            Some(verdict),
                            observed_before,
                            before,
                        )
                    },
                    AtomicCapabilityVerdict::Inconclusive => {
                        let observed_before = copy_entries(&before);
                        base.done(
                            UpstreamConvergenceState::Stalled,
                            false,
                            false,
                            Some(
                                "atomic capability probe was inconclusive and is treated as unsupported for this run".to_owned(),
                            ),
                            Some(verdict),
                            observed_before,
                            before,
                        )
                    },
                }
            },
            ReconcileStage::Push { before, atomic } => {
                let detail = if output.success {
                    None
                } else {
                    Some(format_git_failure(&output))
                };
                base.at(
                    ReconcileStage::FetchAfter { before, atomic, apply_attempted: true, detail },
                )
            },
            ReconcileStage::FetchAfter { before, atomic, apply_attempted, detail } => {
                if output.success {
                    return base.at(
                        ReconcileStage::ReadAfter { before, atomic, apply_attempted, detail },
                    );
                }
                let failure = format_git_failure(&output);
                base.done(
                    UpstreamConvergenceState::Stalled,
                    false,
                    apply_attempted,
                    Some(failure),
                    atomic,
                    before,
                    Vec::new(),
                )
            },
            ReconcileStage::ReadAfter { before, atomic, apply_attempted, detail } => {
                if !output.success {
                    let detail = format_git_failure(&output);
                    return ReconcileProgress::Failed(
                        ReconcileError::Git { args: output.args, status: output.status, detail },
                    );
                }
                match parse_internal_observed_snapshot(&base.upstream.name, &output.stdout) {
                    Ok(after) => {
                        let state = if same_snapshot(&after, &base.desired) {
                            UpstreamConvergenceState::InSync
                        } else {
                            UpstreamConvergenceState::OutOfSync
                        };
                        let ghost seen = after@;
                        let r = base.done(
                            state,
                            false,
                            apply_attempted,
                            detail,
                            atomic,
                            before,
                            after,
                        );
                        assert(self.ends(
                            r,
                            sync_state(seen, self.desired@),
                            false,
                            apply_attempted,
                            text_of(detail),
                            atomic,
                            before@,
                            seen,
                        ));
                        r
                    },
                    Err(error) => {
                        proof {
                            lemma_unreadable(base.upstream.name@, output.stdout@, error);
                        }
                        ReconcileProgress::Failed(error)
                    },
                }
            },
        }
    }
}

/// A listing that could not be read is not readable.
proof fn lemma_unreadable(upstream_id: Seq<char>, source: Seq<char>, e: ReconcileError)
    requires
        observed_unreadable(upstream_id, source, e),
    ensures
        !observed_readable(upstream_id, source),
{
    if !some_malformed(lines_of(source)) {
        let i = choose|i: int|
            {
                &&& 0 <= i < listing(source).len()
                &&& public_name(upstream_id, (#[trigger] listing(source)[i]).0) is None
                &&& forall|j: int|
                    0 <= j < i ==> public_name(upstream_id, (#[trigger] listing(source)[j]).0)
                        is Some
                &&& e->Git_detail@ == "unexpected internal observed ref "@ + listing(source)[i].0
            };
        assert(public_name(upstream_id, listing(source)[i].0) is None);
    }
}

/// A reconciliation pushes only with a warrant: it keeps what allows for its next step, and its
/// result is one for which the push, or its absence, was called for.
pub proof fn law_pushes_are_warranted(
    session: ReconcileSession,
    reply: GitReply,
    next: ReconcileProgress,
)
    requires
        session.wf(),
        session.advances_to(reply, next),
    ensures
        next matches ReconcileProgress::Continue(s) ==> s.wf(),
        next matches ReconcileProgress::Done(r) ==> warranted(
            r,
            session.upstream,
            session.desired@,
        ),
{
}

/// An upstream that diverged is not written to, nor is one that must push atomically and was not
/// seen to support it.
pub proof fn law_divergent_upstream_is_left_alone(
    session: ReconcileSession,
    reply: GitReply,
    next: ReconcileProgress,
)
    requires
        session.advances_to(reply, next),
    ensures
        next matches ReconcileProgress::Done(r) ==> r.divergent ==> !r.apply_attempted
            && r.observed_after@ == r.observed_before@,
        next matches ReconcileProgress::Continue(s) ==> s.stage is Push
            ==> session.upstream.require_atomic ==> session.stage is Atomic && reply is Ran
            && atomic_verdict(reply->Ran_0) == AtomicCapabilityVerdict::Supported,
{
}

// ---------------------------------------------------------------------------
// Listings of the repository's own references

/// What a listing of branches and tags comes to: its exported references, ordered by name, or the
/// first line that is none.
pub open spec fn exported_refs_read(
    stdout: Seq<char>,
    patterns: Seq<Seq<char>>,
    r: Result<Vec<RefSnapshotEntry>, ReconcileError>,
) -> bool {
    match r {
        Ok(entries) => {
            &&& !some_malformed(lines_of(stdout))
            &&& exists|all: Seq<RefSnapshotEntry>|
                entry_texts(all) == listing(stdout) && entries@ == #[trigger] exported_entries(
                    all,
                    patterns,
                )
            &&& forall|i: int|
                0 <= i < entries@.len() ==> exported(patterns, (#[trigger] entries@[i]).ref_name@)
        },
        Err(ReconcileError::Git { args, status, detail }) => {
            &&& texts(args@) == seq!["parse-ref-snapshot"@]
            &&& status is None
            &&& exists|line: Seq<char>| #[trigger]
                first_malformed(lines_of(stdout), line) && detail@ == "malformed ref line "@ + line
        },
        Err(_) => false,
    }
}

/// The arguments of the Git command that lists a repository's branches and tags.
pub fn list_local_refs_command() -> (r: Vec<String>)
    ensures
        texts(r@) == seq![
            "for-each-ref"@,
            "--format=%(objectname) %(refname)"@,
            "refs/heads"@,
            "refs/tags"@,
        ],
{
    vec![
        "for-each-ref".to_owned(),
        "--format=%(objectname) %(refname)".to_owned(),
        "refs/heads".to_owned(),
        "refs/tags".to_owned(),
    ]
}

/// The exported references that a listing of a repository's branches and tags says, ordered by
/// name.
pub fn list_local_exported_refs(stdout: &str, exported_patterns: &Vec<String>) -> (r: Result<
    Vec<RefSnapshotEntry>,
    ReconcileError,
>)
    ensures
        exported_refs_read(stdout@, texts(exported_patterns@), r),
{
    match parse_ref_snapshot(stdout) {
        Ok(entries) => {
            let ghost all = entries@;
            let kept = retain_exported(entries, exported_patterns);
            proof {
                let patterns = texts(exported_patterns@);
                assert(kept@ == exported_entries(all, patterns));
                let keep = |e: RefSnapshotEntry| exported(patterns, e.ref_name@);
                assert forall|i: int| 0 <= i < kept@.len() implies exported(
                    patterns,
                    (#[trigger] kept@[i]).ref_name@,
                ) by {
                    lemma_filter_holds(all, keep);
                    assert(keep(kept@[i]));
                }
            }
            Ok(kept)
        },
        Err(line) => {
            let args = vec!["parse-ref-snapshot".to_owned()];
            assert(texts(args@) =~= seq!["parse-ref-snapshot"@]);
            let detail = concat2("malformed ref line ", &line);
            assert(first_malformed(lines_of(stdout@), line@));
            Err(ReconcileError::Git { args, status: None, detail })
        },
    }
}

proof fn lemma_filter_holds(s: Seq<RefSnapshotEntry>, keep: spec_fn(RefSnapshotEntry) -> bool)
    ensures
        forall|i: int| 0 <= i < s.filter(keep).len() ==> keep(#[trigger] s.filter(keep)[i]),
    decreases s.len(),
{
    reveal(Seq::filter);
    if s.len() > 0 {
        lemma_filter_holds(s.drop_last(), keep);
    }
}

// ---------------------------------------------------------------------------
// Runs

/// Whether a repository may be reconciled: it is authoritative and ready.
pub fn ensure_reconcile_ready(descriptor: &RepositoryDescriptor) -> (r: Result<(), ReconcileError>)
    ensures
        match r {
            Ok(_) => descriptor.mode == RepositoryMode::Authoritative && descriptor.lifecycle
                == RepositoryLifecycle::Ready,
            Err(e) => reconcile_refused(*descriptor, e),
        },
{
    if descriptor.mode != RepositoryMode::Authoritative {
        return Err(
            ReconcileError::UnsupportedRepositoryMode {
                repo_id: descriptor.repo_id.clone(),
                mode: descriptor.mode,
            },
        );
    }
    if descriptor.lifecycle != RepositoryLifecycle::Ready {
        return Err(
            ReconcileError::RepositoryNotReady {
                repo_id: descriptor.repo_id.clone(),
                lifecycle: descriptor.lifecycle,
            },
        );
    }
    Ok(())
}

/// Whether an error is that of a repository that may not be reconciled.
pub open spec fn reconcile_refused(descriptor: RepositoryDescriptor, e: ReconcileError) -> bool {
    match e {
        ReconcileError::UnsupportedRepositoryMode { repo_id, mode } => {
            &&& descriptor.mode != RepositoryMode::Authoritative
            &&& repo_id@ == descriptor.repo_id@
            &&& mode == descriptor.mode
        },
        ReconcileError::RepositoryNotReady { repo_id, lifecycle } => {
            &&& descriptor.mode == RepositoryMode::Authoritative
            &&& descriptor.lifecycle != RepositoryLifecycle::Ready
            &&& repo_id@ == descriptor.repo_id@
            &&& lifecycle == descriptor.lifecycle
        },
        _ => false,
    }
}

/// The names of upstreams.
pub open spec fn names_of(upstreams: Seq<WriteUpstream>) -> Seq<Seq<char>> {
    Seq::new(upstreams.len(), |i: int| upstreams[i].name@)
}

/// Whether a record is that of a run of a repository that has just started.
pub open spec fn started(
    descriptor: RepositoryDescriptor,
    run_id: Seq<char>,
    started_at_ms: u128,
    desired: Seq<RefSnapshotEntry>,
    run: ReconcileRunRecord,
) -> bool {
    &&& run.run_id@ == run_id
    &&& run.repo_id@ == descriptor.repo_id@
    &&& run.repo_path@ == descriptor.repo_path@
    &&& run.started_at_ms == started_at_ms
    &&& run.completed_at_ms is None
    &&& run.desired_snapshot@ == desired
    &&& texts(run.captured_upstreams@) == names_of(sorted(descriptor.write_upstreams@))
    &&& run.repo_safety == (if descriptor.write_upstreams@.len() == 0 {
        RepositorySafetyState::Healthy
    } else {
        RepositorySafetyState::Degraded
    })
    &&& run.status == ReconcileRunStatus::InProgress
    &&& run.superseded_by is None
    &&& run.upstream_results@.len() == 0
}

/// The record of a run of a repository that has just started.
pub fn start_run(
    descriptor: &RepositoryDescriptor,
    upstreams: &Vec<WriteUpstream>,
    run_id: &str,
    started_at_ms: u128,
    desired_snapshot: Vec<RefSnapshotEntry>,
) -> (r: ReconcileRunRecord)
    requires
        upstreams@ == sorted(descriptor.write_upstreams@),
    ensures
        started(*descriptor, run_id@, started_at_ms, desired_snapshot@, r),
{
    let mut captured_upstreams: Vec<String> = Vec::new();
    let mut i: usize = 0;
    while i < upstreams.len()
        invariant
            i <= upstreams@.len(),
            captured_upstreams@.len() == i,
            forall|k: int| 0 <= k < i ==> (#[trigger] captured_upstreams@[k])@ == upstreams@[k].name@,
        decreases upstreams@.len() - i,
    {
        captured_upstreams.push(upstreams[i].name.clone());
        i += 1;
    }
    proof {
        assert(texts(captured_upstreams@) =~= names_of(upstreams@));
        order::lemma_sorted(descriptor.write_upstreams@);
    }
    ReconcileRunRecord {
        run_id: run_id.to_owned(),
        repo_id: descriptor.repo_id.clone(),
        repo_path: descriptor.repo_path.clone(),
        started_at_ms,
        completed_at_ms: None,
        desired_snapshot,
        captured_upstreams,
        repo_safety: if upstreams.len() == 0 {
            RepositorySafetyState::Healthy
        } else {
            RepositorySafetyState::Degraded
        },
        status: ReconcileRunStatus::InProgress,
        superseded_by: None,
        upstream_results: Vec::new(),
    }
}

/// The record of a run whose upstreams were all reconciled.
pub fn complete_run(run: ReconcileRunRecord, completed_at_ms: u128) -> (r: ReconcileRunRecord)
    ensures
        r == (ReconcileRunRecord {
            repo_safety: safety_after(run.upstream_results@),
            status: ReconcileRunStatus::Completed,
            completed_at_ms: Some(completed_at_ms),
            ..run
        }),
{
    let mut run = run;
    run.repo_safety = classify_repository_safety(&run.upstream_results);
    run.status = ReconcileRunStatus::Completed;
    run.completed_at_ms = Some(completed_at_ms);
    run
}

/// The record of a run that another one found unfinished; `None` where it had ended.
pub fn supersede_stale_run(run: ReconcileRunRecord, new_run_id: &str, now_ms: u128) -> (r: Option<
    ReconcileRunRecord,
>)
    ensures
        match r {
            Some(changed) => {
                &&& run.status == ReconcileRunStatus::InProgress
                &&& text_of(changed.superseded_by) == Some(new_run_id@)
                &&& changed == (ReconcileRunRecord {
                    status: ReconcileRunStatus::Superseded,
                    superseded_by: changed.superseded_by,
                    completed_at_ms: Some(now_ms),
                    ..run
                })
            },
            None => run.status != ReconcileRunStatus::InProgress,
        },
{
    if run.status != ReconcileRunStatus::InProgress {
        return None;
    }
    let mut run = run;
    run.status = ReconcileRunStatus::Superseded;
    run.superseded_by = Some(new_run_id.to_owned());
    run.completed_at_ms = Some(now_ms);
    Some(run)
}

/// Whether a lock may be broken: it says nothing of its holder, or it is older than the timeout
/// and its holder is gone.
pub fn lock_is_stale(
    metadata: Option<&LockMetadata>,
    now_ms: u128,
    lock_timeout_ms: u64,
    pid_alive: bool,
) -> (r: bool)
    ensures
        r == breakable(
            match metadata {
                Some(m) => Some(m.acquired_at_ms),
                None => None,
            },
            now_ms,
            lock_timeout_ms,
            pid_alive,
        ),
{
    let acquired_at_ms: Option<u128> = match metadata {
        Some(m) => Some(m.acquired_at_ms),
        None => None,
    };
    is_breakable(acquired_at_ms, now_ms, lock_timeout_ms, pid_alive)
}

// ---------------------------------------------------------------------------
// Requests

/// A request to reconcile a repository. The requests of one repository share one file, so a later
/// one takes the place of an earlier one.
pub fn enqueue_reconcile_request(
    descriptor: &RepositoryDescriptor,
    push_id: Option<&str>,
    request_id: Option<&str>,
    now_ms: u128,
) -> (r: PendingReconcileRequest)
    ensures
        r.repo_id@ == descriptor.repo_id@,
        r.repo_path@ == descriptor.repo_path@,
        r.requested_at_ms == now_ms,
        text_of(r.last_push_id) == (match push_id {
            Some(id) => Some(id@),
            None => None,
        }),
        text_of(r.last_request_id) == (match request_id {
            Some(id) => Some(id@),
            None => None,
        }),
{
    PendingReconcileRequest {
        repo_id: descriptor.repo_id.clone(),
        repo_path: descriptor.repo_path.clone(),
        requested_at_ms: now_ms,
        last_push_id: match push_id {
            Some(id) => Some(id.to_owned()),
            None => None,
        },
        last_request_id: match request_id {
            Some(id) => Some(id.to_owned()),
            None => None,
        },
    }
}

impl Ordered for PendingReconcileRequest {
    open spec fn le(&self, other: &Self) -> bool {
        text_le(self.repo_id@, other.repo_id@)
    }

    proof fn total(a: &Self, b: &Self) {
        order::lemma_text_le_total(a.repo_id@, b.repo_id@);
    }

    proof fn transitive(a: &Self, b: &Self, c: &Self) {
        order::lemma_text_le_trans(a.repo_id@, b.repo_id@, c.repo_id@);
    }

    fn not_after(&self, other: &Self) -> (r: bool) {
        order::not_after(&self.repo_id, &other.repo_id)
    }
}

/// The pending requests in the order in which they are served, whatever the order in which they
/// were read.
pub fn load_pending_reconcile_requests(requests: Vec<PendingReconcileRequest>) -> (r: Vec<
    PendingReconcileRequest,
>)
    ensures
        r@ == sorted(requests@),
{
    order::sort(requests)
}

/// What is to be done about a pending request.
#[derive(Debug, Clone, Copy, PartialEq, Eq, Structural)]
pub enum PendingAction {
    /// The repository is unknown, or takes no reconciliation: the request is dropped.
    Clear,
    /// The repository at this index is reconciled.
    Reconcile(usize),
}

/// The index of the first descriptor with the given id at or after index `i`, or the length where
/// there is none.
pub open spec fn descriptor_index(
    descriptors: Seq<RepositoryDescriptor>,
    repo_id: Seq<char>,
    i: int,
) -> int
    decreases descriptors.len() - i,
{
    if i < 0 || i >= descriptors.len() || descriptors[i].repo_id@ == repo_id {
        i
    } else {
        descriptor_index(descriptors, repo_id, i + 1)
    }
}

/// The index of the first descriptor with the given id, or the length where there is none.
pub fn find_descriptor(descriptors: &Vec<RepositoryDescriptor>, repo_id: &str) -> (r: usize)
    ensures
        r == descriptor_index(descriptors@, repo_id@, 0),
        r <= descriptors@.len(),
{
    let mut i: usize = 0;
    while i < descriptors.len() && !same(&descriptors[i].repo_id, repo_id)
        invariant
            i <= descriptors@.len(),
            descriptor_index(descriptors@, repo_id@, i as int) == descriptor_index(
                descriptors@,
                repo_id@,
                0,
            ),
        decreases descriptors@.len() - i,
    {
        i += 1;
    }
    i
}

/// What is to be done about a pending request.
pub open spec fn action_for(
    descriptors: Seq<RepositoryDescriptor>,
    request: PendingReconcileRequest,
) -> PendingAction {
    let i = descriptor_index(descriptors, request.repo_id@, 0);
    if i < descriptors.len() && descriptors[i].mode == RepositoryMode::Authoritative
        && descriptors[i].lifecycle == RepositoryLifecycle::Ready {
        PendingAction::Reconcile(i as usize)
    } else {
        PendingAction::Clear
    }
}

/// The runs so far and the outcome of one more: a repository that is already being reconciled is
/// passed over, and any other failure ends the work.
pub fn absorb_run(
    runs: Vec<ReconcileRunRecord>,
    outcome: Result<ReconcileRunRecord, ReconcileError>,
) -> (r: Result<Vec<ReconcileRunRecord>, ReconcileError>)
    ensures
        match outcome {
            Ok(run) => r is Ok && r->Ok_0@ == runs@.push(run),
            Err(ReconcileError::RunInProgress { .. }) => r == Ok::<_, ReconcileError>(runs),
            Err(error) => r == Err::<Vec<ReconcileRunRecord>, _>(error),
        },
{
    let mut runs = runs;
    match outcome {
        Ok(run) => {
            runs.push(run);
            Ok(runs)
        },
        Err(ReconcileError::RunInProgress { .. }) => Ok(runs),
        Err(error) => Err(error),
    }
}

/// What is to be done about each pending request.
pub fn process_pending_reconcile_requests(
    requests: &Vec<PendingReconcileRequest>,
    descriptors: &Vec<RepositoryDescriptor>,
) -> (r: Vec<PendingAction>)
    ensures
        r@.len() == requests@.len(),
        forall|i: int|
            0 <= i < r@.len() ==> #[trigger] r@[i] == action_for(descriptors@, requests@[i]),
{
    let mut actions: Vec<PendingAction> = Vec::new();
    let mut i: usize = 0;
    while i < requests.len()
        invariant
            i <= requests@.len(),
            actions@.len() == i,
            forall|k: int|
                0 <= k < i ==> #[trigger] actions@[k] == action_for(descriptors@, requests@[k]),
        decreases requests@.len() - i,
    {
        let at = find_descriptor(descriptors, &requests[i].repo_id);
        let action = if at < descriptors.len() && descriptors[at].mode
            == RepositoryMode::Authoritative && descriptors[at].lifecycle
            == RepositoryLifecycle::Ready {
            PendingAction::Reconcile(at)
        } else {
            PendingAction::Clear
        };
        actions.push(action);
        i += 1;
    }
    actions
}

/// Whether the run at index `i` is the latest: none started after it, and none before it in the
/// list started with it.
pub open spec fn is_latest(records: Seq<ReconcileRunRecord>, i: int) -> bool {
    &&& 0 <= i < records.len()
    &&& forall|j: int|
        0 <= j < records.len() ==> (#[trigger] records[j]).started_at_ms
            <= records[i].started_at_ms
    &&& forall|j: int|
        0 <= j < i ==> (#[trigger] records[j]).started_at_ms < records[i].started_at_ms
}

/// The run that started last; of several that started together, the first in the list.
pub fn latest_run(records: Vec<ReconcileRunRecord>) -> (r: Option<ReconcileRunRecord>)
    ensures
        r is None <==> records@.len() == 0,
        r matches Some(run) ==> records@.contains(run) && forall|i: int|
            0 <= i < records@.len() ==> (#[trigger] records@[i]).started_at_ms
                <= run.started_at_ms,
        r matches Some(run) ==> exists|i: int| #[trigger]
            is_latest(records@, i) && records@[i] == run,
{
    let ghost all = records@;
    if records.len() == 0 {
        return None;
    }
    let mut at: usize = 0;
    let mut i: usize = 1;
    while i < records.len()
        invariant
            at < i <= records@.len(),
            forall|j: int|
                0 <= j < i ==> (#[trigger] records@[j]).started_at_ms
                    <= records@[at as int].started_at_ms,
            forall|j: int|
                0 <= j < at ==> (#[trigger] records@[j]).started_at_ms
                    < records@[at as int].started_at_ms,
        decreases records@.len() - i,
    {
        if records[at].started_at_ms < records[i].started_at_ms {
            at = i;
        }
        i += 1;
    }
    assert(is_latest(all, at as int));
    let mut records = records;
    Some(records.swap_remove(at))
}

/// The replication status of a repository, of which `runs` are the stored runs.
pub fn replication_status_for_repo(
    descriptor: &RepositoryDescriptor,
    pending_request: Option<PendingReconcileRequest>,
    runs: Vec<ReconcileRunRecord>,
) -> (r: ReplicationStatus)
    ensures
        r.repo_id@ == descriptor.repo_id@,
        r.pending_request == pending_request,
        r.latest_run is None <==> runs@.len() == 0,
        r.latest_run matches Some(run) ==> runs@.contains(run) && forall|i: int|
            0 <= i < runs@.len() ==> (#[trigger] runs@[i]).started_at_ms <= run.started_at_ms,
        r.latest_run matches Some(run) ==> exists|i: int| #[trigger]
            is_latest(runs@, i) && runs@[i] == run,
{
    let latest_run = latest_run(runs);
    ReplicationStatus { repo_id: descriptor.repo_id.clone(), pending_request, latest_run }
}

/// The files of a directory that hold records: those with the extension `json`, the greatest name
/// first.
pub open spec fn record_files(names: Seq<String>) -> Seq<String> {
    sorted(names).reverse().filter(|n: String| path::file_extension(n@) == Some("json"@))
}

/// The files of a directory that hold the records of runs. Their names begin with the number of a
/// process, so their order says nothing of when a run started.
pub fn run_record_files(names: Vec<String>) -> (r: Vec<String>)
    ensures
        r@ == record_files(names@),
{
    let all = order::sort(names);
    let ghost keep = |n: String| path::file_extension(n@) == Some("json"@);
    let ghost backward = all@.reverse();
    let mut out: Vec<String> = Vec::new();
    let mut i: usize = 0;
    assert(backward.take(0).filter(keep) =~= out@) by {
        reveal(Seq::filter);
    }
    while i < all.len()
        invariant
            i <= all@.len(),
            backward == all@.reverse(),
            keep == (|n: String| path::file_extension(n@) == Some("json"@)),
            out@ == backward.take(i as int).filter(keep),
        decreases all@.len() - i,
    {
        let name = &all[all.len() - 1 - i];
        if path::has_extension(name, "json") {
            out.push(name.clone());
        }
        proof {
            reveal(Seq::filter);
            assert(backward[i as int] == *name);
            assert(backward.take(i + 1).drop_last() =~= backward.take(i as int));
        }
        i += 1;
    }
    assert(backward.take(i as int) =~= backward);
    out
}

// ---------------------------------------------------------------------------
// Divergence markers

/// The arguments of the Git command that lists the divergence markers.
pub fn list_divergence_marker_refs_command() -> (r: Vec<String>)
    ensures
        texts(r@) == seq![
            "for-each-ref"@,
            "--format=%(refname) %(objectname)"@,
            "refs/git-relay/safety/divergent"@,
        ],
{
    vec![
        "for-each-ref".to_owned(),
        "--format=%(refname) %(objectname)".to_owned(),
        "refs/git-relay/safety/divergent".to_owned(),
    ]
}

/// The references of a listing that puts each before its object, in the order of the lines.
pub open spec fn targets_listed(ls: Seq<Seq<char>>) -> Seq<(Seq<char>, Seq<char>)>
    decreases ls.len(),
{
    if ls.len() == 0 {
        Seq::empty()
    } else {
        let t = trimmed(ls.last());
        let n = run(t, not_space()) as int;
        if t.len() > 0 {
            targets_listed(ls.drop_last()).push((t.take(n), trimmed(t.skip(n + 1))))
        } else {
            targets_listed(ls.drop_last())
        }
    }
}

/// What a listing that puts each reference before its object comes to: the references, ordered by
/// name, or the first line that is none.
pub open spec fn ref_targets_read(
    source: Seq<char>,
    r: Result<Vec<RefSnapshotEntry>, ReconcileError>,
) -> bool {
    match r {
        Ok(entries) => {
            &&& !some_malformed(lines_of(source))
            &&& entry_texts(entries@) == sorted_by(targets_listed(lines_of(source)), by_ref_name())
        },
        Err(ReconcileError::Git { args, status, detail }) => {
            &&& texts(args@) == seq!["parse-ref-targets"@]
            &&& status is None
            &&& exists|line: Seq<char>| #[trigger]
                first_malformed(lines_of(source), line) && detail@ == "malformed ref target line "@
                    + line
        },
        Err(_) => false,
    }
}

/// The references of a listing that puts each before its object, ordered by name.
pub fn parse_ref_targets(source: &str) -> (r: Result<Vec<RefSnapshotEntry>, ReconcileError>)
    ensures
        ref_targets_read(source@, r),
{
    let all = lines(source);
    let ghost ls = lines_of(source@);
    let mut entries: Vec<RefSnapshotEntry> = Vec::new();
    let mut i: usize = 0;
    assert(entry_texts(entries@) =~= targets_listed(ls.take(0)));
    while i < all.len()
        invariant
            i <= all@.len(),
            texts(all@) == ls,
            ls == lines_of(source@),
            forall|j: int| 0 <= j < i ==> !malformed_line(trimmed(#[trigger] ls[j])),
            entry_texts(entries@) == targets_listed(ls.take(i as int)),
        decreases all@.len() - i,
    {
        let t = trim(&all[i]);
        let ghost before_push = entries@;
        proof {
            assert(ls[i as int] == all@[i as int]@);
            assert(ls.take(i + 1).drop_last() =~= ls.take(i as int));
        }
        let chars = chars_of(&t);
        if chars.len() > 0 {
            let ghost p = not_space();
            let mut k: usize = 0;
            while k < chars.len() && !space(chars[k])
                invariant
                    k <= chars@.len(),
                    chars@ == t@,
                    p == not_space(),
                    forall|j: int| 0 <= j < k ==> p(#[trigger] chars@[j]),
                decreases chars@.len() - k,
            {
                k += 1;
            }
            proof {
                lemma_run_is(t@, p, k as nat);
            }
            if k == chars.len() {
                let args = vec!["parse-ref-targets".to_owned()];
                proof {
                    assert(texts(args@) =~= seq!["parse-ref-targets"@]);
                    assert(trimmed(ls[i as int]) == t@);
                    assert(malformed_line(t@));
                    assert(first_malformed(ls, t@));
                }
                let detail = concat2("malformed ref target line ", &t);
                return Err(ReconcileError::Git { args, status: None, detail });
            }
            let ref_name = string_of(&chars, 0, k);
            let oid_part = string_of(&chars, k + 1, chars.len());
            assert(ref_name@ =~= t@.take(k as int));
            assert(oid_part@ =~= t@.skip(k + 1));
            let oid = trim(&oid_part);
            entries.push(RefSnapshotEntry { ref_name, oid });
            assert(entry_texts(entries@) =~= entry_texts(before_push).push((ref_name@, oid@)));
        }
        i += 1;
    }
    assert(ls.take(i as int) =~= ls);
    proof {
        lemma_sorted_view(entries@, entry_text(), by_ref_name());
    }
    Ok(order::sort(entries))
}

impl Ordered for DivergenceMarker {
    open spec fn le(&self, other: &Self) -> bool {
        text_le(self.upstream_id@, other.upstream_id@)
    }

    proof fn total(a: &Self, b: &Self) {
        order::lemma_text_le_total(a.upstream_id@, b.upstream_id@);
    }

    proof fn transitive(a: &Self, b: &Self, c: &Self) {
        order::lemma_text_le_trans(a.upstream_id@, b.upstream_id@, c.upstream_id@);
    }

    fn not_after(&self, other: &Self) -> (r: bool) {
        order::not_after(&self.upstream_id, &other.upstream_id)
    }
}

/// The divergence markers of a repository in the order of their upstreams, whatever the order in
/// which they were read.
pub fn load_divergence_markers(markers: Vec<DivergenceMarker>) -> (r: Vec<DivergenceMarker>)
    ensures
        r@ == sorted(markers@),
{
    order::sort(markers)
}

/// What is to be done about a repository's divergence markers after a run.
#[derive(Debug, Clone)]
pub struct DivergencePlan {
    /// The markers to write, each with its reference.
    pub write: Vec<(String, DivergenceMarker)>,
    /// The references of markers to delete.
    pub delete: Vec<String>,
}

/// The divergent results among the first `n`.
pub open spec fn divergent_results(results: Seq<ReconcileUpstreamResult>, n: int) -> Seq<
    ReconcileUpstreamResult,
>
    decreases n,
{
    if n <= 0 {
        Seq::empty()
    } else if results[n - 1].divergent {
        divergent_results(results, n - 1).push(results[n - 1])
    } else {
        divergent_results(results, n - 1)
    }
}

/// The references of the markers of results.
pub open spec fn divergence_refs(results: Seq<ReconcileUpstreamResult>) -> Seq<Seq<char>> {
    Seq::new(results.len(), |i: int| divergence_ref(results[i].upstream_id@))
}

/// The references among the first `n` existing ones that are not in `kept`.
pub open spec fn stale_refs(
    existing: Seq<RefSnapshotEntry>,
    kept: Seq<Seq<char>>,
    n: int,
) -> Seq<Seq<char>>
    decreases n,
{
    if n <= 0 {
        Seq::empty()
    } else if kept.contains(existing[n - 1].ref_name@) {
        stale_refs(existing, kept, n - 1)
    } else {
        stale_refs(existing, kept, n - 1).push(existing[n - 1].ref_name@)
    }
}

/// Whether a marker tells of a divergent result of a run.
pub open spec fn marks(
    m: DivergenceMarker,
    result: ReconcileUpstreamResult,
    repo_id: Seq<char>,
    run_id: Seq<char>,
    now_ms: u128,
) -> bool {
    &&& result.divergent
    &&& m.repo_id@ == repo_id
    &&& m.upstream_id@ == result.upstream_id@
    &&& m.run_id@ == run_id
    &&& m.recorded_at_ms == now_ms
    &&& text_of(m.detail) == text_of(result.detail)
}

/// What is to be done about a repository's divergence markers after a run: each divergent
/// upstream gets one, and the others that exist go.
pub open spec fn marked(
    repo_id: Seq<char>,
    run_id: Seq<char>,
    results: Seq<ReconcileUpstreamResult>,
    existing: Seq<RefSnapshotEntry>,
    now_ms: u128,
    plan: DivergencePlan,
) -> bool {
    let divergent = divergent_results(results, results.len() as int);
    &&& plan.write@.len() == divergent.len()
    &&& forall|i: int|
        0 <= i < divergent.len() ==> (#[trigger] plan.write@[i]).0@ == divergence_ref(
            divergent[i].upstream_id@,
        ) && marks(plan.write@[i].1, divergent[i], repo_id, run_id, now_ms)
    &&& texts(plan.delete@) == stale_refs(
        existing,
        divergence_refs(divergent),
        existing.len() as int,
    )
}

/// What is to be done about a repository's divergence markers after a run.
pub fn persist_divergence_markers(
    repo_id: &str,
    run_id: &str,
    results: &Vec<ReconcileUpstreamResult>,
    existing: &Vec<RefSnapshotEntry>,
    now_ms: u128,
) -> (r: DivergencePlan)
    ensures
        marked(repo_id@, run_id@, results@, existing@, now_ms, r),
{
    let mut write: Vec<(String, DivergenceMarker)> = Vec::new();
    let mut kept: Vec<String> = Vec::new();
    let mut i: usize = 0;
    assert(texts(kept@) =~= divergence_refs(divergent_results(results@, 0)));
    while i < results.len()
        invariant
            i <= results@.len(),
            write@.len() == divergent_results(results@, i as int).len(),
            forall|j: int|
                0 <= j < write@.len() ==> (#[trigger] write@[j]).0@ == divergence_ref(
                    divergent_results(results@, i as int)[j].upstream_id@,
                ) && marks(
                    write@[j].1,
                    divergent_results(results@, i as int)[j],
                    repo_id@,
                    run_id@,
                    now_ms,
                ),
            texts(kept@) == divergence_refs(divergent_results(results@, i as int)),
        decreases results@.len() - i,
    {
        let result = &results[i];
        if result.divergent {
            let ref_name = divergence_ref_name(&result.upstream_id);
            let marker = DivergenceMarker {
                repo_id: repo_id.to_owned(),
                upstream_id: result.upstream_id.clone(),
                run_id: run_id.to_owned(),
                recorded_at_ms: now_ms,
                detail: copy_option(&result.detail),
            };
            let ghost so_far = divergent_results(results@, i as int);
            let ghost kept_so_far = kept@;
            kept.push(ref_name.clone());
            write.push((ref_name, marker));
            proof {
                assert(divergence_refs(so_far.push(*result)) =~= divergence_refs(so_far).push(
                    ref_name@,
                ));
                assert(texts(kept@) =~= texts(kept_so_far).push(ref_name@));
            }
        }
        i += 1;
    }
    let ghost wanted = divergence_refs(divergent_results(results@, results@.len() as int));
    let mut delete: Vec<String> = Vec::new();
    let mut k: usize = 0;
    assert(texts(delete@) =~= stale_refs(existing@, wanted, 0));
    while k < existing.len()
        invariant
            k <= existing@.len(),
            texts(kept@) == wanted,
            texts(delete@) == stale_refs(existing@, wanted, k as int),
        decreases existing@.len() - k,
    {
        let name = &existing[k].ref_name;
        proof {
            crate::text::lemma_texts_push(delete@, *name);
        }
        if !list_holds(&kept, name) {
            delete.push(name.clone());
        }
        k += 1;
    }
    DivergencePlan { write, delete }
}

/// What came of deleting an internal reference: one that is not there counts as deleted.
pub fn delete_internal_ref(output: GitProcessOutput) -> (r: Result<(), ReconcileError>)
    ensures
        match r {
            Ok(_) => output.success || holds(failure_text(output), "not a valid ref"@),
            Err(ReconcileError::Git { args, status, detail }) => {
                &&& !output.success
                &&& !holds(failure_text(output), "not a valid ref"@)
                &&& args == output.args
                &&& status == output.status
                &&& detail@ == failure_text(output)
            },
            Err(_) => false,
        },
{
    let detail = format_git_failure(&output);
    if output.success || contains(&detail, "not a valid ref") {
        Ok(())
    } else {
        Err(ReconcileError::Git { args: output.args, status: output.status, detail })
    }
}

// ---------------------------------------------------------------------------
// Files

/// Where the state of reconciliations of one kind is kept.
pub open spec fn reconcile_dir(state_root: Seq<char>, kind: Seq<char>) -> Seq<char> {
    joined_path(joined_path(state_root, "reconcile"@), kind)
}

fn reconcile_directory(state_root: &str, kind: &str) -> (r: String)
    ensures
        r@ == reconcile_dir(state_root@, kind@),
{
    path::join(&path::join(state_root, "reconcile"), kind)
}

/// Where the lock of a repository is kept.
pub fn reconcile_lock_path(state_root: &str, repo_id: &str) -> (r: String)
    ensures
        r@ == joined_path(
            reconcile_dir(state_root@, "locks"@),
            path_component(repo_id@) + ".lock"@,
        ),
{
    let name = concat2(&sanitize_path_component(repo_id), ".lock");
    path::join(&reconcile_directory(state_root, "locks"), &name)
}

/// Where a lock says who holds it.
pub fn lock_metadata_path(lock_path: &str) -> (r: String)
    ensures
        r@ == joined_path(lock_path@, "metadata.json"@),
{
    path::join(lock_path, "metadata.json")
}

/// Where the marker of a repository's unfinished run is kept.
pub fn in_progress_marker_path(state_root: &str, repo_id: &str) -> (r: String)
    ensures
        r@ == joined_path(
            reconcile_dir(state_root@, "in-progress"@),
            path_component(repo_id@) + ".json"@,
        ),
{
    let name = concat2(&sanitize_path_component(repo_id), ".json");
    path::join(&reconcile_directory(state_root, "in-progress"), &name)
}

/// Where pending requests are kept.
pub fn pending_request_directory(state_root: &str) -> (r: String)
    ensures
        r@ == reconcile_dir(state_root@, "pending"@),
{
    reconcile_directory(state_root, "pending")
}

/// Where a repository's pending request is kept.
pub open spec fn pending_file(state_root: Seq<char>, repo_id: Seq<char>) -> Seq<char> {
    joined_path(reconcile_dir(state_root, "pending"@), path_component(repo_id) + ".json"@)
}

/// Where a repository's pending request is kept.
pub fn pending_request_file_path(state_root: &str, repo_id: &str) -> (r: String)
    ensures
        r@ == pending_file(state_root@, repo_id@),
{
    let name = concat2(&sanitize_path_component(repo_id), ".json");
    path::join(&pending_request_directory(state_root), &name)
}

/// Where the records of a repository's runs are kept.
pub fn run_record_directory(state_root: &str, repo_id: &str) -> (r: String)
    ensures
        r@ == joined_path(reconcile_dir(state_root@, "runs"@), path_component(repo_id@)),
{
    path::join(&reconcile_directory(state_root, "runs"), &sanitize_path_component(repo_id))
}

/// Where the record of a run is kept.
pub fn run_record_path(state_root: &str, repo_id: &str, run_id: &str) -> (r: String)
    ensures
        r@ == joined_path(
            joined_path(reconcile_dir(state_root@, "runs"@), path_component(repo_id@)),
            run_id@ + ".json"@,
        ),
{
    path::join(&run_record_directory(state_root, repo_id), &concat2(run_id, ".json"))
}

/// The pending requests by their files once one more is written to its file.
pub open spec fn with_request(
    files: Map<Seq<char>, PendingReconcileRequest>,
    state_root: Seq<char>,
    request: PendingReconcileRequest,
) -> Map<Seq<char>, PendingReconcileRequest> {
    files.insert(pending_file(state_root, request.repo_id@), request)
}

/// Repositories whose ids differ as path components keep their pending requests in different files.
pub proof fn law_pending_files_differ(state_root: Seq<char>, a: Seq<char>, b: Seq<char>)
    requires
        path_component(a) != path_component(b),
    ensures
        pending_file(state_root, a) != pending_file(state_root, b),
{
    let base = reconcile_dir(state_root, "pending"@);
    let x = path_component(a) + ".json"@;
    let y = path_component(b) + ".json"@;
    reveal_strlit(".json");
    law_path_component_is_safe(a);
    law_path_component_is_safe(b);
    assert(!absolute(x) && !absolute(y));
    if pending_file(state_root, a) == pending_file(state_root, b) {
        let lead = if base.len() == 0 || base.last() == '/' {
            base
        } else {
            base.push('/')
        };
        assert((lead + x).skip(lead.len() as int) =~= x);
        assert((lead + y).skip(lead.len() as int) =~= y);
        assert(x.take(x.len() - 5) =~= path_component(a));
        assert(y.take(y.len() - 5) =~= path_component(b));
    }
}

/// Requests to reconcile the same repository coalesce: the later one takes the place of the earlier,
/// nothing is left of that, and the requests of every repository whose id differs as a path
/// component stay as they are.
pub proof fn law_requests_coalesce(
    files: Map<Seq<char>, PendingReconcileRequest>,
    state_root: Seq<char>,
    a: PendingReconcileRequest,
    b: PendingReconcileRequest,
)
    requires
        a.repo_id@ == b.repo_id@,
    ensures
        ({
            let both = with_request(with_request(files, state_root, a), state_root, b);
            &&& both == with_request(files, state_root, b)
            &&& both.contains_key(pending_file(state_root, b.repo_id@))
            &&& both[pending_file(state_root, b.repo_id@)] == b
            &&& forall|other: Seq<char>|
                path_component(other) != path_component(b.repo_id@) ==> {
                    let file = #[trigger] pending_file(state_root, other);
                    &&& both.contains_key(file) == files.contains_key(file)
                    &&& both[file] == files[file]
                }
        }),
{
    let both = with_request(with_request(files, state_root, a), state_root, b);
    assert(both =~= with_request(files, state_root, b));
    assert forall|other: Seq<char>|
        path_component(other) != path_component(b.repo_id@) implies {
        let file = #[trigger] pending_file(state_root, other);
        &&& both.contains_key(file) == files.contains_key(file)
        &&& both[file] == files[file]
    } by {
        law_pending_files_differ(state_root, other, b.repo_id@);
    }
}

// ---------------------------------------------------------------------------
// What the commands of a reconciliation do

/// A push sends each reference that the upstream should hold to itself, in order and without
/// force, and nothing else; it is atomic exactly where the upstream must push so.
pub proof fn law_push_sends_the_snapshot(session: ReconcileSession)
    requires
        session.stage is Push,
    ensures
        ({
            let args = session.command_args();
            let at = args.len() - session.desired@.len() - 1;
            let options = args.take(at);
            &&& at >= 1
            &&& args[0] == "push"@
            &&& args[at] == session.upstream.url@
            &&& session.upstream.require_atomic <==> options.contains("--atomic"@)
            &&& options.contains("--porcelain"@)
            &&& forall|i: int|
                0 < i < at ==> #[trigger] options[i] == "--porcelain"@ || options[i] == "--atomic"@
            &&& forall|i: int|
                0 <= i < session.desired@.len() ==> {
                    let name = (#[trigger] session.desired@[i]).ref_name@;
                    args[at + 1 + i] == name + seq![':'] + name
                }
        }),
{
    reveal_strlit("push");
    reveal_strlit("--porcelain");
    reveal_strlit("--atomic");
    reveal_strlit(":");
    let args = session.command_args();
    let at = args.len() - session.desired@.len() - 1;
    let options = args.take(at);
    assert(":"@ =~= seq![':']);
    assert("push"@.len() == 4);
    if session.upstream.require_atomic {
        assert(options[2] == "--atomic"@);
        assert(options =~= seq!["push"@, "--porcelain"@, "--atomic"@]);
    } else {
        assert(options =~= seq!["push"@, "--porcelain"@]);
    }
    assert(options[1] == "--porcelain"@);
    assert("--porcelain"@.len() == 11);
    assert("--atomic"@.len() == 8);
}

/// The question for atomic pushes is the push that would follow, made atomic and without effect.
pub proof fn law_atomic_question_is_the_push(session: ReconcileSession, push: ReconcileSession)
    requires
        session.stage is Atomic,
        push.stage is Push,
        session.same_but_stage(push),
    ensures
        ({
            let n = session.desired@.len() + 1;
            let asked = session.command_args();
            let pushed = push.command_args();
            &&& asked[0] == "push"@
            &&& asked.take(asked.len() - n).contains("--atomic"@)
            &&& asked.take(asked.len() - n).contains("--dry-run"@)
            &&& asked.skip(asked.len() - n) == pushed.skip(pushed.len() - n)
        }),
{
    let n = session.desired@.len() + 1;
    let asked = session.command_args();
    let pushed = push.command_args();
    assert(asked.take(asked.len() - n)[2] == "--dry-run"@);
    assert(asked.take(asked.len() - n)[3] == "--atomic"@);
    assert(asked.skip(asked.len() - n) =~= seq![session.upstream.url@] + push_refspecs(
        session.desired@,
    ));
    assert(pushed.skip(pushed.len() - n) =~= seq![session.upstream.url@] + push_refspecs(
        session.desired@,
    ));
}

/// What an upstream is observed to hold is what it holds: a fetch takes each of its branches and
/// tags to a place of its own under the upstream's internal namespace, drops what is gone there,
/// the listing that follows asks for that place, and the reference is read back under its name.
pub proof fn law_observation_mirrors_the_upstream(
    fetch: ReconcileSession,
    list: ReconcileSession,
    rest: Seq<char>,
)
    requires
        fetch.stage is Fetch || fetch.stage is FetchAfter,
        list.stage is ReadPrevious || list.stage is ReadBefore || list.stage is ReadAfter,
        fetch.same_but_stage(list),
    ensures
        ({
            let args = fetch.command_args();
            let listing = list.command_args();
            let id = fetch.upstream.name@;
            let head = "refs/heads/"@ + rest;
            let tag = "refs/tags/"@ + rest;
            let head_place = observed_prefix(id) + "/heads/"@ + rest;
            let tag_place = observed_prefix(id) + "/tags/"@ + rest;
            &&& args[0] == "fetch"@
            &&& args.contains(fetch.upstream.url@)
            &&& args.contains("--prune"@)
            &&& exists|i: int|
                0 <= i < args.len() && takes(#[trigger] args[i], head, head_place)
            &&& exists|i: int| 0 <= i < args.len() && takes(#[trigger] args[i], tag, tag_place)
            &&& listing[0] == "for-each-ref"@
            &&& exists|i: int|
                0 < i < listing.len() && head_place == #[trigger] listing[i] + seq!['/'] + rest
            &&& exists|i: int|
                0 < i < listing.len() && tag_place == #[trigger] listing[i] + seq!['/'] + rest
            &&& public_name(id, head_place) == Some(head)
            &&& public_name(id, tag_place) == Some(tag)
            &&& head_place != tag_place
        }),
{
    let args = fetch.command_args();
    let listing = list.command_args();
    let id = fetch.upstream.name@;
    let prefix = observed_prefix(id);
    let head = "refs/heads/"@ + rest;
    let tag = "refs/tags/"@ + rest;
    let head_place = prefix + "/heads/"@ + rest;
    let tag_place = prefix + "/tags/"@ + rest;
    reveal_strlit("refs/heads/");
    reveal_strlit("refs/tags/");
    reveal_strlit("/heads/");
    reveal_strlit("/tags/");
    reveal_strlit("/heads");
    reveal_strlit("/tags");
    reveal_strlit("+refs/heads/*:");
    reveal_strlit("+refs/tags/*:");
    reveal_strlit("/heads/*");
    reveal_strlit("/tags/*");
    assert(args[1] == "--prune"@);
    assert(args[3] == fetch.upstream.url@);
    let h = "refs/heads/"@;
    let t = "refs/tags/"@;
    assert(glob_refspec(h, prefix + "/heads/"@) =~= args[4]);
    assert(glob_refspec(t, prefix + "/tags/"@) =~= args[5]);
    assert(head.take(h.len() as int) =~= h);
    assert(tag.take(t.len() as int) =~= t);
    assert(head.skip(h.len() as int) =~= rest);
    assert(tag.skip(t.len() as int) =~= rest);
    assert(takes(args[4], head, head_place));
    assert(takes(args[5], tag, tag_place));
    assert(head_place =~= listing[2] + seq!['/'] + rest);
    assert(tag_place =~= listing[3] + seq!['/'] + rest);
    let hp = prefix + "/heads/"@;
    let tp = prefix + "/tags/"@;
    assert(head_place.take(hp.len() as int) =~= hp);
    assert(head_place.skip(hp.len() as int) =~= rest);
    assert(tag_place.take(tp.len() as int) =~= tp);
    assert(tag_place.skip(tp.len() as int) =~= rest);
    assert(tag_place[prefix.len() as int + 1] == 't');
    assert(head_place[prefix.len() as int + 1] == 'h');
    if begins(tag_place, hp) {
        assert(tag_place.take(hp.len() as int)[prefix.len() as int + 1] == 'h');
    }
}

/// A push that is called for is made: where the upstream holds something else than it should, has
/// not diverged and there is something to push, the push follows at once, or, where it must be
/// atomic, the question for that and, once it is answered with success, the push.
pub proof fn law_called_for_pushes_are_made(
    session: ReconcileSession,
    output: GitProcessOutput,
    next: ReconcileProgress,
)
    requires
        session.advances_to(GitReply::Ran(output), next),
        output.success,
        session.desired@.len() > 0,
    ensures
        session.stage matches ReconcileStage::ReadBefore { previous } ==> observed_readable(
            session.upstream.name@,
            output.stdout@,
        ) ==> exists|before: Seq<RefSnapshotEntry>| #[trigger]
            entry_texts(before) == observed_snapshot(session.upstream.name@, output.stdout@) && (
            !same_refs(before, session.desired@) && (session.authority_model
                != AuthorityModel::RelayAuthoritative || previous@.len() == 0 || same_refs(
                previous@,
                before,
            )) ==> next is Continue && (if session.upstream.require_atomic {
                next->Continue_0.stage is Atomic
            } else {
                next->Continue_0.stage is Push
            })),
        session.stage is Atomic ==> next is Continue && next->Continue_0.stage is Push,
        session.stage is Push ==> next is Continue && next->Continue_0.stage is FetchAfter,
{
    if session.stage is ReadBefore && observed_readable(
        session.upstream.name@,
        output.stdout@,
    ) {
        let previous = session.stage->ReadBefore_previous;
        let before = choose|before: Vec<RefSnapshotEntry>|
            entry_texts(before@) == observed_snapshot(session.upstream.name@, output.stdout@)
                && #[trigger] session.decides(previous@, before, next);
        assert(entry_texts(before@) == observed_snapshot(session.upstream.name@, output.stdout@));
    }
}

/// An upstream diverged exactly where the relay has the say, the upstream was seen before, and it
/// holds neither what it was last seen to hold nor what it should.
pub proof fn law_divergence(
    model: AuthorityModel,
    previous: Seq<RefSnapshotEntry>,
    before: Seq<RefSnapshotEntry>,
    desired: Seq<RefSnapshotEntry>,
)
    ensures
        same_refs(previous, before) ==> !diverged(model, previous, before, desired),
        same_refs(before, desired) ==> !diverged(model, previous, before, desired),
        previous.len() == 0 ==> !diverged(model, previous, before, desired),
        model != AuthorityModel::RelayAuthoritative ==> !diverged(model, previous, before, desired),
        model == AuthorityModel::RelayAuthoritative && previous.len() > 0 && !same_refs(
            previous,
            before,
        ) && !same_refs(before, desired) ==> diverged(model, previous, before, desired),
{
}

/// A repository is divergent after a run exactly where an upstream diverged, healthy exactly where
/// every upstream holds what it should and none diverged, and degraded otherwise.
pub proof fn law_safety_after_a_run(results: Seq<ReconcileUpstreamResult>)
    ensures
        safety_after(results) == RepositorySafetyState::Divergent <==> exists|i: int|
            0 <= i < results.len() && (#[trigger] results[i]).divergent,
        safety_after(results) == RepositorySafetyState::Healthy <==> forall|i: int|
            0 <= i < results.len() ==> (#[trigger] results[i]).state
                == UpstreamConvergenceState::InSync && !results[i].divergent,
        safety_after(results) != RepositorySafetyState::Quarantined,
{
}

/// Atomic pushes count as supported exactly where the question was answered with success, and as
/// unsupported only where the answer speaks of them and of support.
pub proof fn law_atomic_support_is_shown(output: GitProcessOutput)
    ensures
        atomic_verdict(output) == AtomicCapabilityVerdict::Supported <==> output.success,
        !output.success ==> (atomic_verdict(output) == AtomicCapabilityVerdict::Unsupported <==> {
            let said = lowered(failure_text(output));
            &&& holds(said, "atomic"@)
            &&& holds(said, "support"@) || holds(said, "advertis"@)
        }),
{
}

/// The result is one of a run in which its upstream diverged.
pub open spec fn diverged_in(
    results: Seq<ReconcileUpstreamResult>,
    result: ReconcileUpstreamResult,
) -> bool {
    results.contains(result) && result.divergent
}

/// The upstream diverged in the run.
pub open spec fn some_diverged(
    results: Seq<ReconcileUpstreamResult>,
    upstream_id: Seq<char>,
) -> bool {
    exists|result: ReconcileUpstreamResult| #[trigger]
        diverged_in(results, result) && result.upstream_id@ == upstream_id
}

/// After a run exactly the upstreams that diverged in it are marked: each gets a marker that names
/// it and the run, a marker of any other that is there goes, and none of a divergent one.
pub proof fn law_markers_tell_of_divergence(
    repo_id: Seq<char>,
    run_id: Seq<char>,
    results: Seq<ReconcileUpstreamResult>,
    existing: Seq<RefSnapshotEntry>,
    now_ms: u128,
    plan: DivergencePlan,
)
    requires
        marked(repo_id, run_id, results, existing, now_ms, plan),
    ensures
        forall|result: ReconcileUpstreamResult| #[trigger]
            diverged_in(results, result) ==> exists|k: int|
                0 <= k < plan.write@.len() && (#[trigger] plan.write@[k]).0@ == divergence_ref(
                    result.upstream_id@,
                ) && plan.write@[k].1.upstream_id@ == result.upstream_id@
                    && plan.write@[k].1.run_id@ == run_id && plan.write@[k].1.repo_id@ == repo_id
                    && plan.write@[k].1.recorded_at_ms == now_ms && text_of(plan.write@[k].1.detail)
                    == text_of(result.detail),
        forall|k: int|
            0 <= k < plan.write@.len() ==> some_diverged(
                results,
                (#[trigger] plan.write@[k]).1.upstream_id@,
            ),
        forall|name: Seq<char>| #[trigger]
            texts(plan.delete@).contains(name) <==> {
                &&& exists|j: int| 0 <= j < existing.len() && (#[trigger] existing[j]).ref_name@ == name
                &&& forall|result: ReconcileUpstreamResult| #[trigger]
                    diverged_in(results, result) ==> name != divergence_ref(result.upstream_id@)
            },
{
    let n = results.len() as int;
    let divergent = divergent_results(results, n);
    let kept = divergence_refs(divergent);
    lemma_divergent_results(results, n);
    assert(results.take(n) =~= results);
    assert forall|result: ReconcileUpstreamResult| #[trigger]
        diverged_in(results, result) implies exists|k: int|
        0 <= k < plan.write@.len() && (#[trigger] plan.write@[k]).0@ == divergence_ref(
            result.upstream_id@,
        ) && plan.write@[k].1.upstream_id@ == result.upstream_id@ && plan.write@[k].1.run_id@
            == run_id && plan.write@[k].1.repo_id@ == repo_id && plan.write@[k].1.recorded_at_ms
            == now_ms && text_of(plan.write@[k].1.detail) == text_of(result.detail) by {
        assert(divergent.contains(result));
        let k = choose|k: int| 0 <= k < divergent.len() && divergent[k] == result;
        assert(plan.write@[k].0@ == divergence_ref(divergent[k].upstream_id@));
    }
    assert forall|k: int| 0 <= k < plan.write@.len() implies some_diverged(
        results,
        (#[trigger] plan.write@[k]).1.upstream_id@,
    ) by {
        assert(marks(plan.write@[k].1, divergent[k], repo_id, run_id, now_ms));
        assert(divergent.contains(divergent[k]));
        assert(diverged_in(results, divergent[k]));
    }
    lemma_stale_refs(existing, kept, existing.len() as int);
    assert forall|name: Seq<char>| #[trigger]
        texts(plan.delete@).contains(name) <==> {
            &&& exists|j: int| 0 <= j < existing.len() && (#[trigger] existing[j]).ref_name@ == name
            &&& forall|result: ReconcileUpstreamResult| #[trigger]
                diverged_in(results, result) ==> name != divergence_ref(result.upstream_id@)
        } by {
        lemma_kept(results, divergent, name);
    }
}

proof fn lemma_kept(
    results: Seq<ReconcileUpstreamResult>,
    divergent: Seq<ReconcileUpstreamResult>,
    name: Seq<char>,
)
    requires
        forall|result: ReconcileUpstreamResult| #[trigger]
            divergent.contains(result) <==> diverged_in(results, result),
    ensures
        divergence_refs(divergent).contains(name) <==> exists|result: ReconcileUpstreamResult|
         #[trigger]
            diverged_in(results, result) && name == divergence_ref(result.upstream_id@),
{
    let kept = divergence_refs(divergent);
    if kept.contains(name) {
        let k = choose|k: int| 0 <= k < kept.len() && kept[k] == name;
        assert(divergent.contains(divergent[k]));
        assert(diverged_in(results, divergent[k]));
    }
    if exists|result: ReconcileUpstreamResult| #[trigger]
        diverged_in(results, result) && name == divergence_ref(result.upstream_id@) {
        let result = choose|result: ReconcileUpstreamResult| #[trigger]
            diverged_in(results, result) && name == divergence_ref(result.upstream_id@);
        assert(divergent.contains(result));
        let k = choose|k: int| 0 <= k < divergent.len() && divergent[k] == result;
        assert(kept[k] == name);
    }
}

proof fn lemma_divergent_results(results: Seq<ReconcileUpstreamResult>, n: int)
    requires
        0 <= n <= results.len(),
    ensures
        forall|result: ReconcileUpstreamResult| #[trigger]
            divergent_results(results, n).contains(result) <==> diverged_in(
                results.take(n),
                result,
            ),
    decreases n,
{
    if n > 0 {
        lemma_divergent_results(results, n - 1);
        let before = divergent_results(results, n - 1);
        let all = divergent_results(results, n);
        let last = results[n - 1];
        assert(results.take(n) =~= results.take(n - 1).push(last));
        assert forall|result: ReconcileUpstreamResult| #[trigger]
            all.contains(result) <==> diverged_in(results.take(n), result) by {
            assert(before.contains(result) <==> diverged_in(results.take(n - 1), result));
            lemma_push_contains(results.take(n - 1), last, result);
            lemma_push_contains(before, last, result);
        }
    }
}

proof fn lemma_push_contains<T>(list: Seq<T>, last: T, item: T)
    ensures
        list.push(last).contains(item) <==> list.contains(item) || item == last,
{
    let all = list.push(last);
    if list.contains(item) {
        let k = choose|k: int| 0 <= k < list.len() && list[k] == item;
        assert(all[k] == item);
    }
    assert(all[list.len() as int] == last);
}

proof fn lemma_stale_refs(existing: Seq<RefSnapshotEntry>, kept: Seq<Seq<char>>, n: int)
    requires
        0 <= n <= existing.len(),
    ensures
        forall|j: int|
            0 <= j < n ==> stale_refs(existing, kept, n).contains(
                (#[trigger] existing[j]).ref_name@,
            ) == !kept.contains(existing[j].ref_name@),
        forall|name: Seq<char>| #[trigger]
            stale_refs(existing, kept, n).contains(name) ==> !kept.contains(name) && exists|j: int|
                0 <= j < n && (#[trigger] existing[j]).ref_name@ == name,
    decreases n,
{
    if n > 0 {
        lemma_stale_refs(existing, kept, n - 1);
        let before = stale_refs(existing, kept, n - 1);
        let all = stale_refs(existing, kept, n);
        assert forall|name: Seq<char>| #[trigger] all.contains(name) implies !kept.contains(name)
            && exists|j: int| 0 <= j < n && (#[trigger] existing[j]).ref_name@ == name by {
            let k = choose|k: int| 0 <= k < all.len() && all[k] == name;
            if k < before.len() {
                assert(before[k] == name);
                assert(before.contains(name));
                let j = choose|j: int| 0 <= j < n - 1 && (#[trigger] existing[j]).ref_name@ == name;
                assert(existing[j].ref_name@ == name);
            } else {
                assert(existing[n - 1].ref_name@ == name);
            }
        }
        assert forall|j: int| 0 <= j < n implies all.contains((#[trigger] existing[j]).ref_name@)
            == !kept.contains(existing[j].ref_name@) by {
            let name = existing[j].ref_name@;
            if !kept.contains(name) {
                if j < n - 1 {
                    assert(before.contains(name));
                    let k = choose|k: int| 0 <= k < before.len() && before[k] == name;
                    assert(all[k] == name);
                } else {
                    assert(all[all.len() - 1] == name);
                }
            }
        }
    }
}

/// A pending request leads to a reconciliation exactly where its repository is configured, is
/// authoritative and is ready, and then of that repository; any other is dropped.
pub proof fn law_requests_lead_to_their_repository(
    descriptors: Seq<RepositoryDescriptor>,
    request: PendingReconcileRequest,
    i: int,
)
    requires
        0 <= i < descriptors.len() <= usize::MAX,
        descriptors[i].repo_id@ == request.repo_id@,
        forall|j: int| 0 <= j < i ==> (#[trigger] descriptors[j]).repo_id@ != request.repo_id@,
    ensures
        descriptors[i].mode == RepositoryMode::Authoritative && descriptors[i].lifecycle
            == RepositoryLifecycle::Ready ==> action_for(descriptors, request)
            == PendingAction::Reconcile(i as usize),
        descriptors[i].mode != RepositoryMode::Authoritative || descriptors[i].lifecycle
            != RepositoryLifecycle::Ready ==> action_for(descriptors, request)
            == PendingAction::Clear,
{
    lemma_descriptor_index(descriptors, request.repo_id@, 0, i);
}

proof fn lemma_descriptor_index(
    descriptors: Seq<RepositoryDescriptor>,
    repo_id: Seq<char>,
    from: int,
    i: int,
)
    requires
        0 <= from <= i < descriptors.len(),
        descriptors[i].repo_id@ == repo_id,
        forall|j: int| from <= j < i ==> (#[trigger] descriptors[j]).repo_id@ != repo_id,
    ensures
        descriptor_index(descriptors, repo_id, from) == i,
    decreases i - from,
{
    if from < i {
        assert(descriptors[from].repo_id@ != repo_id);
        lemma_descriptor_index(descriptors, repo_id, from + 1, i);
    }
}

/// What the end of one upstream's reconciliation tells: of that upstream, and what came of it. It
/// stalls where the upstream cannot be fetched from, or cannot be asked whether it pushes
/// atomically; it is unsupported where it must push atomically and says that it cannot; and in the
/// end it is in sync exactly where what is seen of it is what it should hold. Only a divergence is
/// told as one.
pub proof fn law_outcomes_of_an_upstream(
    session: ReconcileSession,
    output: GitProcessOutput,
    r: ReconcileUpstreamResult,
)
    requires
        session.advances_to(GitReply::Ran(output), ReconcileProgress::Done(r)),
    ensures
        r.upstream_id@ == session.upstream.name@,
        r.require_atomic == session.upstream.require_atomic,
        r.divergent <==> session.stage is ReadBefore,
        session.stage is ReadBefore ==> !r.apply_attempted && r.state
            == UpstreamConvergenceState::OutOfSync && session.authority_model
            == AuthorityModel::RelayAuthoritative && r.detail is Some,
        session.stage is Fetch ==> !output.success && r.state == UpstreamConvergenceState::Stalled
            && !r.apply_attempted && r.detail is Some && r.detail->0@ == failure_text(output),
        session.stage is Atomic ==> !output.success && !r.apply_attempted && (r.state
            == UpstreamConvergenceState::Unsupported <==> {
            let said = lowered(failure_text(output));
            &&& holds(said, "atomic"@)
            &&& holds(said, "support"@) || holds(said, "advertis"@)
        }) && (r.state == UpstreamConvergenceState::Stalled || r.state
            == UpstreamConvergenceState::Unsupported),
        session.stage is FetchAfter ==> !output.success && r.state
            == UpstreamConvergenceState::Stalled && r.apply_attempted
            == session.stage->FetchAfter_apply_attempted && r.detail is Some && r.detail->0@
            == failure_text(output),
        session.stage is ReadAfter ==> output.success && (r.state
            == UpstreamConvergenceState::InSync <==> same_refs(
            r.observed_after@,
            session.desired@,
        )) && (r.state == UpstreamConvergenceState::InSync || r.state
            == UpstreamConvergenceState::OutOfSync) && r.apply_attempted
            == session.stage->ReadAfter_apply_attempted && entry_texts(r.observed_after@)
            == observed_snapshot(session.upstream.name@, output.stdout@) && text_of(r.detail)
            == text_of(session.stage->ReadAfter_detail),
        !(session.stage is ReadPrevious) && !(session.stage is Push),
{
    if session.stage is ReadBefore {
        let previous = session.stage->ReadBefore_previous;
        let before = choose|before: Vec<RefSnapshotEntry>|
            entry_texts(before@) == observed_snapshot(session.upstream.name@, output.stdout@)
                && #[trigger] session.decides(previous@, before, ReconcileProgress::Done(r));
        assert(diverged(session.authority_model, previous@, before@, session.desired@));
    }
    if session.stage is Atomic {
        law_atomic_support_is_shown(output);
    }
}

/// A push that failed is told of, and one that succeeded is not; either way the upstream is looked
/// at again.
pub proof fn law_failed_pushes_are_told(
    session: ReconcileSession,
    output: GitProcessOutput,
    next: ReconcileProgress,
)
    requires
        session.stage is Push,
        session.advances_to(GitReply::Ran(output), next),
    ensures
        next is Continue,
        next->Continue_0.stage is FetchAfter,
        next->Continue_0.stage->FetchAfter_apply_attempted,
        output.success <==> next->Continue_0.stage->FetchAfter_detail is None,
        !output.success ==> next->Continue_0.stage->FetchAfter_detail->0@ == failure_text(output),
{
}

/// What is observed of an upstream is what the listing of its places says: each listed place gives
/// one entry, under the name that the reference has on the upstream and with its object, and there
/// are no others.
pub proof fn law_observed_snapshots(
    upstream_id: Seq<char>,
    source: Seq<char>,
    name: Seq<char>,
    oid: Seq<char>,
)
    requires
        observed_readable(upstream_id, source),
    ensures
        observed_snapshot(upstream_id, source).len() == listed(lines_of(source)).len(),
        observed_snapshot(upstream_id, source).contains((name, oid)) <==> exists|place: Seq<char>|
            public_name(upstream_id, place) == Some(name) && #[trigger] listed(
                lines_of(source),
            ).contains((place, oid)),
{
    broadcast use vstd::seq_lib::group_to_multiset_ensures;

    lemma_reference_order();
    let raw = listed(lines_of(source));
    let entries = listing(source);
    let public = published(upstream_id, entries);
    let seen = observed_snapshot(upstream_id, source);
    order::lemma_sorted_by(raw, by_ref_name());
    order::lemma_sorted_by(public, by_ref_name());
    if seen.contains((name, oid)) {
        assert(seen.to_multiset().contains((name, oid)));
        assert(public.contains((name, oid)));
        let i = choose|i: int| 0 <= i < public.len() && public[i] == (name, oid);
        assert(public_name(upstream_id, entries[i].0) is Some);
        assert(entries.to_multiset().contains(entries[i]));
        assert(raw.contains((entries[i].0, oid)));
    }
    if exists|place: Seq<char>|
        public_name(upstream_id, place) == Some(name) && #[trigger] raw.contains((place, oid)) {
        let place = choose|place: Seq<char>|
            public_name(upstream_id, place) == Some(name) && #[trigger] raw.contains((place, oid));
        assert(raw.to_multiset().contains((place, oid)));
        assert(entries.contains((place, oid)));
        let i = choose|i: int| 0 <= i < entries.len() && entries[i] == (place, oid);
        assert(public[i] == (name, oid));
        assert(public.to_multiset().contains((name, oid)));
        assert(seen.contains((name, oid)));
    }
}

proof fn lemma_reference_order()
    ensures
        order::orders(by_ref_name()),
{
    let le = by_ref_name();
    assert forall|a: (Seq<char>, Seq<char>), b: (Seq<char>, Seq<char>)| #[trigger]
        le(a, b) || le(b, a) by {
        order::lemma_text_le_total(a.0, b.0);
    }
    assert forall|
        a: (Seq<char>, Seq<char>),
        b: (Seq<char>, Seq<char>),
        c: (Seq<char>, Seq<char>),
    | #[trigger] le(a, b) && #[trigger] le(b, c) implies le(a, c) by {
        order::lemma_text_le_trans(a.0, b.0, c.0);
    }
}

/// What a run is to bring to the upstreams: of the listed references exactly those that are
/// exported, each with its object.
pub proof fn law_desired_references_are_exported(
    stdout: Seq<char>,
    patterns: Seq<Seq<char>>,
    desired: Vec<RefSnapshotEntry>,
    name: Seq<char>,
    oid: Seq<char>,
)
    requires
        exported_refs_read(stdout, patterns, Ok(desired)),
    ensures
        entry_texts(desired@).contains((name, oid)) <==> listed(lines_of(stdout)).contains(
            (name, oid),
        ) && exported(patterns, name),
{
    broadcast use vstd::seq_lib::group_to_multiset_ensures;

    lemma_reference_order();
    let raw = listed(lines_of(stdout));
    order::lemma_sorted_by(raw, by_ref_name());
    let all = choose|all: Seq<RefSnapshotEntry>|
        entry_texts(all) == listing(stdout) && desired@ == #[trigger] exported_entries(
            all,
            patterns,
        );
    let said = entry_texts(all);
    if entry_texts(desired@).contains((name, oid)) {
        let i = choose|i: int| 0 <= i < desired@.len() && entry_texts(desired@)[i] == (name, oid);
        crate::refs::law_exported_entries(all, patterns, desired@[i]);
        assert(desired@.contains(desired@[i]));
        let j = choose|j: int| 0 <= j < all.len() && all[j] == desired@[i];
        assert(said[j] == (name, oid));
        assert(said.to_multiset().contains((name, oid)));
        assert(raw.to_multiset().contains((name, oid)));
    }
    if raw.contains((name, oid)) && exported(patterns, name) {
        assert(raw.to_multiset().contains((name, oid)));
        assert(said.contains((name, oid)));
        let j = choose|j: int| 0 <= j < said.len() && said[j] == (name, oid);
        crate::refs::law_exported_entries(all, patterns, all[j]);
        assert(all.contains(all[j]));
        let i = choose|i: int| 0 <= i < desired@.len() && desired@[i] == all[j];
        assert(entry_texts(desired@)[i] == (name, oid));
    }
}

/// A run that has just started claims nothing: it is in progress and not completed, has no result
/// and no successor, knows its upstreams by name, and counts its repository as healthy only where
/// there is no upstream to bring anything to.
pub proof fn law_new_runs_claim_nothing(
    descriptor: RepositoryDescriptor,
    run_id: Seq<char>,
    started_at_ms: u128,
    desired: Seq<RefSnapshotEntry>,
    run: ReconcileRunRecord,
)
    requires
        started(descriptor, run_id, started_at_ms, desired, run),
    ensures
        run.run_id@ == run_id,
        run.repo_id@ == descriptor.repo_id@,
        run.started_at_ms == started_at_ms,
        run.desired_snapshot@ == desired,
        run.status == ReconcileRunStatus::InProgress,
        run.completed_at_ms is None,
        run.superseded_by is None,
        run.upstream_results@.len() == 0,
        run.captured_upstreams@.len() == descriptor.write_upstreams@.len(),
        forall|i: int|
            0 <= i < descriptor.write_upstreams@.len() ==> texts(run.captured_upstreams@).contains(
                (#[trigger] descriptor.write_upstreams@[i]).name@,
            ),
        run.repo_safety == RepositorySafetyState::Healthy <==> descriptor.write_upstreams@.len()
            == 0,
        run.repo_safety == RepositorySafetyState::Degraded <==> descriptor.write_upstreams@.len()
            > 0,
{
    broadcast use vstd::seq_lib::group_to_multiset_ensures;

    let all = descriptor.write_upstreams@;
    let ordered = sorted(all);
    order::lemma_sorted(all);
    let names = texts(run.captured_upstreams@);
    assert(names.len() == run.captured_upstreams@.len());
    assert forall|i: int| 0 <= i < all.len() implies names.contains(
        (#[trigger] all[i]).name@,
    ) by {
        assert(all.to_multiset().contains(all[i]));
        assert(ordered.contains(all[i]));
        let k = choose|k: int| 0 <= k < ordered.len() && ordered[k] == all[i];
        assert(names[k] == all[i].name@);
    }
}

/// Only an authoritative repository that is ready is reconciled.
pub proof fn law_refused_reconciliations(descriptor: RepositoryDescriptor, e: ReconcileError)
    requires
        reconcile_refused(descriptor, e),
    ensures
        descriptor.mode != RepositoryMode::Authoritative || descriptor.lifecycle
            != RepositoryLifecycle::Ready,
        e is UnsupportedRepositoryMode <==> descriptor.mode != RepositoryMode::Authoritative,
        e is RepositoryNotReady <==> descriptor.mode == RepositoryMode::Authoritative,
{
}

/// A line with a reference, a blank and an object is read as that reference with that object.
pub proof fn law_a_target_line_is_an_entry(name: Seq<char>, oid: Seq<char>)
    requires
        name.len() > 0,
        oid.len() > 0,
        forall|i: int| 0 <= i < name.len() ==> !crate::text::is_space(#[trigger] name[i]),
        forall|i: int| 0 <= i < oid.len() ==> !crate::text::is_space(#[trigger] oid[i]),
    ensures
        targets_listed(seq![name + seq![' '] + oid]) == seq![(name, oid)],
        targets_listed(Seq::empty()) == Seq::<(Seq<char>, Seq<char>)>::empty(),
{
    let line = name + seq![' '] + oid;
    let n = name.len();
    reveal_with_fuel(crate::text::trim_start, 2);
    reveal_with_fuel(crate::text::trim_end, 2);
    assert(line[0] == name[0]);
    assert(line.last() == oid.last());
    assert(trimmed(line) == line);
    assert(trimmed(oid) == oid);
    let p = not_space();
    assert forall|i: int| 0 <= i < n implies p(#[trigger] line[i]) by {
        assert(line[i] == name[i]);
    }
    assert(line[n as int] == ' ');
    lemma_run_is(line, p, n);
    assert(line.take(n as int) =~= name);
    assert(line.skip(n as int + 1) =~= oid);
    let ls = seq![line];
    assert(ls.drop_last() =~= Seq::empty());
    assert(targets_listed(ls.drop_last()) =~= Seq::<(Seq<char>, Seq<char>)>::empty());
    assert(targets_listed(ls) =~= seq![(name, oid)]);
}

/// What is kept of reconciliations lies under the state directory, each kind in a directory of its
/// own, and a pending request in a file that is named after its repository.
pub proof fn law_places_of_reconciliations(
    state_root: Seq<char>,
    kind: Seq<char>,
    repo_id: Seq<char>,
)
    requires
        state_root.len() > 0,
        state_root.last() != '/',
        kind.len() > 0,
        kind[0] != '/',
    ensures
        reconcile_dir(state_root, kind) == state_root + "/reconcile/"@ + kind,
        pending_file(state_root, repo_id) == state_root + "/reconcile/pending/"@ + path_component(
            repo_id,
        ) + ".json"@,
{
    reveal_strlit("reconcile");
    reveal_strlit("/reconcile/");
    reveal_strlit("pending");
    reveal_strlit("/reconcile/pending/");
    reveal_strlit(".json");
    let slash = seq!['/'];
    let area = state_root + slash + "reconcile"@;
    path::law_joined_paths(state_root, "reconcile"@);
    path::law_joined_paths(area, kind);
    assert(area + slash + kind =~= state_root + "/reconcile/"@ + kind);
    path::law_joined_paths(area, "pending"@);
    let pending = area + slash + "pending"@;
    let name = path_component(repo_id) + ".json"@;
    law_path_component_is_safe(repo_id);
    assert(name[0] != '/') by {
        assert(name[0] == path_component(repo_id)[0]);
        assert(crate::sanitize::path_safe(path_component(repo_id)[0]));
    }
    path::law_joined_paths(pending, name);
    assert(pending + slash + name =~= state_root + "/reconcile/pending/"@ + path_component(repo_id)
        + ".json"@);
}

/// The files that hold records are those of the directory with the extension `json`, each of them
/// and no other, and a later one in the order of the names comes first.
pub proof fn law_files_of_records(names: Seq<String>)
    ensures
        forall|name: String| #[trigger]
            record_files(names).contains(name) <==> names.contains(name) && path::file_extension(
                name@,
            ) == Some("json"@),
        forall|i: int, j: int|
            0 <= i < j < record_files(names).len() ==> order::text_le(
                (#[trigger] record_files(names)[j])@,
                (#[trigger] record_files(names)[i])@,
            ),
{
    broadcast use vstd::seq_lib::group_to_multiset_ensures;

    let keep = |n: String| path::file_extension(n@) == Some("json"@);
    let all = sorted(names);
    let backward = all.reverse();
    order::lemma_sorted(names);
    lemma_kept_backward(backward, keep);
    assert forall|name: String| names.contains(name) <==> #[trigger] backward.contains(name) by {
        assert(names.to_multiset().count(name) == all.to_multiset().count(name));
        if all.contains(name) {
            let k = choose|k: int| 0 <= k < all.len() && all[k] == name;
            assert(backward[all.len() - 1 - k] == name);
        }
        if backward.contains(name) {
            let k = choose|k: int| 0 <= k < backward.len() && backward[k] == name;
            assert(all[all.len() - 1 - k] == name);
        }
    }
}

proof fn lemma_kept_backward(s: Seq<String>, keep: spec_fn(String) -> bool)
    requires
        forall|i: int, j: int|
            0 <= i < j < s.len() ==> order::text_le((#[trigger] s[j])@, (#[trigger] s[i])@),
    ensures
        forall|name: String| #[trigger]
            s.filter(keep).contains(name) <==> s.contains(name) && keep(name),
        forall|i: int, j: int|
            0 <= i < j < s.filter(keep).len() ==> order::text_le(
                (#[trigger] s.filter(keep)[j])@,
                (#[trigger] s.filter(keep)[i])@,
            ),
    decreases s.len(),
{
    reveal(Seq::filter);
    if s.len() > 0 {
        let short = s.drop_last();
        lemma_kept_backward(short, keep);
        let kept = short.filter(keep);
        let all = s.filter(keep);
        assert forall|name: String| #[trigger] all.contains(name) <==> s.contains(name) && keep(
            name,
        ) by {
            if s.contains(name) {
                let k = choose|k: int| 0 <= k < s.len() && s[k] == name;
                if k < s.len() - 1 {
                    assert(short[k] == name);
                    if keep(name) {
                        assert(kept.contains(name));
                        let m = choose|m: int| 0 <= m < kept.len() && kept[m] == name;
                        assert(all[m] == name);
                    }
                } else if keep(name) {
                    assert(all[kept.len() as int] == name);
                }
            }
            if all.contains(name) {
                let m = choose|m: int| 0 <= m < all.len() && all[m] == name;
                if m < kept.len() {
                    assert(kept[m] == name);
                    assert(kept.contains(name));
                    assert(short.contains(name));
                    let k = choose|k: int| 0 <= k < short.len() && short[k] == name;
                    assert(s[k] == name);
                } else {
                    assert(s[s.len() - 1] == name);
                }
            }
        }
        assert forall|i: int, j: int| 0 <= i < j < all.len() implies order::text_le(
            (#[trigger] all[j])@,
            (#[trigger] all[i])@,
        ) by {
            assert(all[i] == kept[i]);
            if j < kept.len() {
                assert(all[j] == kept[j]);
            } else {
                assert(kept.contains(kept[i]));
                let k = choose|k: int| 0 <= k < short.len() && short[k] == kept[i];
                assert(s[k] == kept[i]);
                assert(all[j] == s[s.len() - 1]);
            }
        }
    }
}

/// The result of an upstream is told under its name and says whether atomic pushes were asked for.
/// Only then is it asked for them, and a push that had to be atomic was made only where they are
/// supported.
pub proof fn law_results_are_of_their_upstream(
    r: ReconcileUpstreamResult,
    upstream: WriteUpstream,
    desired: Seq<RefSnapshotEntry>,
)
    requires
        warranted(r, upstream, desired),
    ensures
        r.upstream_id@ == upstream.name@,
        r.require_atomic <==> upstream.require_atomic,
        !upstream.require_atomic ==> r.atomic_capability is None,
        r.apply_attempted && upstream.require_atomic ==> r.atomic_capability == Some(
            AtomicCapabilityVerdict::Supported,
        ),
        r.apply_attempted ==> desired.len() > 0 && !r.divergent,
{
}

/// A reconciliation remembers what was last seen of the upstream, fetches it, reads what it holds
/// now, and after a push fetches and reads it again. It fails where a command cannot be started,
/// or where what was observed cannot be read; a fetch that fails leaves the upstream stalled, and
/// a push that fails is followed by the observation all the same.
pub proof fn law_course_of_a_reconciliation(
    s: ReconcileSession,
    reply: GitReply,
    next: ReconcileProgress,
)
    requires
        s.advances_to(reply, next),
    ensures
        reply is NotStarted ==> next is Failed,
        next is Continue ==> s.same_but_stage(next->Continue_0),
        reply is Ran ==> {
            let output = reply->Ran_0;
            let read = output.success && observed_readable(s.upstream.name@, output.stdout@);
            &&& s.stage is ReadPrevious || s.stage is ReadBefore || s.stage is ReadAfter ==> (
            next is Failed <==> !read)
            &&& s.stage is ReadPrevious && read ==> next is Continue && next->Continue_0.stage
                is Fetch && entry_texts(next->Continue_0.stage->Fetch_previous@)
                == observed_snapshot(s.upstream.name@, output.stdout@)
            &&& s.stage is Fetch && output.success ==> next is Continue && next->Continue_0.stage
                is ReadBefore && next->Continue_0.stage->ReadBefore_previous
                == s.stage->Fetch_previous
            &&& s.stage is Fetch && !output.success ==> next is Done && next->Done_0.state
                == UpstreamConvergenceState::Stalled && !next->Done_0.apply_attempted
            &&& s.stage is Push ==> next is Continue && next->Continue_0.stage is FetchAfter
                && next->Continue_0.stage->FetchAfter_apply_attempted && (
            next->Continue_0.stage->FetchAfter_detail is Some <==> !output.success)
            &&& s.stage is FetchAfter && output.success ==> next is Continue
                && next->Continue_0.stage is ReadAfter
            &&& s.stage is FetchAfter && !output.success ==> next is Done && next->Done_0.state
                == UpstreamConvergenceState::Stalled && next->Done_0.apply_attempted
                == s.stage->FetchAfter_apply_attempted
            &&& s.stage is ReadAfter && read ==> next is Done && entry_texts(
                next->Done_0.observed_after@,
            ) == observed_snapshot(s.upstream.name@, output.stdout@)
                && next->Done_0.apply_attempted == s.stage->ReadAfter_apply_attempted
        },
{
    if reply is Ran {
        let output = reply->Ran_0;
        let read = output.success && observed_readable(s.upstream.name@, output.stdout@);
        if s.stage is ReadAfter && read {
            let after = choose|after: Seq<RefSnapshotEntry>|
                entry_texts(after) == observed_snapshot(s.upstream.name@, output.stdout@)
                    && #[trigger] s.ends(
                    next,
                    sync_state(after, s.desired@),
                    false,
                    s.stage->ReadAfter_apply_attempted,
                    text_of(s.stage->ReadAfter_detail),
                    s.stage->ReadAfter_atomic,
                    s.stage->ReadAfter_before@,
                    after,
                );
            assert(entry_texts(next->Done_0.observed_after@) == entry_texts(after));
        }
    }
}

} // verus!
