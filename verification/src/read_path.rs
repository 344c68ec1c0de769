//! Getting a repository ready to be read: serve what is there, refresh it, or say why not.

use crate::config::{
    freshness_text, lifecycle_name, lifecycle_text, AppConfig, FreshnessPolicy,
    HumanDuration, ReadUpstream, RepositoryDescriptor, RepositoryLifecycle, RepositoryMode,
};
use crate::git::{
    debug_list, debug_list_text, failure_text, format_git_failure, render_status, status_text,
    GitReply,
};
use crate::path::{self, joined_path};
use crate::locking::{breakable, is_breakable};
use crate::refs::{glob_refspec, takes};
use crate::sanitize::{path_component, sanitize_path_component};
use crate::text::{
    concat2, concat3, concat4, concat5, contains, copy_option, holds, is_blank, join, joined,
    lemma_texts_push, lines, lines_of, lowered, text_of, texts, to_lower, trimmed,
};
use crate::upstream::ProbeFailureClass;
use vstd::prelude::*;

verus! {

/// Why a repository is made ready: a client is to be served, or an operator asked for it.
#[derive(Debug, Clone, Copy, PartialEq, Eq, Structural)]
pub enum ReadPreparationIntent {
    ClientServe,
    OperatorPrepare,
}

#[derive(Debug, Clone, Copy, PartialEq, Eq, Structural)]
pub enum ReadAction {
    ServedLocal,
    Refreshed,
    ServedStale,
    FailedNegativeCache,
}

#[derive(Debug, Clone, PartialEq, Eq)]
pub struct ReadPreparationReport {
    pub repo_id: String,
    pub repo_path: String,
    pub repo_mode: RepositoryMode,
    pub refresh_policy: String,
    pub action: ReadAction,
    pub refreshed: bool,
    pub stale_served: bool,
    pub negative_cache_hit: bool,
    pub source_upstream: Option<String>,
    pub detail: Option<String>,
    pub last_successful_refresh_at_ms: Option<u128>,
}

/// When a repository was last refreshed, and from where.
#[derive(Debug, Clone, PartialEq, Eq)]
pub struct RefreshState {
    pub repo_id: String,
    pub last_successful_refresh_at_ms: u128,
    pub last_upstream_id: String,
}

/// A refresh that failed and is not tried again for a while.
#[derive(Debug, Clone, PartialEq, Eq)]
pub struct NegativeCacheEntry {
    pub repo_id: String,
    pub failure_class: ProbeFailureClass,
    pub detail: String,
    pub expires_at_ms: u128,
}

/// What a refresh lock says of its holder.
#[derive(Debug, Clone, PartialEq, Eq)]
pub struct RefreshLockMetadata {
    pub repo_id: String,
    pub pid: u32,
    pub acquired_at_ms: u128,
}

#[derive(Debug, Clone)]
pub enum ReadPathError {
    RepositoryNotReady { repo_id: String, lifecycle: RepositoryLifecycle },
    MissingReadUpstreams { repo_id: String },
    InvalidCacheOnlyFreshness { repo_id: String },
    InvalidAuthoritativeFreshness { repo_id: String },
    NoLocalStateForServe { repo_id: String },
    NoLocalStateForStaleServe { repo_id: String },
    NegativeCacheActive { repo_id: String, detail: String },
    RefreshFailed { repo_id: String, detail: String },
    CreateDir { path: String, error: String },
    Read { path: String, error: String },
    Write { path: String, error: String },
    ParseJson { path: String, error: String },
    SpawnGit { args: Vec<String>, error: String },
    Git { args: Vec<String>, status: Option<i32>, detail: String },
}

impl ReadPathError {
    pub open spec fn message_text(self) -> Seq<char> {
        match self {
            ReadPathError::RepositoryNotReady { repo_id, lifecycle } => "repository "@ + repo_id@
                + " is "@ + lifecycle_text(lifecycle) + " and not ready for normal read traffic"@,
            ReadPathError::MissingReadUpstreams { repo_id } => "repository "@ + repo_id@
                + " is cache-only and must define at least one read upstream"@,
            ReadPathError::InvalidCacheOnlyFreshness { repo_id } => "repository "@ + repo_id@
                + " is cache-only and cannot use authoritative-local freshness"@,
            ReadPathError::InvalidAuthoritativeFreshness { repo_id } => "repository "@ + repo_id@
                + " is authoritative and must use authoritative-local freshness"@,
            ReadPathError::NoLocalStateForServe { repo_id } => "repository "@ + repo_id@
                + " cannot be served locally because freshness policy requires explicit operator preparation before any local refs exist"@,
            ReadPathError::NoLocalStateForStaleServe { repo_id } => "repository "@ + repo_id@
                + " has no stale local refs to serve after upstream refresh failed"@,
            ReadPathError::NegativeCacheActive { repo_id, detail } =>
                "negative cache is active for repository "@ + repo_id@ + ": "@ + detail@,
            ReadPathError::RefreshFailed { repo_id, detail } =>
                "all read upstreams failed for repository "@ + repo_id@ + ": "@ + detail@,
            ReadPathError::CreateDir { path, error } => "failed to create directory "@ + path@
                + ": "@ + error@,
            ReadPathError::Read { path, error } => "failed to read "@ + path@ + ": "@ + error@,
            ReadPathError::Write { path, error } => "failed to write "@ + path@ + ": "@ + error@,
            ReadPathError::ParseJson { path, error } => "failed to parse JSON "@ + path@ + ": "@
                + error@,
            ReadPathError::SpawnGit { args, error } => "failed to run git "@ + debug_list_text(
                texts(args@),
            ) + ": "@ + error@,
            ReadPathError::Git { args, status, detail } => "git failed for args "@
                + debug_list_text(texts(args@)) + " with status "@ + status_text(status) + ": "@
                + detail@,
        }
    }

    /// The error in words.
    pub fn message(&self) -> (r: String)
        ensures
            r@ == self.message_text(),
    {
        match self {
            ReadPathError::RepositoryNotReady { repo_id, lifecycle } => concat5(
                "repository ",
                repo_id,
                " is ",
                lifecycle_name(*lifecycle),
                " and not ready for normal read traffic",
            ),
            ReadPathError::MissingReadUpstreams { repo_id } => concat3(
                "repository ",
                repo_id,
                " is cache-only and must define at least one read upstream",
            ),
            ReadPathError::InvalidCacheOnlyFreshness { repo_id } => concat3(
                "repository ",
                repo_id,
                " is cache-only and cannot use authoritative-local freshness",
            ),
            ReadPathError::InvalidAuthoritativeFreshness { repo_id } => concat3(
                "repository ",
                repo_id,
                " is authoritative and must use authoritative-local freshness",
            ),
            ReadPathError::NoLocalStateForServe { repo_id } => concat3(
                "repository ",
                repo_id,
                " cannot be served locally because freshness policy requires explicit operator preparation before any local refs exist",
            ),
            ReadPathError::NoLocalStateForStaleServe { repo_id } => concat3(
                "repository ",
                repo_id,
                " has no stale local refs to serve after upstream refresh failed",
            ),
            ReadPathError::NegativeCacheActive { repo_id, detail } => concat4(
                "negative cache is active for repository ",
                repo_id,
                ": ",
                detail,
            ),
            ReadPathError::RefreshFailed { repo_id, detail } => concat4(
                "all read upstreams failed for repository ",
                repo_id,
                ": ",
                detail,
            ),
            ReadPathError::CreateDir { path, error } => concat4(
                "failed to create directory ",
                path,
                ": ",
                error,
            ),
            ReadPathError::Read { path, error } => concat4("failed to read ", path, ": ", error),
            ReadPathError::Write { path, error } => concat4("failed to write ", path, ": ", error),
            ReadPathError::ParseJson { path, error } => concat4(
                "failed to parse JSON ",
                path,
                ": ",
                error,
            ),
            ReadPathError::SpawnGit { args, error } => concat4(
                "failed to run git ",
                &debug_list(args),
                ": ",
                error,
            ),
            ReadPathError::Git { args, status, detail } => {
                let head = concat4(
                    "git failed for args ",
                    &debug_list(args),
                    " with status ",
                    &render_status(*status),
                );
                concat3(&head, ": ", detail)
            },
        }
    }
}

// ---------------------------------------------------------------------------
// What a policy allows

/// What is known locally of a repository at a moment.
#[derive(Debug, Clone)]
pub struct LocalView {
    pub state: Option<RefreshState>,
    pub has_local_refs: bool,
    pub now_ms: u128,
}

/// Whether a policy serves what is there without a refresh: a manual one where there is something
/// and a client asks, one with a time to live where the last refresh is no older than that.
pub open spec fn serves_local(
    policy: FreshnessPolicy,
    view: LocalView,
    intent: ReadPreparationIntent,
) -> bool {
    match policy {
        FreshnessPolicy::ManualOnly => intent == ReadPreparationIntent::ClientServe
            && view.has_local_refs,
        FreshnessPolicy::Ttl(ttl) => match view.state {
            Some(state) => view.has_local_refs && view.now_ms - state.last_successful_refresh_at_ms
                <= ttl.0.0 * 1000,
            None => false,
        },
        FreshnessPolicy::AuthoritativeLocal => true,
        FreshnessPolicy::AlwaysRefresh => false,
        FreshnessPolicy::StaleIfError => false,
    }
}

/// Whether a policy serves what is there without a refresh.
pub fn can_serve_local_without_refresh(
    policy: FreshnessPolicy,
    view: &LocalView,
    intent: ReadPreparationIntent,
) -> (r: bool)
    ensures
        r == serves_local(policy, *view, intent),
{
    match policy {
        FreshnessPolicy::ManualOnly => intent == ReadPreparationIntent::ClientServe
            && view.has_local_refs,
        FreshnessPolicy::Ttl(ttl) => match &view.state {
            Some(state) => view.has_local_refs && view.now_ms.saturating_sub(
                state.last_successful_refresh_at_ms,
            ) <= ttl.as_duration().as_millis(),
            None => false,
        },
        FreshnessPolicy::AuthoritativeLocal => true,
        FreshnessPolicy::AlwaysRefresh => false,
        FreshnessPolicy::StaleIfError => false,
    }
}

/// Whether a policy allows a refresh: a manual one only where an operator asks.
pub open spec fn allows_refresh(policy: FreshnessPolicy, intent: ReadPreparationIntent) -> bool {
    match policy {
        FreshnessPolicy::AuthoritativeLocal => false,
        FreshnessPolicy::ManualOnly => intent == ReadPreparationIntent::OperatorPrepare,
        _ => true,
    }
}

/// Whether a policy allows a refresh.
pub fn policy_allows_refresh(policy: FreshnessPolicy, intent: ReadPreparationIntent) -> (r: bool)
    ensures
        r == allows_refresh(policy, intent),
{
    match policy {
        FreshnessPolicy::AuthoritativeLocal => false,
        FreshnessPolicy::ManualOnly => intent == ReadPreparationIntent::OperatorPrepare,
        _ => true,
    }
}

/// Whether a failure that is still remembered keeps the first attempt back: always, but for a
/// manual refresh that an operator asks for.
pub open spec fn honors_negative_cache(
    policy: FreshnessPolicy,
    intent: ReadPreparationIntent,
) -> bool {
    !(policy == FreshnessPolicy::ManualOnly && intent == ReadPreparationIntent::OperatorPrepare)
}

/// Whether a failure that is still remembered keeps the first attempt back.
pub fn honor_initial_negative_cache(
    policy: FreshnessPolicy,
    intent: ReadPreparationIntent,
) -> (r: bool)
    ensures
        r == honors_negative_cache(policy, intent),
{
    match (policy, intent) {
        (FreshnessPolicy::ManualOnly, ReadPreparationIntent::OperatorPrepare) => false,
        _ => true,
    }
}

/// Whether a remembered failure still counts: it has not expired.
pub open spec fn remembered(entry: Option<NegativeCacheEntry>, now_ms: u128) -> bool {
    entry matches Some(e) && e.expires_at_ms > now_ms
}

/// The remembered failure that still counts.
pub fn active_negative_cache(entry: Option<NegativeCacheEntry>, now_ms: u128) -> (r: Option<
    NegativeCacheEntry,
>)
    ensures
        r == (if remembered(entry, now_ms) {
            entry
        } else {
            None
        }),
{
    match entry {
        Some(e) => if e.expires_at_ms > now_ms {
            Some(e)
        } else {
            None
        },
        None => None,
    }
}

/// What the text of a failed refresh means; the first of these that fits.
pub open spec fn refresh_failure_class(detail: Seq<char>) -> ProbeFailureClass {
    let t = lowered(detail);
    if holds(t, "repository not found"@) || holds(t, "does not appear to be a git repository"@)
        || holds(t, "not a git repository"@) || holds(t, "couldn't find remote ref"@) {
        ProbeFailureClass::RepositoryMissing
    } else if holds(t, "permission denied"@) || holds(t, "access denied"@) || holds(
        t,
        "authentication failed"@,
    ) || holds(t, "could not read from remote repository"@) {
        ProbeFailureClass::AccessDenied
    } else if holds(t, "could not resolve host"@) || holds(t, "name or service not known"@)
        || holds(t, "connection refused"@) || holds(t, "connection timed out"@) || holds(
        t,
        "operation timed out"@,
    ) || holds(t, "network is unreachable"@) || holds(t, "no route to host"@) || holds(
        t,
        "connection reset"@,
    ) {
        ProbeFailureClass::TransportUnreachable
    } else {
        ProbeFailureClass::Unknown
    }
}

/// What the text of a failed refresh means.
pub fn classify_refresh_failure(detail: &str) -> (r: ProbeFailureClass)
    ensures
        r == refresh_failure_class(detail@),
{
    let t = to_lower(detail);
    if contains(&t, "repository not found") || contains(
        &t,
        "does not appear to be a git repository",
    ) || contains(&t, "not a git repository") || contains(&t, "couldn't find remote ref") {
        ProbeFailureClass::RepositoryMissing
    } else if contains(&t, "permission denied") || contains(&t, "access denied") || contains(
        &t,
        "authentication failed",
    ) || contains(&t, "could not read from remote repository") {
        ProbeFailureClass::AccessDenied
    } else if contains(&t, "could not resolve host") || contains(&t, "name or service not known")
        || contains(&t, "connection refused") || contains(&t, "connection timed out")
        || contains(&t, "operation timed out") || contains(&t, "network is unreachable")
        || contains(&t, "no route to host") || contains(&t, "connection reset") {
        ProbeFailureClass::TransportUnreachable
    } else {
        ProbeFailureClass::Unknown
    }
}

/// A failed refresh and a failed probe mean the same, but that only a probe can fail over atomic
/// pushes.
pub proof fn law_failure_classes_agree(detail: Seq<char>)
    ensures
        crate::upstream::failure_class(detail) != ProbeFailureClass::ProtocolUnsupported
            ==> refresh_failure_class(detail) == crate::upstream::failure_class(detail),
        crate::upstream::failure_class(detail) == ProbeFailureClass::ProtocolUnsupported
            ==> refresh_failure_class(detail) == ProbeFailureClass::Unknown,
{
}

/// Whether a refresh lock may be broken: it says nothing of its holder, or it is older than the
/// timeout and its holder is gone.
pub fn lock_is_stale(
    metadata: Option<&RefreshLockMetadata>,
    now_ms: u128,
    lock_timeout_ms: u64,
    pid_alive: bool,
) -> (r: bool)
    ensures
        r == breakable(
            match metadata {
                Some(m) => Some(m.acquired_at_ms),
                None => None,
            },
            now_ms,
            lock_timeout_ms,
            pid_alive,
        ),
{
    let acquired_at_ms: Option<u128> = match metadata {
        Some(m) => Some(m.acquired_at_ms),
        None => None,
    };
    is_breakable(acquired_at_ms, now_ms, lock_timeout_ms, pid_alive)
}

/// Whether a listing of branches and tags names one.
pub open spec fn names_a_ref(ls: Seq<Seq<char>>) -> bool {
    exists|i: int| 0 <= i < ls.len() && trimmed(#[trigger] ls[i]).len() > 0
}

/// Whether a listing of branches and tags names one.
pub fn repository_has_visible_refs(stdout: &str) -> (r: bool)
    ensures
        r == names_a_ref(lines_of(stdout@)),
{
    let all = lines(stdout);
    let ghost ls = lines_of(stdout@);
    let mut i: usize = 0;
    while i < all.len()
        invariant
            i <= all@.len(),
            texts(all@) == ls,
            ls == lines_of(stdout@),
            forall|j: int| 0 <= j < i ==> trimmed(#[trigger] ls[j]).len() == 0,
        decreases all@.len() - i,
    {
        assert(ls[i as int] == all@[i as int]@);
        if !is_blank(&all[i]) {
            return true;
        }
        i += 1;
    }
    false
}

// ---------------------------------------------------------------------------
// Refreshing from the upstreams in turn

/// A refresh under way: which upstream is tried, and how those before it failed.
#[derive(Debug, Clone)]
pub struct RefreshSession {
    pub repo_id: String,
    pub upstreams: Vec<ReadUpstream>,
    pub next: usize,
    pub failures: Vec<String>,
}

/// Where a refresh stands after the outcome of a fetch.
#[derive(Debug, Clone)]
pub enum RefreshProgress {
    Continue(RefreshSession),
    Refreshed(RefreshState),
    Failed(ReadPathError),
}

/// The error of a fetch that failed.
pub open spec fn fetch_error(command: Seq<Seq<char>>, reply: GitReply) -> Seq<char> {
    match reply {
        GitReply::NotStarted { error } => "failed to run git "@ + debug_list_text(command) + ": "@
            + error@,
        GitReply::Ran(output) => "git failed for args "@ + debug_list_text(texts(output.args@))
            + " with status "@ + status_text(output.status) + ": "@ + failure_text(output),
    }
}

/// Whether Git ran and succeeded.
pub open spec fn succeeded(reply: GitReply) -> bool {
    reply matches GitReply::Ran(output) && output.success
}

/// The arguments of the Git command that fetches everything from an upstream.
pub open spec fn refresh_args(url: Seq<char>) -> Seq<Seq<char>> {
    seq![
        "fetch"@,
        "--prune"@,
        "--prune-tags"@,
        url,
        "+refs/heads/*:refs/heads/*"@,
        "+refs/tags/*:refs/tags/*"@,
    ]
}

impl RefreshSession {
    /// Whether there is an upstream to try.
    pub open spec fn wf(self) -> bool {
        self.next < self.upstreams@.len()
    }

    /// The arguments of the Git command that the refresh waits for.
    pub fn command(&self) -> (r: Vec<String>)
        requires
            self.wf(),
        ensures
            texts(r@) == refresh_args(self.upstreams@[self.next as int].url@),
    {
        vec![
            "fetch".to_owned(),
            "--prune".to_owned(),
            "--prune-tags".to_owned(),
            self.upstreams[self.next].url.clone(),
            "+refs/heads/*:refs/heads/*".to_owned(),
            "+refs/tags/*:refs/tags/*".to_owned(),
        ]
    }

    /// What is remembered of a failed fetch: the upstream and the error.
    pub open spec fn failure(self, reply: GitReply) -> Seq<char> {
        let upstream = self.upstreams@[self.next as int];
        upstream.name@ + ": "@ + fetch_error(refresh_args(upstream.url@), reply)
    }

    /// Takes the outcome of the fetch that the refresh waited for: the first upstream that can be
    /// fetched from ends it, and it fails once all have failed.
    pub fn advance(self, reply: GitReply, now_ms: u128) -> (r: RefreshProgress)
        requires
            self.wf(),
        ensures
            match r {
                RefreshProgress::Refreshed(state) => {
                    &&& succeeded(reply)
                    &&& state.repo_id@ == self.repo_id@
                    &&& state.last_successful_refresh_at_ms == now_ms
                    &&& state.last_upstream_id@ == self.upstreams@[self.next as int].name@
                },
                RefreshProgress::Continue(s) => {
                    &&& !succeeded(reply)
                    &&& self.next + 1 < self.upstreams@.len()
                    &&& s.wf()
                    &&& s.repo_id == self.repo_id
                    &&& s.upstreams == self.upstreams
                    &&& s.next == self.next + 1
                    &&& texts(s.failures@) == texts(self.failures@).push(self.failure(reply))
                },
                RefreshProgress::Failed(e) => {
                    &&& !succeeded(reply)
                    &&& self.next + 1 == self.upstreams@.len()
                    &&& e is RefreshFailed
                    &&& e->RefreshFailed_repo_id@ == self.repo_id@
                    &&& e->RefreshFailed_detail@ == joined(
                        texts(self.failures@).push(self.failure(reply)),
                        " | "@,
                    )
                },
            },
    {
        let args = self.command();
        let mut session = self;
        let error = match reply {
            GitReply::NotStarted { error } => ReadPathError::SpawnGit { args, error },
            GitReply::Ran(output) => {
                if output.success {
                    return RefreshProgress::Refreshed(
                        RefreshState {
                            repo_id: session.repo_id,
                            last_successful_refresh_at_ms: now_ms,
                            last_upstream_id: session.upstreams[session.next].name.clone(),
                        },
                    );
                }
                let detail = format_git_failure(&output);
                ReadPathError::Git { args: output.args, status: output.status, detail }
            },
        };
        let failure = concat3(
            &session.upstreams[session.next].name,
            ": ",
            &error.message(),
        );
        assert(failure@ == self.failure(reply));
        proof {
            lemma_texts_push(session.failures@, failure);
        }
        session.failures.push(failure);
        let count: usize = session.upstreams.len();
        session.next += 1;
        if session.next == count {
            let detail = join(&session.failures, " | ");
            return RefreshProgress::Failed(
                ReadPathError::RefreshFailed { repo_id: session.repo_id, detail },
            );
        }
        RefreshProgress::Continue(session)
    }
}

/// A copy of a read upstream.
pub fn copy_read_upstream(upstream: &ReadUpstream) -> (r: ReadUpstream)
    ensures
        r == *upstream,
{
    ReadUpstream {
        name: upstream.name.clone(),
        url: upstream.url.clone(),
        auth_profile: copy_option(&upstream.auth_profile),
    }
}

/// A refresh of a repository from its upstreams, in the order in which the descriptor lists them.
pub fn refresh_from_upstreams(descriptor: &RepositoryDescriptor) -> (r: RefreshSession)
    requires
        descriptor.read_upstreams@.len() > 0,
    ensures
        r.wf(),
        r.repo_id@ == descriptor.repo_id@,
        r.upstreams@ == descriptor.read_upstreams@,
        r.next == 0,
        r.failures@.len() == 0,
{
    let all = &descriptor.read_upstreams;
    let mut upstreams: Vec<ReadUpstream> = Vec::new();
    let mut i: usize = 0;
    while i < all.len()
        invariant
            i <= all@.len(),
            upstreams@ == all@.take(i as int),
        decreases all@.len() - i,
    {
        upstreams.push(copy_read_upstream(&all[i]));
        i += 1;
        assert(all@.take(i as int) =~= all@.take(i - 1).push(all@[i - 1]));
    }
    assert(all@.take(i as int) =~= all@);
    RefreshSession {
        repo_id: descriptor.repo_id.clone(),
        upstreams,
        next: 0,
        failures: Vec::new(),
    }
}

// ---------------------------------------------------------------------------
// The course of a read preparation

/// The preparation of a repository for a read, under way.
#[derive(Debug, Clone)]
pub struct ReadSession {
    pub repo_id: String,
    pub repo_path: String,
    pub repo_mode: RepositoryMode,
    pub refresh: FreshnessPolicy,
    pub intent: ReadPreparationIntent,
    /// How long a failed refresh is remembered, in milliseconds.
    pub negative_cache_ttl_ms: u128,
    pub stage: ReadStage,
}

/// How far a read preparation has come: what it waits to learn.
#[derive(Debug, Clone)]
pub enum ReadStage {
    /// When an authoritative repository was last refreshed.
    AuthoritativeState,
    /// What is there.
    Look,
    /// Whether a failure is remembered.
    CheckNegativeCache { view: LocalView },
    /// Whether it holds the refresh lock.
    TryLock,
    /// What is there, now that it holds the lock.
    LookLocked,
    /// Whether the upstreams could be fetched from.
    Refresh { view: LocalView },
    /// What is there, now that another holds the lock.
    LookWaiting,
    /// Whether the other has left a failure behind.
    CheckNegativeCacheWaiting { view: LocalView },
}

/// What a read preparation asks its host to do next.
#[derive(Debug, Clone, Copy, PartialEq, Eq, Structural)]
pub enum ReadStep {
    ReadRefreshState,
    Look,
    ReadNegativeCache,
    TryLock,
    Refresh,
}

/// What a read preparation learns.
#[derive(Debug, Clone)]
pub enum ReadEvent {
    RefreshState(Option<RefreshState>),
    Looked(LocalView),
    NegativeCache(Option<NegativeCacheEntry>),
    Lock(bool),
    Refreshed(RefreshState),
    /// The refresh failed; the text says how.
    RefreshFailed(String),
}

/// How a read preparation ended, and what becomes of the remembered failure.
#[derive(Debug)]
pub struct ReadOutcome {
    pub result: Result<ReadPreparationReport, ReadPathError>,
    pub clear_negative_cache: bool,
    pub write_negative_cache: Option<NegativeCacheEntry>,
}

/// Where a read preparation stands after it learned something.
#[derive(Debug)]
pub enum ReadProgress {
    Continue(ReadSession),
    Finished(ReadOutcome),
}

/// The upstream that a repository was last refreshed from.
pub open spec fn source_of(state: Option<RefreshState>) -> Option<Seq<char>> {
    match state {
        Some(s) => Some(s.last_upstream_id@),
        None => None,
    }
}

/// When a repository was last refreshed.
pub open spec fn refreshed_at(state: Option<RefreshState>) -> Option<u128> {
    match state {
        Some(s) => Some(s.last_successful_refresh_at_ms),
        None => None,
    }
}

impl ReadSession {
    /// What the preparation asks its host to do next.
    pub open spec fn asks_for(self) -> ReadStep {
        match self.stage {
            ReadStage::AuthoritativeState => ReadStep::ReadRefreshState,
            ReadStage::Look => ReadStep::Look,
            ReadStage::CheckNegativeCache { .. } => ReadStep::ReadNegativeCache,
            ReadStage::TryLock => ReadStep::TryLock,
            ReadStage::LookLocked => ReadStep::Look,
            ReadStage::Refresh { .. } => ReadStep::Refresh,
            ReadStage::LookWaiting => ReadStep::Look,
            ReadStage::CheckNegativeCacheWaiting { .. } => ReadStep::ReadNegativeCache,
        }
    }

    /// What the preparation asks its host to do next.
    pub fn step(&self) -> (r: ReadStep)
        ensures
            r == self.asks_for(),
    {
        match &self.stage {
            ReadStage::AuthoritativeState => ReadStep::ReadRefreshState,
            ReadStage::Look => ReadStep::Look,
            ReadStage::CheckNegativeCache { .. } => ReadStep::ReadNegativeCache,
            ReadStage::TryLock => ReadStep::TryLock,
            ReadStage::LookLocked => ReadStep::Look,
            ReadStage::Refresh { .. } => ReadStep::Refresh,
            ReadStage::LookWaiting => ReadStep::Look,
            ReadStage::CheckNegativeCacheWaiting { .. } => ReadStep::ReadNegativeCache,
        }
    }

    /// Whether the end of what is remembered can be told: the present and the time to live do not
    /// exceed what a time can say.
    pub open spec fn wf(self) -> bool {
        self.stage matches ReadStage::Refresh { view } ==> view.now_ms + self.negative_cache_ttl_ms
            <= u128::MAX
    }

    /// Whether an event answers what the preparation asked for.
    pub open spec fn answers(self, event: ReadEvent) -> bool {
        match event {
            ReadEvent::RefreshState(_) => self.asks_for() == ReadStep::ReadRefreshState,
            ReadEvent::Looked(view) => self.asks_for() == ReadStep::Look && view.now_ms
                + self.negative_cache_ttl_ms <= u128::MAX,
            ReadEvent::NegativeCache(_) => self.asks_for() == ReadStep::ReadNegativeCache,
            ReadEvent::Lock(_) => self.asks_for() == ReadStep::TryLock,
            ReadEvent::Refreshed(_) => self.asks_for() == ReadStep::Refresh,
            ReadEvent::RefreshFailed(_) => self.asks_for() == ReadStep::Refresh,
        }
    }

    /// Whether a report tells of this repository that it was served the given way.
    pub open spec fn reports(
        self,
        r: ReadPreparationReport,
        action: ReadAction,
        negative_cache_hit: bool,
        source: Option<Seq<char>>,
        detail: Option<Seq<char>>,
        last_refresh: Option<u128>,
    ) -> bool {
        &&& r.repo_id@ == self.repo_id@
        &&& r.repo_path@ == self.repo_path@
        &&& r.repo_mode == self.repo_mode
        &&& r.refresh_policy@ == freshness_text(self.refresh)
        &&& r.action == action
        &&& r.refreshed == (action == ReadAction::Refreshed)
        &&& r.stale_served == (action == ReadAction::ServedStale)
        &&& r.negative_cache_hit == negative_cache_hit
        &&& text_of(r.source_upstream) == source
        &&& text_of(r.detail) == detail
        &&& r.last_successful_refresh_at_ms == last_refresh
    }

    /// Whether the preparation goes on at a stage.
    pub open spec fn continues(self, next: ReadProgress, stage: ReadStage) -> bool {
        next matches ReadProgress::Continue(s) && s == (ReadSession { stage, ..self })
    }

    /// Whether the preparation ended by serving what is there.
    pub open spec fn serves(self, next: ReadProgress, view: LocalView) -> bool {
        &&& next is Finished
        &&& next->Finished_0.result is Ok
        &&& next->Finished_0.clear_negative_cache
        &&& next->Finished_0.write_negative_cache is None
        &&& self.reports(
            next->Finished_0.result->Ok_0,
            ReadAction::ServedLocal,
            false,
            source_of(view.state),
            None,
            refreshed_at(view.state),
        )
    }

    /// Whether the preparation ended over a remembered failure: stale content is served where the
    /// policy takes it and there is some.
    pub open spec fn held_back(
        self,
        next: ReadProgress,
        view: LocalView,
        entry: NegativeCacheEntry,
    ) -> bool {
        &&& next is Finished
        &&& !next->Finished_0.clear_negative_cache
        &&& next->Finished_0.write_negative_cache is None
        &&& if self.refresh == FreshnessPolicy::StaleIfError && view.has_local_refs {
            &&& next->Finished_0.result is Ok
            &&& self.reports(
                next->Finished_0.result->Ok_0,
                ReadAction::ServedStale,
                true,
                source_of(view.state),
                Some(entry.detail@),
                refreshed_at(view.state),
            )
        } else {
            &&& next->Finished_0.result is Err
            &&& next->Finished_0.result->Err_0 is NegativeCacheActive
            &&& next->Finished_0.result->Err_0->NegativeCacheActive_repo_id@ == self.repo_id@
            &&& next->Finished_0.result->Err_0->NegativeCacheActive_detail@ == entry.detail@
        }
    }

    /// Whether the preparation ended over a refresh that failed: the failure is remembered, and
    /// stale content is served where the policy takes it and there is some.
    pub open spec fn refresh_failed(
        self,
        next: ReadProgress,
        view: LocalView,
        detail: Seq<char>,
    ) -> bool {
        &&& next is Finished
        &&& !next->Finished_0.clear_negative_cache
        &&& next->Finished_0.write_negative_cache is Some
        &&& next->Finished_0.write_negative_cache->0.repo_id@ == self.repo_id@
        &&& next->Finished_0.write_negative_cache->0.failure_class == refresh_failure_class(detail)
        &&& next->Finished_0.write_negative_cache->0.detail@ == detail
        &&& next->Finished_0.write_negative_cache->0.expires_at_ms == view.now_ms
            + self.negative_cache_ttl_ms
        &&& if self.refresh == FreshnessPolicy::StaleIfError && view.has_local_refs {
            &&& next->Finished_0.result is Ok
            &&& self.reports(
                next->Finished_0.result->Ok_0,
                ReadAction::ServedStale,
                false,
                source_of(view.state),
                Some(detail),
                refreshed_at(view.state),
            )
        } else if self.refresh == FreshnessPolicy::StaleIfError {
            &&& next->Finished_0.result is Err
            &&& next->Finished_0.result->Err_0 is NoLocalStateForStaleServe
            &&& next->Finished_0.result->Err_0->NoLocalStateForStaleServe_repo_id@ == self.repo_id@
        } else {
            &&& next->Finished_0.result is Err
            &&& next->Finished_0.result->Err_0 is RefreshFailed
            &&& next->Finished_0.result->Err_0->RefreshFailed_repo_id@ == self.repo_id@
            &&& next->Finished_0.result->Err_0->RefreshFailed_detail@ == detail
        }
    }

    /// Whether the preparation ended with an error that leaves the remembered failure alone.
    pub open spec fn refused(self, next: ReadProgress) -> bool {
        &&& next is Finished
        &&& next->Finished_0.result is Err
        &&& !next->Finished_0.clear_negative_cache
        &&& next->Finished_0.write_negative_cache is None
    }

    /// Where the preparation stands after it learned something.
    pub open spec fn advances_to(self, event: ReadEvent, next: ReadProgress) -> bool {
        match (self.stage, event) {
            (ReadStage::AuthoritativeState, ReadEvent::RefreshState(state)) => {
                &&& next is Finished
                &&& next->Finished_0.result is Ok
                &&& !next->Finished_0.clear_negative_cache
                &&& next->Finished_0.write_negative_cache is None
                &&& self.reports(
                    next->Finished_0.result->Ok_0,
                    ReadAction::ServedLocal,
                    false,
                    None,
                    None,
                    refreshed_at(state),
                )
            },
            (ReadStage::Look, ReadEvent::Looked(view)) => if serves_local(
                self.refresh,
                view,
                self.intent,
            ) {
                self.serves(next, view)
            } else if !allows_refresh(self.refresh, self.intent) {
                &&& self.refused(next)
                &&& next->Finished_0.result->Err_0 is NoLocalStateForServe
                &&& next->Finished_0.result->Err_0->NoLocalStateForServe_repo_id@ == self.repo_id@
            } else if honors_negative_cache(self.refresh, self.intent) {
                self.continues(next, ReadStage::CheckNegativeCache { view })
            } else {
                self.continues(next, ReadStage::TryLock)
            },
            (ReadStage::CheckNegativeCache { view }, ReadEvent::NegativeCache(entry)) =>
                if remembered(entry, view.now_ms) {
                self.held_back(next, view, entry->0)
            } else {
                self.continues(next, ReadStage::TryLock)
            },
            (ReadStage::TryLock, ReadEvent::Lock(held)) => self.continues(
                next,
                if held {
                    ReadStage::LookLocked
                } else {
                    ReadStage::LookWaiting
                },
            ),
            (ReadStage::LookLocked, ReadEvent::Looked(view)) => if serves_local(
                self.refresh,
                view,
                self.intent,
            ) {
                self.serves(next, view)
            } else {
                self.continues(next, ReadStage::Refresh { view })
            },
            (ReadStage::Refresh { view }, ReadEvent::Refreshed(state)) => {
                &&& next is Finished
                &&& next->Finished_0.result is Ok
                &&& next->Finished_0.clear_negative_cache
                &&& next->Finished_0.write_negative_cache is None
                &&& self.reports(
                    next->Finished_0.result->Ok_0,
                    ReadAction::Refreshed,
                    false,
                    Some(state.last_upstream_id@),
                    None,
                    Some(state.last_successful_refresh_at_ms),
                )
            },
            (ReadStage::Refresh { view }, ReadEvent::RefreshFailed(detail)) => self.refresh_failed(
                next,
                view,
                detail@,
            ),
            (ReadStage::LookWaiting, ReadEvent::Looked(view)) => if serves_local(
                self.refresh,
                view,
                self.intent,
            ) {
                self.serves(next, view)
            } else {
                self.continues(next, ReadStage::CheckNegativeCacheWaiting { view })
            },
            (ReadStage::CheckNegativeCacheWaiting { view }, ReadEvent::NegativeCache(entry)) =>
                if remembered(entry, view.now_ms) {
                self.held_back(next, view, entry->0)
            } else {
                self.continues(next, ReadStage::TryLock)
            },
            _ => false,
        }
    }

    fn report(
        self,
        action: ReadAction,
        negative_cache_hit: bool,
        source_upstream: Option<String>,
        detail: Option<String>,
        last_refresh: Option<u128>,
    ) -> (r: ReadPreparationReport)
        ensures
            self.reports(
                r,
                action,
                negative_cache_hit,
                text_of(source_upstream),
                text_of(detail),
                last_refresh,
            ),
    {
        ReadPreparationReport {
            repo_id: self.repo_id,
            repo_path: self.repo_path,
            repo_mode: self.repo_mode,
            refresh_policy: self.refresh.to_string(),
            action,
            refreshed: action == ReadAction::Refreshed,
            stale_served: action == ReadAction::ServedStale,
            negative_cache_hit,
            source_upstream,
            detail,
            last_successful_refresh_at_ms: last_refresh,
        }
    }

    fn at(self, stage: ReadStage) -> (r: ReadProgress)
        ensures
            self.continues(r, stage),
    {
        ReadProgress::Continue(
            ReadSession {
                repo_id: self.repo_id,
                repo_path: self.repo_path,
                repo_mode: self.repo_mode,
                refresh: self.refresh,
                intent: self.intent,
                negative_cache_ttl_ms: self.negative_cache_ttl_ms,
                stage,
            },
        )
    }

    fn serve(self, view: LocalView) -> (r: ReadProgress)
        ensures
            self.serves(r, view),
    {
        let (source, last) = split_state(view.state);
        ReadProgress::Finished(
            ReadOutcome {
                result: Ok(self.report(ReadAction::ServedLocal, false, source, None, last)),
                clear_negative_cache: true,
                write_negative_cache: None,
            },
        )
    }

    fn fail(self, error: ReadPathError) -> (r: ReadProgress)
        ensures
            self.refused(r),
            r->Finished_0.result->Err_0 == error,
    {
        ReadProgress::Finished(
            ReadOutcome {
                result: Err(error),
                clear_negative_cache: false,
                write_negative_cache: None,
            },
        )
    }

    fn negative_cache_response(self, view: LocalView, entry: NegativeCacheEntry) -> (r:
        ReadProgress)
        ensures
            self.held_back(r, view, entry),
    {
        if self.refresh == FreshnessPolicy::StaleIfError && view.has_local_refs {
            let (source, last) = split_state(view.state);
            ReadProgress::Finished(
                ReadOutcome {
                    result: Ok(
                        self.report(
                            ReadAction::ServedStale,
                            true,
                            source,
                            Some(entry.detail),
                            last,
                        ),
                    ),
                    clear_negative_cache: false,
                    write_negative_cache: None,
                },
            )
        } else {
            let repo_id = self.repo_id.clone();
            self.fail(ReadPathError::NegativeCacheActive { repo_id, detail: entry.detail })
        }
    }

    fn refresh_failure(self, view: LocalView, detail: String) -> (r: ReadProgress)
        requires
            view.now_ms + self.negative_cache_ttl_ms <= u128::MAX,
        ensures
            self.refresh_failed(r, view, detail@),
    {
        let entry = NegativeCacheEntry {
            repo_id: self.repo_id.clone(),
            failure_class: classify_refresh_failure(&detail),
            detail: detail.clone(),
            expires_at_ms: view.now_ms + self.negative_cache_ttl_ms,
        };
        let repo_id = self.repo_id.clone();
        let result = if self.refresh == FreshnessPolicy::StaleIfError && view.has_local_refs {
            let (source, last) = split_state(view.state);
            Ok(self.report(ReadAction::ServedStale, false, source, Some(detail), last))
        } else if self.refresh == FreshnessPolicy::StaleIfError {
            Err(ReadPathError::NoLocalStateForStaleServe { repo_id })
        } else {
            Err(ReadPathError::RefreshFailed { repo_id, detail })
        };
        ReadProgress::Finished(
            ReadOutcome { result, clear_negative_cache: false, write_negative_cache: Some(entry) },
        )
    }

    /// Takes what the preparation asked for.
    pub fn advance(self, event: ReadEvent) -> (r: ReadProgress)
        requires
            self.wf(),
            self.answers(event),
        ensures
            self.advances_to(event, r),
            r matches ReadProgress::Continue(s) ==> s.wf(),
    {
        let ReadSession {
            repo_id,
            repo_path,
            repo_mode,
            refresh,
            intent,
            negative_cache_ttl_ms,
            stage,
        } = self;
        let base = ReadSession {
            repo_id,
            repo_path,
            repo_mode,
            refresh,
            intent,
            negative_cache_ttl_ms,
            stage: ReadStage::TryLock,
        };
        match (stage, event) {
            (ReadStage::AuthoritativeState, ReadEvent::RefreshState(state)) => {
                let (_, last) = split_state(state);
                ReadProgress::Finished(
                    ReadOutcome {
                        result: Ok(base.report(ReadAction::ServedLocal, false, None, None, last)),
                        clear_negative_cache: false,
                        write_negative_cache: None,
                    },
                )
            },
            (ReadStage::Look, ReadEvent::Looked(view)) => {
                if can_serve_local_without_refresh(refresh, &view, intent) {
                    base.serve(view)
                } else if !policy_allows_refresh(refresh, intent) {
                    let repo_id = base.repo_id.clone();
                    base.fail(ReadPathError::NoLocalStateForServe { repo_id })
                } else if honor_initial_negative_cache(refresh, intent) {
                    base.at(ReadStage::CheckNegativeCache { view })
                } else {
                    base.at(ReadStage::TryLock)
                }
            },
            (ReadStage::CheckNegativeCache { view }, ReadEvent::NegativeCache(entry)) => {
                match active_negative_cache(entry, view.now_ms) {
                    Some(entry) => base.negative_cache_response(view, entry),
                    None => base.at(ReadStage::TryLock),
                }
            },
            (ReadStage::TryLock, ReadEvent::Lock(held)) => {
                if held {
                    base.at(ReadStage::LookLocked)
                } else {
                    base.at(ReadStage::LookWaiting)
                }
            },
            (ReadStage::LookLocked, ReadEvent::Looked(view)) => {
                if can_serve_local_without_refresh(refresh, &view, intent) {
                    base.serve(view)
                } else {
                    base.at(ReadStage::Refresh { view })
                }
            },
            (ReadStage::Refresh { .. }, ReadEvent::Refreshed(state)) => {
                let at = state.last_successful_refresh_at_ms;
                ReadProgress::Finished(
                    ReadOutcome {
                        result: Ok(
                            base.report(
                                ReadAction::Refreshed,
                                false,
                                Some(state.last_upstream_id),
                                None,
                                Some(at),
                            ),
                        ),
                        clear_negative_cache: true,
                        write_negative_cache: None,
                    },
                )
            },
            (ReadStage::Refresh { view }, ReadEvent::RefreshFailed(detail)) => base.refresh_failure(
                view,
                detail,
            ),
            (ReadStage::LookWaiting, ReadEvent::Looked(view)) => {
                if can_serve_local_without_refresh(refresh, &view, intent) {
                    base.serve(view)
                } else {
                    base.at(ReadStage::CheckNegativeCacheWaiting { view })
                }
            },
            (ReadStage::CheckNegativeCacheWaiting { view }, ReadEvent::NegativeCache(entry)) => {
                match active_negative_cache(entry, view.now_ms) {
                    Some(entry) => base.negative_cache_response(view, entry),
                    None => base.at(ReadStage::TryLock),
                }
            },
            _ => {
                assert(false);
                base.at(ReadStage::TryLock)
            },
        }
    }
}

/// The upstream that a repository was last refreshed from, and when.
fn split_state(state: Option<RefreshState>) -> (r: (Option<String>, Option<u128>))
    ensures
        text_of(r.0) == source_of(state),
        r.1 == refreshed_at(state),
{
    match state {
        Some(s) => (Some(s.last_upstream_id), Some(s.last_successful_refresh_at_ms)),
        None => (None, None),
    }
}

/// Whether a session is the start of the preparation of a repository for a read.
pub open spec fn read_starts(
    s: ReadSession,
    config: AppConfig,
    d: RepositoryDescriptor,
    intent: ReadPreparationIntent,
) -> bool {
    &&& s.repo_id@ == d.repo_id@
    &&& s.repo_path@ == d.repo_path@
    &&& s.repo_mode == d.mode
    &&& s.refresh == d.refresh
    &&& s.intent == intent
    &&& s.negative_cache_ttl_ms == config.policy.negative_cache_ttl.0.0 * 1000
    &&& s.wf()
    &&& match d.mode {
        RepositoryMode::Authoritative => s.stage is AuthoritativeState,
        RepositoryMode::CacheOnly => s.stage is Look,
    }
}

/// Whether an error is that of a repository that cannot be made ready for a read; each has its
/// precedence.
pub open spec fn read_refused(d: RepositoryDescriptor, e: ReadPathError) -> bool {
    if d.lifecycle != RepositoryLifecycle::Ready {
        e matches ReadPathError::RepositoryNotReady { repo_id, lifecycle } && repo_id@ == d.repo_id@
            && lifecycle == d.lifecycle
    } else if d.mode == RepositoryMode::Authoritative {
        d.refresh != FreshnessPolicy::AuthoritativeLocal && (
        e matches ReadPathError::InvalidAuthoritativeFreshness { repo_id } && repo_id@
            == d.repo_id@)
    } else if d.read_upstreams@.len() == 0 {
        e matches ReadPathError::MissingReadUpstreams { repo_id } && repo_id@ == d.repo_id@
    } else {
        d.refresh == FreshnessPolicy::AuthoritativeLocal && (
        e matches ReadPathError::InvalidCacheOnlyFreshness { repo_id } && repo_id@ == d.repo_id@)
    }
}

/// Whether a repository can be made ready for a read.
pub open spec fn read_ready(d: RepositoryDescriptor) -> bool {
    &&& d.lifecycle == RepositoryLifecycle::Ready
    &&& match d.mode {
        RepositoryMode::Authoritative => d.refresh == FreshnessPolicy::AuthoritativeLocal,
        RepositoryMode::CacheOnly => d.read_upstreams@.len() > 0 && d.refresh
            != FreshnessPolicy::AuthoritativeLocal,
    }
}

fn prepare_repository_for_read_with_intent(
    config: &AppConfig,
    descriptor: &RepositoryDescriptor,
    intent: ReadPreparationIntent,
) -> (r: Result<ReadSession, ReadPathError>)
    ensures
        match r {
            Ok(s) => read_ready(*descriptor) && read_starts(s, *config, *descriptor, intent),
            Err(e) => !read_ready(*descriptor) && read_refused(*descriptor, e),
        },
{
    let d = descriptor;
    if d.lifecycle != RepositoryLifecycle::Ready {
        return Err(
            ReadPathError::RepositoryNotReady {
                repo_id: d.repo_id.clone(),
                lifecycle: d.lifecycle,
            },
        );
    }
    let stage = match d.mode {
        RepositoryMode::Authoritative => {
            if d.refresh != FreshnessPolicy::AuthoritativeLocal {
                return Err(
                    ReadPathError::InvalidAuthoritativeFreshness { repo_id: d.repo_id.clone() },
                );
            }
            ReadStage::AuthoritativeState
        },
        RepositoryMode::CacheOnly => {
            if d.read_upstreams.len() == 0 {
                return Err(ReadPathError::MissingReadUpstreams { repo_id: d.repo_id.clone() });
            }
            if d.refresh == FreshnessPolicy::AuthoritativeLocal {
                return Err(
                    ReadPathError::InvalidCacheOnlyFreshness { repo_id: d.repo_id.clone() },
                );
            }
            ReadStage::Look
        },
    };
    Ok(
        ReadSession {
            repo_id: d.repo_id.clone(),
            repo_path: d.repo_path.clone(),
            repo_mode: d.mode,
            refresh: d.refresh,
            intent,
            negative_cache_ttl_ms: config.policy.negative_cache_ttl.as_duration().as_millis(),
            stage,
        },
    )
}

/// Starts to make a repository ready for a client's read.
pub fn prepare_repository_for_read(config: &AppConfig, descriptor: &RepositoryDescriptor) -> (r:
    Result<ReadSession, ReadPathError>)
    ensures
        match r {
            Ok(s) => read_ready(*descriptor) && read_starts(
                s,
                *config,
                *descriptor,
                ReadPreparationIntent::ClientServe,
            ),
            Err(e) => !read_ready(*descriptor) && read_refused(*descriptor, e),
        },
{
    prepare_repository_for_read_with_intent(
        config,
        descriptor,
        ReadPreparationIntent::ClientServe,
    )
}

/// Starts to make a repository ready for reads as an operator asks.
pub fn operator_prepare_repository_for_read(
    config: &AppConfig,
    descriptor: &RepositoryDescriptor,
) -> (r: Result<ReadSession, ReadPathError>)
    ensures
        match r {
            Ok(s) => read_ready(*descriptor) && read_starts(
                s,
                *config,
                *descriptor,
                ReadPreparationIntent::OperatorPrepare,
            ),
            Err(e) => !read_ready(*descriptor) && read_refused(*descriptor, e),
        },
{
    prepare_repository_for_read_with_intent(
        config,
        descriptor,
        ReadPreparationIntent::OperatorPrepare,
    )
}

/// Stale content is served only under the policy that allows it, and only where there is some.
pub proof fn law_stale_content_needs_policy(
    session: ReadSession,
    event: ReadEvent,
    next: ReadProgress,
)
    requires
        session.wf(),
        session.answers(event),
        session.advances_to(event, next),
        next is Finished,
        next->Finished_0.result is Ok,
        next->Finished_0.result->Ok_0.stale_served,
    ensures
        session.refresh == FreshnessPolicy::StaleIfError,
        match session.stage {
            ReadStage::CheckNegativeCache { view } => view.has_local_refs,
            ReadStage::CheckNegativeCacheWaiting { view } => view.has_local_refs,
            ReadStage::Refresh { view } => view.has_local_refs,
            _ => false,
        },
{
}

/// A refresh happens only under the refresh lock, and a failed one is always remembered.
pub proof fn law_refresh_needs_lock(session: ReadSession, event: ReadEvent, next: ReadProgress)
    requires
        session.wf(),
        session.answers(event),
        session.advances_to(event, next),
    ensures
        next matches ReadProgress::Continue(s) ==> s.stage is Refresh ==> session.stage
            is LookLocked,
        next matches ReadProgress::Continue(s) ==> s.stage is LookLocked ==> event
            == ReadEvent::Lock(true),
        event is RefreshFailed ==> next is Finished && next->Finished_0.write_negative_cache is Some,
{
}

// ---------------------------------------------------------------------------
// Files

/// Where the state of a repository's refreshes of one kind is kept.
pub open spec fn refresh_file(
    state_root: Seq<char>,
    kind: Seq<char>,
    repo_id: Seq<char>,
    suffix: Seq<char>,
) -> Seq<char> {
    joined_path(
        joined_path(joined_path(state_root, "read-refresh"@), kind),
        path_component(repo_id) + suffix,
    )
}

fn refresh_file_path(state_root: &str, kind: &str, repo_id: &str, suffix: &str) -> (r: String)
    ensures
        r@ == refresh_file(state_root@, kind@, repo_id@, suffix@),
{
    let dir = path::join(&path::join(state_root, "read-refresh"), kind);
    path::join(&dir, &concat2(&sanitize_path_component(repo_id), suffix))
}

/// Where it is kept when a repository was last refreshed.
pub fn refresh_state_path(state_root: &str, repo_id: &str) -> (r: String)
    ensures
        r@ == refresh_file(state_root@, "state"@, repo_id@, ".json"@),
{
    refresh_file_path(state_root, "state", repo_id, ".json")
}

/// Where a repository's remembered failure is kept.
pub fn negative_cache_path(state_root: &str, repo_id: &str) -> (r: String)
    ensures
        r@ == refresh_file(state_root@, "negative"@, repo_id@, ".json"@),
{
    refresh_file_path(state_root, "negative", repo_id, ".json")
}

/// Where a repository's refresh lock is kept.
pub fn refresh_lock_path(state_root: &str, repo_id: &str) -> (r: String)
    ensures
        r@ == refresh_file(state_root@, "locks"@, repo_id@, ".lock"@),
{
    refresh_file_path(state_root, "locks", repo_id, ".lock")
}

/// The arguments of the Git command that lists a repository's branches and tags by name.
pub fn list_visible_refs_command() -> (r: Vec<String>)
    ensures
        texts(r@) == seq![
            "for-each-ref"@,
            "--format=%(refname)"@,
            "refs/heads"@,
            "refs/tags"@,
        ],
{
    vec![
        "for-each-ref".to_owned(),
        "--format=%(refname)".to_owned(),
        "refs/heads".to_owned(),
        "refs/tags".to_owned(),
    ]
}

// ---------------------------------------------------------------------------
// What a refresh and a read come to

/// A refresh brings every branch and every tag of the upstream to itself, drops what the upstream
/// no longer holds, and brings nothing to another place.
pub proof fn law_refresh_mirrors_the_upstream(url: Seq<char>, rest: Seq<char>)
    ensures
        ({
            let args = refresh_args(url);
            let head = "refs/heads/"@ + rest;
            let tag = "refs/tags/"@ + rest;
            &&& args[0] == "fetch"@
            &&& args.take(3).contains("--prune"@)
            &&& args.take(3).contains("--prune-tags"@)
            &&& args[3] == url
            &&& exists|i: int| 3 < i < args.len() && takes(#[trigger] args[i], head, head)
            &&& exists|i: int| 3 < i < args.len() && takes(#[trigger] args[i], tag, tag)
            &&& forall|i: int|
                3 < i < args.len() ==> #[trigger] args[i] == glob_refspec(
                    "refs/heads/"@,
                    "refs/heads/"@,
                ) || args[i] == glob_refspec("refs/tags/"@, "refs/tags/"@)
        }),
{
    reveal_strlit("refs/heads/");
    reveal_strlit("refs/tags/");
    reveal_strlit("+refs/heads/*:refs/heads/*");
    reveal_strlit("+refs/tags/*:refs/tags/*");
    let args = refresh_args(url);
    let h = "refs/heads/"@;
    let t = "refs/tags/"@;
    let head = h + rest;
    let tag = t + rest;
    assert(args.take(3)[1] == "--prune"@);
    assert(args.take(3)[2] == "--prune-tags"@);
    assert(glob_refspec(h, h) =~= args[4]);
    assert(glob_refspec(t, t) =~= args[5]);
    assert(head.take(h.len() as int) =~= h);
    assert(head.skip(h.len() as int) =~= rest);
    assert(tag.take(t.len() as int) =~= t);
    assert(tag.skip(t.len() as int) =~= rest);
    assert(takes(args[4], head, head));
    assert(takes(args[5], tag, tag));
}

/// Content with a time to live is served without a refresh exactly where there is some and the last
/// refresh lies no more than that many seconds back.
pub proof fn law_fresh_content_is_served(
    ttl: HumanDuration,
    view: LocalView,
    intent: ReadPreparationIntent,
)
    ensures
        serves_local(FreshnessPolicy::Ttl(ttl), view, intent) ==> view.has_local_refs && view.state
            is Some,
        view.state matches Some(state) ==> view.has_local_refs ==> {
            let fresh_until = state.last_successful_refresh_at_ms + ttl.0.0 * 1000;
            &&& view.now_ms <= fresh_until ==> serves_local(
                FreshnessPolicy::Ttl(ttl),
                view,
                intent,
            )
            &&& view.now_ms > fresh_until ==> !serves_local(FreshnessPolicy::Ttl(ttl), view, intent)
        },
{
}

/// Who may serve without a refresh, and who may refresh. A client is served from what is there
/// under the manual policy, and an operator refreshes there; the local policy never refreshes and
/// the others always may; what must be refreshed each time is never served without.
pub proof fn law_policies(view: LocalView)
    ensures
        serves_local(FreshnessPolicy::AuthoritativeLocal, view, ReadPreparationIntent::ClientServe),
        serves_local(
            FreshnessPolicy::ManualOnly,
            view,
            ReadPreparationIntent::ClientServe,
        ) <==> view.has_local_refs,
        !serves_local(
            FreshnessPolicy::ManualOnly,
            view,
            ReadPreparationIntent::OperatorPrepare,
        ),
        !allows_refresh(FreshnessPolicy::ManualOnly, ReadPreparationIntent::ClientServe),
        allows_refresh(FreshnessPolicy::ManualOnly, ReadPreparationIntent::OperatorPrepare),
        forall|intent: ReadPreparationIntent|
            {
                &&& !#[trigger] allows_refresh(FreshnessPolicy::AuthoritativeLocal, intent)
                &&& allows_refresh(FreshnessPolicy::AlwaysRefresh, intent)
                &&& allows_refresh(FreshnessPolicy::StaleIfError, intent)
                &&& !serves_local(FreshnessPolicy::AlwaysRefresh, view, intent)
                &&& !serves_local(FreshnessPolicy::StaleIfError, view, intent)
            },
        forall|policy: FreshnessPolicy, intent: ReadPreparationIntent|
            !#[trigger] honors_negative_cache(policy, intent) <==> policy
                == FreshnessPolicy::ManualOnly && intent == ReadPreparationIntent::OperatorPrepare,
{
}

/// A failure is remembered for the configured time from the moment at which it came, and no
/// longer.
pub proof fn law_failures_are_remembered_for_a_while(
    session: ReadSession,
    detail: String,
    next: ReadProgress,
    now_ms: u128,
)
    requires
        session.stage is Refresh,
        session.advances_to(ReadEvent::RefreshFailed(detail), next),
        session.stage->Refresh_view.now_ms <= now_ms,
    ensures
        next is Finished,
        !next->Finished_0.clear_negative_cache,
        next->Finished_0.write_negative_cache is Some,
        next->Finished_0.write_negative_cache->0.repo_id@ == session.repo_id@,
        next->Finished_0.write_negative_cache->0.detail@ == detail@,
        remembered(next->Finished_0.write_negative_cache, now_ms) <==> now_ms
            - session.stage->Refresh_view.now_ms < session.negative_cache_ttl_ms,
{
}

/// A remembered failure keeps a read from asking the upstreams, before and while another holds the
/// lock; one that has expired, or none, does not.
pub proof fn law_remembered_failures_hold_back(
    session: ReadSession,
    entry: Option<NegativeCacheEntry>,
    next: ReadProgress,
)
    requires
        session.stage is CheckNegativeCache || session.stage is CheckNegativeCacheWaiting,
        session.advances_to(ReadEvent::NegativeCache(entry), next),
    ensures
        ({
            let now_ms = if session.stage is CheckNegativeCache {
                session.stage->CheckNegativeCache_view.now_ms
            } else {
                session.stage->CheckNegativeCacheWaiting_view.now_ms
            };
            next is Finished <==> entry is Some && entry->0.expires_at_ms > now_ms
        }),
        next matches ReadProgress::Continue(s) ==> s.stage is TryLock,
{
}

/// A report tells of its own repository, says that it was refreshed exactly where it was, and then
/// from which upstream and when; a refresh that succeeds clears what is remembered of a failure.
pub proof fn law_reports_tell_what_happened(
    session: ReadSession,
    event: ReadEvent,
    next: ReadProgress,
)
    requires
        session.advances_to(event, next),
        next is Finished,
        next->Finished_0.result is Ok,
    ensures
        ({
            let outcome = next->Finished_0;
            let report = outcome.result->Ok_0;
            &&& report.repo_id@ == session.repo_id@
            &&& report.repo_path@ == session.repo_path@
            &&& report.repo_mode == session.repo_mode
            &&& report.refreshed <==> event is Refreshed
            &&& event matches ReadEvent::Refreshed(state) ==> {
                &&& report.action == ReadAction::Refreshed
                &&& report.source_upstream is Some
                &&& report.source_upstream->0@ == state.last_upstream_id@
                &&& report.last_successful_refresh_at_ms == Some(
                    state.last_successful_refresh_at_ms,
                )
                &&& outcome.clear_negative_cache
                &&& outcome.write_negative_cache is None
            }
            &&& report.stale_served ==> report.action == ReadAction::ServedStale && report.detail
                is Some
            &&& !report.stale_served && !report.refreshed ==> report.action
                == ReadAction::ServedLocal && report.detail is None
            &&& report.negative_cache_hit ==> event is NegativeCache && report.stale_served
        }),
{
}

/// A read ends only where the policy serves what is there, a failure holds it back, it may not
/// refresh, or the refresh has an outcome; otherwise it goes on, and unless another holds the lock,
/// towards a refresh.
pub proof fn law_reads_go_on(session: ReadSession, event: ReadEvent, next: ReadProgress)
    requires
        session.advances_to(event, next),
    ensures
        event matches ReadEvent::Lock(held) ==> next is Continue && (if held {
            next->Continue_0.stage is LookLocked
        } else {
            next->Continue_0.stage is LookWaiting
        }),
        event matches ReadEvent::Looked(view) ==> {
            &&& serves_local(session.refresh, view, session.intent) ==> next is Finished
                && next->Finished_0.result is Ok && next->Finished_0.clear_negative_cache
            &&& !serves_local(session.refresh, view, session.intent) && session.stage is LookLocked
                ==> next is Continue && next->Continue_0.stage == (ReadStage::Refresh { view })
            &&& !serves_local(session.refresh, view, session.intent) && session.stage is LookWaiting
                ==> next is Continue && next->Continue_0.stage is CheckNegativeCacheWaiting
            &&& !serves_local(session.refresh, view, session.intent) && session.stage is Look ==> (
            next is Continue <==> allows_refresh(session.refresh, session.intent))
        },
        next matches ReadProgress::Continue(s) ==> {
            &&& s.repo_id == session.repo_id
            &&& s.repo_path == session.repo_path
            &&& s.repo_mode == session.repo_mode
            &&& s.refresh == session.refresh
            &&& s.intent == session.intent
            &&& s.negative_cache_ttl_ms == session.negative_cache_ttl_ms
        },
{
}

/// Where a refresh fails, stale content is served exactly under the policy for that and where there
/// is some; otherwise the read fails.
pub proof fn law_failed_refreshes_serve_stale_content(
    session: ReadSession,
    detail: String,
    next: ReadProgress,
)
    requires
        session.stage is Refresh,
        session.advances_to(ReadEvent::RefreshFailed(detail), next),
    ensures
        next is Finished,
        next->Finished_0.result is Ok <==> session.refresh == FreshnessPolicy::StaleIfError
            && session.stage->Refresh_view.has_local_refs,
        next->Finished_0.result is Ok ==> next->Finished_0.result->Ok_0.stale_served
            && next->Finished_0.result->Ok_0.detail is Some
            && next->Finished_0.result->Ok_0.detail->0@ == detail@,
{
}

/// A repository can be read from where it is ready and, as a cache, has an upstream and a policy of
/// its own, or, as an authority, has the local policy; every other is refused with a reason.
pub proof fn law_readable_repositories(d: RepositoryDescriptor)
    ensures
        read_ready(d) ==> d.lifecycle == RepositoryLifecycle::Ready && (d.mode
            == RepositoryMode::Authoritative <==> d.refresh == FreshnessPolicy::AuthoritativeLocal)
            && (d.mode == RepositoryMode::CacheOnly ==> d.read_upstreams@.len() > 0),
        d.lifecycle == RepositoryLifecycle::Ready && d.mode == RepositoryMode::Authoritative
            && d.refresh == FreshnessPolicy::AuthoritativeLocal ==> read_ready(d),
        d.lifecycle == RepositoryLifecycle::Ready && d.mode == RepositoryMode::CacheOnly
            && d.refresh != FreshnessPolicy::AuthoritativeLocal && d.read_upstreams@.len() > 0
            ==> read_ready(d),
        forall|e: ReadPathError| #[trigger] read_refused(d, e) ==> !read_ready(d),
        forall|e: ReadPathError| #[trigger]
            read_refused(d, e) && e is RepositoryNotReady ==> d.lifecycle
                != RepositoryLifecycle::Ready,
        forall|e: ReadPathError| #[trigger]
            read_refused(d, e) && e is MissingReadUpstreams ==> d.mode == RepositoryMode::CacheOnly
                && d.read_upstreams@.len() == 0,
{
}

/// A listing names a reference exactly where one of its lines holds more than white space.
pub proof fn law_a_listing_names_references(line: Seq<char>, rest: Seq<char>)
    requires
        line.len() > 0,
        !line.contains('\n'),
        !crate::text::is_space(line[0]),
    ensures
        names_a_ref(lines_of(line)),
        names_a_ref(lines_of(line + seq!['\n'] + rest)),
        !names_a_ref(lines_of(Seq::empty())),
{
    crate::text::law_lines(line, rest);
    let kept = crate::text::strip_cr(line);
    assert(kept.len() > 0 && kept[0] == line[0]) by {
        assert(crate::text::is_space('\r'));
    }
    lemma_visible(kept);
    lemma_visible(line);
    let one = lines_of(line);
    assert(one[0] == line);
    let all = lines_of(line + seq!['\n'] + rest);
    assert(all[0] == kept);
    assert(lines_of(Seq::empty()).len() == 0);
}

proof fn lemma_visible(line: Seq<char>)
    requires
        line.len() > 0,
        !crate::text::is_space(line[0]),
    ensures
        trimmed(line).len() > 0,
{
    crate::text::law_trimmed(line);
    let (before, after) = choose|before: Seq<char>, after: Seq<char>| #[trigger]
        (before + trimmed(line) + after) == line && crate::text::all_space(before)
            && crate::text::all_space(after);
    let whole = before + trimmed(line) + after;
    if trimmed(line).len() == 0 {
        assert(whole[0] == (before + after)[0]);
        if before.len() > 0 {
            assert(whole[0] == before[0]);
        } else {
            assert(whole[0] == after[0]);
        }
    }
}

/// What is kept of refreshes lies under the state directory, each kind in a directory of its own
/// and in a file that is named after its repository.
pub proof fn law_places_of_refreshes(
    state_root: Seq<char>,
    kind: Seq<char>,
    repo_id: Seq<char>,
    suffix: Seq<char>,
)
    requires
        state_root.len() > 0,
        state_root.last() != '/',
        kind.len() > 0,
        kind[0] != '/',
        kind.last() != '/',
    ensures
        refresh_file(state_root, kind, repo_id, suffix) == state_root + "/read-refresh/"@ + kind
            + seq!['/'] + path_component(repo_id) + suffix,
{
    reveal_strlit("read-refresh");
    reveal_strlit("/read-refresh/");
    let slash = seq!['/'];
    path::law_joined_paths(state_root, "read-refresh"@);
    let area = state_root + slash + "read-refresh"@;
    path::law_joined_paths(area, kind);
    let dir = area + slash + kind;
    let name = path_component(repo_id) + suffix;
    crate::sanitize::law_path_component_is_safe(repo_id);
    assert(name[0] != '/') by {
        assert(name[0] == path_component(repo_id)[0]);
        assert(crate::sanitize::path_safe(path_component(repo_id)[0]));
    }
    path::law_joined_paths(dir, name);
    assert(dir + slash + name =~= state_root + "/read-refresh/"@ + kind + slash + path_component(
        repo_id,
    ) + suffix);
}

/// A read of a cache looks at it first, one of an authoritative repository does not, and a
/// failure is remembered for as long as the configuration says.
pub proof fn law_reads_start(
    s: ReadSession,
    config: AppConfig,
    d: RepositoryDescriptor,
    intent: ReadPreparationIntent,
)
    requires
        read_starts(s, config, d, intent),
    ensures
        s.repo_id@ == d.repo_id@,
        s.repo_path@ == d.repo_path@,
        s.repo_mode == d.mode,
        s.refresh == d.refresh,
        s.intent == intent,
        s.stage is Look <==> d.mode == RepositoryMode::CacheOnly,
        s.negative_cache_ttl_ms == 1000 * config.policy.negative_cache_ttl.0.0,
{
}

/// A read of an authoritative repository is served from it at once. Of a cache that does not serve
/// as it is, a read that may not refresh is refused, one that an operator asks for by hand goes to
/// the lock at once, and every other minds a remembered failure first. A read that has refreshed
/// says so and forgets the failure.
pub proof fn law_course_of_a_read(session: ReadSession, event: ReadEvent, next: ReadProgress)
    requires
        session.advances_to(event, next),
    ensures
        session.stage is AuthoritativeState ==> next is Finished && next->Finished_0.result is Ok
            && next->Finished_0.result->Ok_0.action == ReadAction::ServedLocal
            && next->Finished_0.write_negative_cache is None,
        session.stage is Look && event is Looked && !serves_local(
            session.refresh,
            event->Looked_0,
            session.intent,
        ) ==> {
            &&& !allows_refresh(session.refresh, session.intent) ==> next is Finished
                && next->Finished_0.result is Err && next->Finished_0.result->Err_0
                is NoLocalStateForServe
            &&& allows_refresh(session.refresh, session.intent) && session.refresh
                == FreshnessPolicy::ManualOnly && session.intent
                == ReadPreparationIntent::OperatorPrepare ==> next is Continue
                && next->Continue_0.stage is TryLock
            &&& allows_refresh(session.refresh, session.intent) && !(session.refresh
                == FreshnessPolicy::ManualOnly && session.intent
                == ReadPreparationIntent::OperatorPrepare) ==> next is Continue
                && next->Continue_0.stage is CheckNegativeCache
        },
        event matches ReadEvent::Refreshed(state) ==> {
            &&& next is Finished
            &&& next->Finished_0.result is Ok
            &&& next->Finished_0.clear_negative_cache
            &&& next->Finished_0.write_negative_cache is None
            &&& next->Finished_0.result->Ok_0.action == ReadAction::Refreshed
            &&& next->Finished_0.result->Ok_0.refreshed
            &&& text_of(next->Finished_0.result->Ok_0.source_upstream) == Some(
                state.last_upstream_id@,
            )
        },
{
}

} // verus!
