//! Probing upstreams, and the manifests that a release is admitted by.

use crate::config::{
    lifecycle_name, lifecycle_text, mode_name, mode_text, RepositoryDescriptor,
    RepositoryLifecycle, RepositoryMode, WriteUpstream,
};
use crate::git::{
    debug_list, debug_list_text, failure_text, format_git_failure, render_status, status_text,
    GitProcessOutput, GitReply,
};
use crate::order::{self, text_le, Ordered};
use crate::path::{self, joined_path};
use crate::refs::{entry_texts, RefSnapshotEntry};
use crate::sanitize::{path_component, sanitize_path_component};
use crate::text::{
    begins, bool_text, concat2, concat3, concat4, concat5, contains, copy_list, copy_option,
    decimal, ends, ends_with, holds, is_blank, lines, lines_of, lowered, render_bool, render_u64,
    same, starts_with, text_of, texts, to_lower, trim_end, trim_tail, trimmed,
};
use vstd::prelude::*;

verus! {

#[derive(Debug, Clone, Copy, PartialEq, Eq, Structural)]
pub enum AtomicCapabilityVerdict {
    Supported,
    Unsupported,
    Inconclusive,
}

#[derive(Debug, Clone, Copy, PartialEq, Eq, Structural)]
pub enum UpstreamAccessVerdict {
    Accessible,
    AccessDenied,
    RepositoryMissing,
    TransportUnreachable,
    UnknownFailure,
}

#[derive(Debug, Clone, Copy, PartialEq, Eq, Structural)]
pub enum DisposableNamespaceVerdict {
    Supported,
    Rejected,
    CleanupFailed,
    NotAttempted,
}

#[derive(Debug, Clone, Copy, PartialEq, Eq, Structural)]
pub enum ProbeFailureClass {
    AccessDenied,
    RepositoryMissing,
    TransportUnreachable,
    ProtocolUnsupported,
    Unknown,
}

#[derive(Debug, Clone, PartialEq, Eq)]
pub struct UpstreamAccessProbe {
    pub verdict: UpstreamAccessVerdict,
    pub error_classification: Option<ProbeFailureClass>,
    pub detail: Option<String>,
}

#[derive(Debug, Clone, PartialEq, Eq)]
pub struct AtomicCapabilityProbe {
    pub verdict: AtomicCapabilityVerdict,
    pub error_classification: Option<ProbeFailureClass>,
    pub detail: Option<String>,
}

#[derive(Debug, Clone, PartialEq, Eq)]
pub struct DisposableNamespaceProbe {
    pub verdict: DisposableNamespaceVerdict,
    pub branch_ref: String,
    pub tag_ref: String,
    pub error_classification: Option<ProbeFailureClass>,
    pub detail: Option<String>,
}

#[derive(Debug, Clone, PartialEq, Eq)]
pub struct UpstreamConformanceResult {
    pub upstream_id: String,
    pub url: String,
    pub require_atomic: bool,
    pub access: UpstreamAccessProbe,
    pub atomic_capability: AtomicCapabilityProbe,
    pub disposable_namespace: DisposableNamespaceProbe,
    pub supported_for_policy: bool,
}

#[derive(Debug, Clone, PartialEq, Eq)]
pub struct UpstreamConformanceRunRecord {
    pub run_id: String,
    pub repo_id: String,
    pub repo_path: String,
    pub started_at_ms: u128,
    pub completed_at_ms: u128,
    pub source_oid: String,
    pub results: Vec<UpstreamConformanceResult>,
}

#[derive(Debug, Clone, Copy, PartialEq, Eq, Structural)]
pub enum MatrixTargetClass {
    Managed,
    SelfManaged,
}

#[derive(Debug, Clone, Copy, PartialEq, Eq, Structural)]
pub enum MatrixTargetTransport {
    Ssh,
    SmartHttp,
}

#[derive(Debug, Clone, Copy, PartialEq, Eq, Structural)]
pub enum HostKeyPolicy {
    PinnedKnownHosts,
    AcceptNew,
    NotApplicable,
}

#[derive(Debug, Clone, PartialEq, Eq)]
pub struct MatrixTargetManifest {
    pub schema_version: u32,
    pub targets: Vec<MatrixTargetEntry>,
}

#[derive(Debug, Clone, PartialEq, Eq)]
pub struct MatrixTargetEntry {
    pub target_id: String,
    pub product: String,
    pub class: MatrixTargetClass,
    pub transport: MatrixTargetTransport,
    pub url: String,
    pub credential_source: String,
    pub host_key_policy: HostKeyPolicy,
    pub require_atomic: bool,
    pub same_repo_hidden_refs: bool,
}

#[derive(Debug, Clone, PartialEq, Eq)]
pub struct MatrixProbeResult {
    pub target: MatrixTargetEntry,
    pub access: UpstreamAccessProbe,
    pub atomic_capability: AtomicCapabilityProbe,
    pub disposable_namespace: DisposableNamespaceProbe,
    pub supported_for_policy: bool,
    pub same_repo_hidden_refs_supported: bool,
    pub admission_reasons: Vec<String>,
}

#[derive(Debug, Clone, PartialEq, Eq)]
pub struct MatrixProbeRunRecord {
    pub run_id: String,
    pub repo_id: String,
    pub repo_path: String,
    pub manifest_path: String,
    pub started_at_ms: u128,
    pub completed_at_ms: u128,
    pub source_oid: String,
    pub results: Vec<MatrixProbeResult>,
}

#[derive(Debug, Clone, PartialEq, Eq)]
pub struct UpstreamReleaseManifestEntry {
    pub target_id: String,
    pub product: String,
    pub class: MatrixTargetClass,
    pub transport: MatrixTargetTransport,
    pub url: String,
    pub require_atomic: bool,
    pub same_repo_hidden_refs: bool,
    pub admitted: bool,
    pub evidence_path: String,
    pub admission_reasons: Vec<String>,
}

#[derive(Debug, Clone, PartialEq, Eq)]
pub struct UpstreamReleaseManifest {
    pub generated_at_ms: u128,
    pub repo_id: String,
    pub repo_path: String,
    pub manifest_path: String,
    pub probe_run_id: String,
    pub probe_run_path: String,
    pub all_entries_admitted: bool,
    pub entries: Vec<UpstreamReleaseManifestEntry>,
}

#[derive(Debug, Clone)]
pub enum UpstreamProbeError {
    UnsupportedRepositoryMode { repo_id: String, mode: RepositoryMode },
    RepositoryNotReady { repo_id: String, lifecycle: RepositoryLifecycle },
    NoLocalProbeSource { repo_id: String },
    InvalidManifest { path: String, detail: String },
    CreateDir { path: String, error: String },
    Read { path: String, error: String },
    Write { path: String, error: String },
    ParseJson { path: String, error: String },
    SpawnGit { args: Vec<String>, error: String },
    Git { args: Vec<String>, status: Option<i32>, detail: String },
}

impl UpstreamProbeError {
    pub open spec fn message_text(self) -> Seq<char> {
        match self {
            UpstreamProbeError::UnsupportedRepositoryMode { repo_id, mode } => "repository "@ + repo_id@ + " is "@ + mode_text(mode) + "; upstream probing is supported only for authoritative repositories"@,
            UpstreamProbeError::RepositoryNotReady { repo_id, lifecycle } => "repository "@ + repo_id@ + " is "@ + lifecycle_text(lifecycle) + "; upstream probing requires lifecycle ready"@,
            UpstreamProbeError::NoLocalProbeSource { repo_id } => "repository "@ + repo_id@ + " has no exported local refs available as a probe source"@,
            UpstreamProbeError::InvalidManifest { path, detail } => "target manifest "@ + path@ + " is invalid: "@ + detail@,
            UpstreamProbeError::CreateDir { path, error } => "failed to create directory "@ + path@ + ": "@ + error@,
            UpstreamProbeError::Read { path, error } => "failed to read "@ + path@ + ": "@ + error@,
            UpstreamProbeError::Write { path, error } => "failed to write "@ + path@ + ": "@ + error@,
            UpstreamProbeError::ParseJson { path, error } => "failed to parse JSON "@ + path@ + ": "@ + error@,
            UpstreamProbeError::SpawnGit { args, error } => "failed to run git "@ + debug_list_text(texts(args@)) + ": "@ + error@,
            UpstreamProbeError::Git { args, status, detail } => "git failed for args "@ + debug_list_text(texts(args@)) + " with status "@ + status_text(status) + ": "@ + detail@,
        }
    }

    /// The error in words.
    pub fn message(&self) -> (r: String)
        ensures
            r@ == self.message_text(),
    {
        match self {
            UpstreamProbeError::UnsupportedRepositoryMode { repo_id, mode } => concat5("repository ", repo_id, " is ", mode_name(*mode), "; upstream probing is supported only for authoritative repositories"),
            UpstreamProbeError::RepositoryNotReady { repo_id, lifecycle } => concat5("repository ", repo_id, " is ", lifecycle_name(*lifecycle), "; upstream probing requires lifecycle ready"),
            UpstreamProbeError::NoLocalProbeSource { repo_id } => concat3("repository ", repo_id, " has no exported local refs available as a probe source"),
            UpstreamProbeError::InvalidManifest { path, detail } => concat4("target manifest ", path, " is invalid: ", detail),
            UpstreamProbeError::CreateDir { path, error } => concat4("failed to create directory ", path, ": ", error),
            UpstreamProbeError::Read { path, error } => concat4("failed to read ", path, ": ", error),
            UpstreamProbeError::Write { path, error } => concat4("failed to write ", path, ": ", error),
            UpstreamProbeError::ParseJson { path, error } => concat4("failed to parse JSON ", path, ": ", error),
            UpstreamProbeError::SpawnGit { args, error } => concat4("failed to run git ", &debug_list(args), ": ", error),
            UpstreamProbeError::Git { args, status, detail } => {
                let head = concat5("git failed for args ", &debug_list(args), " with status ", &render_status(*status), ": ");
                concat2(&head, detail)
            },
        }
    }
}

// ---------------------------------------------------------------------------
// What a failure means

/// What the text of a Git failure means; the first of these that fits.
pub open spec fn failure_class(detail: Seq<char>) -> ProbeFailureClass {
    let t = lowered(detail);
    if holds(t, "repository not found"@) || holds(t, "does not appear to be a git repository"@)
        || holds(t, "not a git repository"@) || holds(t, "couldn't find remote ref"@) {
        ProbeFailureClass::RepositoryMissing
    } else if holds(t, "permission denied"@) || holds(t, "access denied"@) || holds(
        t,
        "authentication failed"@,
    ) || holds(t, "could not read from remote repository"@) {
        ProbeFailureClass::AccessDenied
    } else if holds(t, "could not resolve host"@) || holds(t, "name or service not known"@)
        || holds(t, "connection refused"@) || holds(t, "connection timed out"@) || holds(
        t,
        "operation timed out"@,
    ) || holds(t, "network is unreachable"@) || holds(t, "no route to host"@) || holds(
        t,
        "connection reset"@,
    ) {
        ProbeFailureClass::TransportUnreachable
    } else if holds(t, "atomic"@) && (holds(t, "support"@) || holds(t, "advertis"@)) {
        ProbeFailureClass::ProtocolUnsupported
    } else {
        ProbeFailureClass::Unknown
    }
}

/// What the text of a Git failure means.
pub fn classify_failure(detail: &str) -> (r: ProbeFailureClass)
    ensures
        r == failure_class(detail@),
{
    let t = to_lower(detail);
    if contains(&t, "repository not found") || contains(
        &t,
        "does not appear to be a git repository",
    ) || contains(&t, "not a git repository") || contains(&t, "couldn't find remote ref") {
        ProbeFailureClass::RepositoryMissing
    } else if contains(&t, "permission denied") || contains(&t, "access denied") || contains(
        &t,
        "authentication failed",
    ) || contains(&t, "could not read from remote repository") {
        ProbeFailureClass::AccessDenied
    } else if contains(&t, "could not resolve host") || contains(&t, "name or service not known")
        || contains(&t, "connection refused") || contains(&t, "connection timed out")
        || contains(&t, "operation timed out") || contains(&t, "network is unreachable")
        || contains(&t, "no route to host") || contains(&t, "connection reset") {
        ProbeFailureClass::TransportUnreachable
    } else if contains(&t, "atomic") && (contains(&t, "support") || contains(&t, "advertis")) {
        ProbeFailureClass::ProtocolUnsupported
    } else {
        ProbeFailureClass::Unknown
    }
}

// ---------------------------------------------------------------------------
// Whether a probe may start

/// Whether a repository may be probed: it is authoritative and ready.
pub fn ensure_probe_ready(descriptor: &RepositoryDescriptor) -> (r: Result<(), UpstreamProbeError>)
    ensures
        match r {
            Ok(_) => descriptor.mode == RepositoryMode::Authoritative && descriptor.lifecycle
                == RepositoryLifecycle::Ready,
            Err(UpstreamProbeError::UnsupportedRepositoryMode { repo_id, mode }) => {
                &&& descriptor.mode != RepositoryMode::Authoritative
                &&& repo_id@ == descriptor.repo_id@
                &&& mode == descriptor.mode
            },
            Err(UpstreamProbeError::RepositoryNotReady { repo_id, lifecycle }) => {
                &&& descriptor.mode == RepositoryMode::Authoritative
                &&& descriptor.lifecycle != RepositoryLifecycle::Ready
                &&& repo_id@ == descriptor.repo_id@
                &&& lifecycle == descriptor.lifecycle
            },
            Err(_) => false,
        },
{
    if descriptor.mode != RepositoryMode::Authoritative {
        return Err(
            UpstreamProbeError::UnsupportedRepositoryMode {
                repo_id: descriptor.repo_id.clone(),
                mode: descriptor.mode,
            },
        );
    }
    if descriptor.lifecycle != RepositoryLifecycle::Ready {
        return Err(
            UpstreamProbeError::RepositoryNotReady {
                repo_id: descriptor.repo_id.clone(),
                lifecycle: descriptor.lifecycle,
            },
        );
    }
    Ok(())
}

// ---------------------------------------------------------------------------
// Target manifests

/// Whether a target stands among the first `n` under the same id.
pub open spec fn id_taken(targets: Seq<MatrixTargetEntry>, id: Seq<char>, n: int) -> bool {
    exists|j: int| 0 <= j < n && (#[trigger] targets[j]).target_id@ == id
}

/// Whether a transport goes with a host-key policy: one over SSH has a policy for host keys, one
/// over HTTP has none.
pub open spec fn host_keys_fit(transport: MatrixTargetTransport, policy: HostKeyPolicy) -> bool {
    match transport {
        MatrixTargetTransport::SmartHttp => policy == HostKeyPolicy::NotApplicable,
        MatrixTargetTransport::Ssh => policy != HostKeyPolicy::NotApplicable,
    }
}

/// What is wrong with the target at index `i`, if anything; the first of these that holds.
pub open spec fn target_flaw(targets: Seq<MatrixTargetEntry>, i: int) -> Option<Seq<char>> {
    let t = targets[i];
    let id = t.target_id@;
    if trimmed(id).len() == 0 {
        Some("target_id must not be empty"@)
    } else if id_taken(targets, id, i) {
        Some("duplicate target_id "@ + id)
    } else if trimmed(t.product@).len() == 0 {
        Some("target "@ + id + " product must not be empty"@)
    } else if trimmed(t.url@).len() == 0 {
        Some("target "@ + id + " url must not be empty"@)
    } else if trimmed(t.credential_source@).len() == 0 {
        Some("target "@ + id + " credential_source must not be empty"@)
    } else if t.same_repo_hidden_refs && t.class != MatrixTargetClass::SelfManaged {
        Some("target "@ + id + " declares same_repo_hidden_refs but is not self-managed"@)
    } else if !host_keys_fit(t.transport, t.host_key_policy) {
        match t.transport {
            MatrixTargetTransport::SmartHttp => Some(
                "target "@ + id + " uses smart-http and must set host_key_policy=not-applicable"@,
            ),
            MatrixTargetTransport::Ssh => Some(
                "target "@ + id + " uses ssh and must set an SSH host-key policy"@,
            ),
        }
    } else {
        None
    }
}

/// What is wrong with the first flawed target at or after index `i`.
pub open spec fn targets_flaw(targets: Seq<MatrixTargetEntry>, i: int) -> Option<Seq<char>>
    decreases targets.len() - i,
{
    if i < 0 || i >= targets.len() {
        None
    } else if target_flaw(targets, i) is Some {
        target_flaw(targets, i)
    } else {
        targets_flaw(targets, i + 1)
    }
}

/// What is wrong with a target manifest, if anything.
pub open spec fn manifest_flaw(manifest: MatrixTargetManifest) -> Option<Seq<char>> {
    if manifest.schema_version != 1 {
        Some(
            "unsupported schema_version "@ + decimal(manifest.schema_version as nat)
                + "; expected 1"@,
        )
    } else if manifest.targets@.len() == 0 {
        Some("target manifest must contain at least one target"@)
    } else {
        targets_flaw(manifest.targets@, 0)
    }
}

/// Whether one of the first `n` targets has the given id.
pub fn target_id_taken(targets: &Vec<MatrixTargetEntry>, id: &str, n: usize) -> (r: bool)
    requires
        n <= targets@.len(),
    ensures
        r == id_taken(targets@, id@, n as int),
{
    let mut j: usize = 0;
    while j < n
        invariant
            j <= n <= targets@.len(),
            forall|k: int| 0 <= k < j ==> (#[trigger] targets@[k]).target_id@ != id@,
        decreases n - j,
    {
        if same(&targets[j].target_id, id) {
            assert(targets@[j as int].target_id@ == id@);
            return true;
        }
        j += 1;
    }
    false
}

fn target_problem(targets: &Vec<MatrixTargetEntry>, i: usize) -> (r: Option<String>)
    requires
        i < targets@.len(),
    ensures
        text_of(r) == target_flaw(targets@, i as int),
{
    let target = &targets[i];
    let id = &target.target_id;
    if is_blank(id) {
        return Some("target_id must not be empty".to_owned());
    }
    if target_id_taken(targets, id, i) {
        return Some(concat2("duplicate target_id ", id));
    }
    if is_blank(&target.product) {
        return Some(concat3("target ", id, " product must not be empty"));
    }
    if is_blank(&target.url) {
        return Some(concat3("target ", id, " url must not be empty"));
    }
    if is_blank(&target.credential_source) {
        return Some(concat3("target ", id, " credential_source must not be empty"));
    }
    if target.same_repo_hidden_refs && target.class != MatrixTargetClass::SelfManaged {
        return Some(
            concat3(
                "target ",
                id,
                " declares same_repo_hidden_refs but is not self-managed",
            ),
        );
    }
    match target.transport {
        MatrixTargetTransport::SmartHttp => {
            if target.host_key_policy != HostKeyPolicy::NotApplicable {
                return Some(
                    concat3(
                        "target ",
                        id,
                        " uses smart-http and must set host_key_policy=not-applicable",
                    ),
                );
            }
        },
        MatrixTargetTransport::Ssh => {
            if target.host_key_policy == HostKeyPolicy::NotApplicable {
                return Some(
                    concat3("target ", id, " uses ssh and must set an SSH host-key policy"),
                );
            }
        },
    }
    None
}

/// Whether a target manifest is valid; the error says what is wrong with it.
pub fn validate_matrix_manifest(path: &str, manifest: &MatrixTargetManifest) -> (r: Result<
    (),
    UpstreamProbeError,
>)
    ensures
        match manifest_flaw(*manifest) {
            None => r is Ok,
            Some(flaw) => r matches Err(UpstreamProbeError::InvalidManifest { path: p, detail })
                && p@ == path@ && detail@ == flaw,
        },
{
    if manifest.schema_version != 1 {
        let detail = concat3(
            "unsupported schema_version ",
            &render_u64(manifest.schema_version as u64),
            "; expected 1",
        );
        return Err(UpstreamProbeError::InvalidManifest { path: path.to_owned(), detail });
    }
    if manifest.targets.len() == 0 {
        return Err(
            UpstreamProbeError::InvalidManifest {
                path: path.to_owned(),
                detail: "target manifest must contain at least one target".to_owned(),
            },
        );
    }
    let mut i: usize = 0;
    while i < manifest.targets.len()
        invariant
            i <= manifest.targets@.len(),
            manifest.schema_version == 1,
            manifest.targets@.len() > 0,
            targets_flaw(manifest.targets@, i as int) == targets_flaw(manifest.targets@, 0),
        decreases manifest.targets@.len() - i,
    {
        match target_problem(&manifest.targets, i) {
            Some(detail) => {
                return Err(UpstreamProbeError::InvalidManifest { path: path.to_owned(), detail });
            },
            None => {},
        }
        i += 1;
    }
    Ok(())
}

impl Ordered for WriteUpstream {
    open spec fn le(&self, other: &Self) -> bool {
        text_le(self.name@, other.name@)
    }

    proof fn total(a: &Self, b: &Self) {
        order::lemma_text_le_total(a.name@, b.name@);
    }

    proof fn transitive(a: &Self, b: &Self, c: &Self) {
        order::lemma_text_le_trans(a.name@, b.name@, c.name@);
    }

    fn not_after(&self, other: &Self) -> (r: bool) {
        order::not_after(&self.name, &other.name)
    }
}

impl Ordered for MatrixTargetEntry {
    open spec fn le(&self, other: &Self) -> bool {
        text_le(self.target_id@, other.target_id@)
    }

    proof fn total(a: &Self, b: &Self) {
        order::lemma_text_le_total(a.target_id@, b.target_id@);
    }

    proof fn transitive(a: &Self, b: &Self, c: &Self) {
        order::lemma_text_le_trans(a.target_id@, b.target_id@, c.target_id@);
    }

    fn not_after(&self, other: &Self) -> (r: bool) {
        order::not_after(&self.target_id, &other.target_id)
    }
}

// ---------------------------------------------------------------------------
// What single probes find

/// What an access probe found.
pub open spec fn access_said(p: UpstreamAccessProbe) -> (
    UpstreamAccessVerdict,
    Option<ProbeFailureClass>,
    Option<Seq<char>>,
) {
    (p.verdict, p.error_classification, text_of(p.detail))
}

/// What a probe for atomic pushes found.
pub open spec fn atomic_said(p: AtomicCapabilityProbe) -> (
    AtomicCapabilityVerdict,
    Option<ProbeFailureClass>,
    Option<Seq<char>>,
) {
    (p.verdict, p.error_classification, text_of(p.detail))
}

/// Whether a probe of the disposable namespace used the given refs and found the given.
pub open spec fn namespace_said(
    p: DisposableNamespaceProbe,
    refs: DisposableProbeRefs,
    found: (DisposableNamespaceVerdict, Option<ProbeFailureClass>, Option<Seq<char>>),
) -> bool {
    &&& p.branch_ref@ == refs.branch_ref@
    &&& p.tag_ref@ == refs.tag_ref@
    &&& p.verdict == found.0
    &&& p.error_classification == found.1
    &&& text_of(p.detail) == found.2
}

/// How access fails on a failure of the given class.
pub open spec fn access_verdict(class: ProbeFailureClass) -> UpstreamAccessVerdict {
    match class {
        ProbeFailureClass::AccessDenied => UpstreamAccessVerdict::AccessDenied,
        ProbeFailureClass::RepositoryMissing => UpstreamAccessVerdict::RepositoryMissing,
        ProbeFailureClass::TransportUnreachable => UpstreamAccessVerdict::TransportUnreachable,
        ProbeFailureClass::ProtocolUnsupported => UpstreamAccessVerdict::UnknownFailure,
        ProbeFailureClass::Unknown => UpstreamAccessVerdict::UnknownFailure,
    }
}

/// What a listing of the remote's refs shows about access.
pub open spec fn access_after(output: GitProcessOutput) -> (
    UpstreamAccessVerdict,
    Option<ProbeFailureClass>,
    Option<Seq<char>>,
) {
    if output.success {
        (UpstreamAccessVerdict::Accessible, None, None)
    } else {
        let detail = failure_text(output);
        (access_verdict(failure_class(detail)), Some(failure_class(detail)), Some(detail))
    }
}

/// What a listing of the remote's refs shows about access.
pub fn probe_access(output: &GitProcessOutput) -> (r: UpstreamAccessProbe)
    ensures
        access_said(r) == access_after(*output),
{
    if output.success {
        return UpstreamAccessProbe {
            verdict: UpstreamAccessVerdict::Accessible,
            error_classification: None,
            detail: None,
        };
    }
    let detail = format_git_failure(output);
    let classification = classify_failure(&detail);
    let verdict = match classification {
        ProbeFailureClass::AccessDenied => UpstreamAccessVerdict::AccessDenied,
        ProbeFailureClass::RepositoryMissing => UpstreamAccessVerdict::RepositoryMissing,
        ProbeFailureClass::TransportUnreachable => UpstreamAccessVerdict::TransportUnreachable,
        ProbeFailureClass::ProtocolUnsupported => UpstreamAccessVerdict::UnknownFailure,
        ProbeFailureClass::Unknown => UpstreamAccessVerdict::UnknownFailure,
    };
    UpstreamAccessProbe {
        verdict,
        error_classification: Some(classification),
        detail: Some(detail),
    }
}

/// What an atomic push that changes nothing shows.
pub open spec fn atomic_after(output: GitProcessOutput) -> (
    AtomicCapabilityVerdict,
    Option<ProbeFailureClass>,
    Option<Seq<char>>,
) {
    if output.success {
        (AtomicCapabilityVerdict::Supported, None, None)
    } else {
        let detail = failure_text(output);
        let class = failure_class(detail);
        (
            if class == ProbeFailureClass::ProtocolUnsupported {
                AtomicCapabilityVerdict::Unsupported
            } else {
                AtomicCapabilityVerdict::Inconclusive
            },
            Some(class),
            Some(detail),
        )
    }
}

/// What an atomic push that changes nothing shows.
pub fn probe_atomic_capability(output: &GitProcessOutput) -> (r: (
    AtomicCapabilityVerdict,
    Option<ProbeFailureClass>,
    Option<String>,
))
    ensures
        (r.0, r.1, text_of(r.2)) == atomic_after(*output),
{
    if output.success {
        return (AtomicCapabilityVerdict::Supported, None, None);
    }
    let detail = format_git_failure(output);
    let classification = classify_failure(&detail);
    let verdict = if classification == ProbeFailureClass::ProtocolUnsupported {
        AtomicCapabilityVerdict::Unsupported
    } else {
        AtomicCapabilityVerdict::Inconclusive
    };
    (verdict, Some(classification), Some(detail))
}

/// The arguments of an atomic push that changes nothing.
pub open spec fn atomic_probe_args(url: Seq<char>, refspecs: Seq<Seq<char>>) -> Seq<Seq<char>> {
    seq!["push"@, "--porcelain"@, "--dry-run"@, "--atomic"@, url] + refspecs
}

/// The arguments of an atomic push that changes nothing.
pub fn atomic_probe_command(url: &str, refspecs: &Vec<String>) -> (r: Vec<String>)
    ensures
        texts(r@) == atomic_probe_args(url@, texts(refspecs@)),
{
    let mut args: Vec<String> = vec![
        "push".to_owned(),
        "--porcelain".to_owned(),
        "--dry-run".to_owned(),
        "--atomic".to_owned(),
        url.to_owned(),
    ];
    let mut rest = copy_list(refspecs);
    args.append(&mut rest);
    assert(texts(args@) =~= atomic_probe_args(url@, texts(refspecs@)));
    args
}

// ---------------------------------------------------------------------------
// Disposable references

/// The references that a probe creates and deletes again.
#[derive(Debug, Clone)]
pub struct DisposableProbeRefs {
    pub branch_ref: String,
    pub tag_ref: String,
}

/// The branch that a probe creates and deletes again.
pub open spec fn probe_branch(run_id: Seq<char>, upstream_id: Seq<char>) -> Seq<char> {
    "refs/heads/git-relay-probe/"@ + path_component(run_id + "-"@ + upstream_id)
}

/// The tag that a probe creates and deletes again.
pub open spec fn probe_tag(run_id: Seq<char>, upstream_id: Seq<char>) -> Seq<char> {
    "refs/tags/git-relay-probe-"@ + path_component(run_id + "-"@ + upstream_id)
}

/// The references that a probe creates and deletes again.
pub fn disposable_probe_refs(run_id: &str, upstream_id: &str) -> (r: DisposableProbeRefs)
    ensures
        r.branch_ref@ == probe_branch(run_id@, upstream_id@),
        r.tag_ref@ == probe_tag(run_id@, upstream_id@),
{
    let suffix = sanitize_path_component(&concat3(run_id, "-", upstream_id));
    DisposableProbeRefs {
        branch_ref: concat2("refs/heads/git-relay-probe/", &suffix),
        tag_ref: concat2("refs/tags/git-relay-probe-", &suffix),
    }
}

/// What a listing shows of the two references of a probe.
#[derive(Debug, Clone, Copy, PartialEq, Eq, Structural)]
pub struct ObservedRemoteRefs {
    pub branch_present: bool,
    pub tag_present: bool,
}

/// Whether some line of a listing ends with `suffix`.
pub open spec fn line_ends(ls: Seq<Seq<char>>, suffix: Seq<char>) -> bool {
    exists|i: int| 0 <= i < ls.len() && ends(trim_end(#[trigger] ls[i]), suffix)
}

/// What a listing shows of the two references: a tag also by the object that it points to.
pub open spec fn observed_refs(
    stdout: Seq<char>,
    branch: Seq<char>,
    tag: Seq<char>,
) -> ObservedRemoteRefs {
    ObservedRemoteRefs {
        branch_present: line_ends(lines_of(stdout), branch),
        tag_present: line_ends(lines_of(stdout), tag) || line_ends(
            lines_of(stdout),
            tag + "^{}"@,
        ),
    }
}

fn some_line_ends(all: &Vec<String>, suffix: &str) -> (r: bool)
    ensures
        r == line_ends(texts(all@), suffix@),
{
    let mut i: usize = 0;
    while i < all.len()
        invariant
            i <= all@.len(),
            forall|j: int|
                0 <= j < i ==> !ends(trim_end(#[trigger] texts(all@)[j]), suffix@),
        decreases all@.len() - i,
    {
        assert(texts(all@)[i as int] == all@[i as int]@);
        if ends_with(&trim_tail(&all[i]), suffix) {
            return true;
        }
        i += 1;
    }
    false
}

/// What a listing shows of the two references of a probe.
pub fn observe_remote_refs(stdout: &str, branch_ref: &str, tag_ref: &str) -> (r: ObservedRemoteRefs)
    ensures
        r == observed_refs(stdout@, branch_ref@, tag_ref@),
{
    let all = lines(stdout);
    let branch_present = some_line_ends(&all, branch_ref);
    let direct = some_line_ends(&all, tag_ref);
    let peeled = some_line_ends(&all, &concat2(tag_ref, "^{}"));
    ObservedRemoteRefs { branch_present, tag_present: direct || peeled }
}

// ---------------------------------------------------------------------------
// The course of a probe

/// A probe under way: the upstream, the references that it uses, and how far it has come.
#[derive(Debug, Clone)]
pub struct ProbeSession {
    pub url: String,
    pub refs: DisposableProbeRefs,
    pub source_oid: String,
    pub stage: ProbeStage,
}

/// How far a probe has come: the command whose outcome it waits for.
#[derive(Debug, Clone)]
pub enum ProbeStage {
    /// Listing the remote's references.
    Access,
    /// An atomic push that changes nothing.
    Atomic,
    /// Creating the two references.
    Create { atomic: AtomicCapabilityProbe },
    /// Listing the two references after their creation.
    ObserveCreated { atomic: AtomicCapabilityProbe },
    /// Deleting references that were not both visible; the outcome does not matter.
    Discard { atomic: AtomicCapabilityProbe, detail: String },
    /// Listing them after that; the outcome does not matter.
    ObserveDiscarded { atomic: AtomicCapabilityProbe, detail: String },
    /// Deleting the two references.
    Delete { atomic: AtomicCapabilityProbe },
    /// Listing the two references after their deletion.
    ObserveDeleted { atomic: AtomicCapabilityProbe },
}

/// What a whole probe found.
#[derive(Debug, Clone)]
pub struct ProbeFindings {
    pub access: UpstreamAccessProbe,
    pub atomic_capability: AtomicCapabilityProbe,
    pub disposable_namespace: DisposableNamespaceProbe,
}

/// Where a probe stands after the outcome of a command.
#[derive(Debug, Clone)]
pub enum ProbeProgress {
    Continue(ProbeSession),
    Done(ProbeFindings),
    Failed(UpstreamProbeError),
}

impl ProbeStage {
    /// How many more commands the probe can come to run.
    pub open spec fn remaining(self) -> nat {
        match self {
            ProbeStage::Access => 6,
            ProbeStage::Atomic => 5,
            ProbeStage::Create { .. } => 4,
            ProbeStage::ObserveCreated { .. } => 3,
            ProbeStage::Discard { .. } => 2,
            ProbeStage::Delete { .. } => 2,
            ProbeStage::ObserveDiscarded { .. } => 1,
            ProbeStage::ObserveDeleted { .. } => 1,
        }
    }
}

/// What an upstream's answer on references that are still visible after their deletion is told
/// as.
pub open spec fn visibility_text(head: Seq<char>, seen: ObservedRemoteRefs) -> Seq<char> {
    head + " (branch_present="@ + bool_text(seen.branch_present) + ", tag_present="@ + bool_text(
        seen.tag_present,
    ) + ")"@
}

fn render_visibility(head: &str, seen: ObservedRemoteRefs) -> (r: String)
    ensures
        r@ == visibility_text(head@, seen),
{
    let front = concat3(head, " (branch_present=", render_bool(seen.branch_present));
    concat4(&front, ", tag_present=", render_bool(seen.tag_present), ")")
}

impl ProbeSession {
    /// A probe of an upstream that has run no command yet.
    pub fn new(url: &str, upstream_id: &str, run_id: &str, source_oid: &str) -> (r: ProbeSession)
        ensures
            r.url@ == url@,
            r.refs.branch_ref@ == probe_branch(run_id@, upstream_id@),
            r.refs.tag_ref@ == probe_tag(run_id@, upstream_id@),
            r.source_oid@ == source_oid@,
            r.stage is Access,
    {
        ProbeSession {
            url: url.to_owned(),
            refs: disposable_probe_refs(run_id, upstream_id),
            source_oid: source_oid.to_owned(),
            stage: ProbeStage::Access,
        }
    }

    /// What a push sends to the two references.
    pub open spec fn refspecs(self) -> Seq<Seq<char>> {
        seq![
            self.source_oid@ + ":"@ + self.refs.branch_ref@,
            self.source_oid@ + ":"@ + self.refs.tag_ref@,
        ]
    }

    /// The arguments of the Git command that the probe waits for.
    pub open spec fn command_args(self) -> Seq<Seq<char>> {
        match self.stage {
            ProbeStage::Access => seq!["ls-remote"@, "--heads"@, "--tags"@, self.url@],
            ProbeStage::Atomic => atomic_probe_args(self.url@, self.refspecs()),
            ProbeStage::Create { .. } => seq!["push"@, "--porcelain"@, self.url@]
                + self.refspecs(),
            ProbeStage::ObserveCreated { .. } | ProbeStage::ObserveDiscarded { .. }
            | ProbeStage::ObserveDeleted { .. } => seq![
                "ls-remote"@,
                self.url@,
                self.refs.branch_ref@,
                self.refs.tag_ref@,
            ],
            ProbeStage::Discard { .. } | ProbeStage::Delete { .. } => seq![
                "push"@,
                "--porcelain"@,
                self.url@,
                ":"@ + self.refs.branch_ref@,
                ":"@ + self.refs.tag_ref@,
            ],
        }
    }

    fn push_refspecs(&self) -> (r: Vec<String>)
        ensures
            texts(r@) == self.refspecs(),
    {
        let list = vec![
            concat3(&self.source_oid, ":", &self.refs.branch_ref),
            concat3(&self.source_oid, ":", &self.refs.tag_ref),
        ];
        assert(texts(list@) =~= self.refspecs());
        list
    }

    /// The arguments of the Git command that the probe waits for.
    pub fn command(&self) -> (r: Vec<String>)
        ensures
            texts(r@) == self.command_args(),
    {
        match &self.stage {
            ProbeStage::Access => {
                vec![
                    "ls-remote".to_owned(),
                    "--heads".to_owned(),
                    "--tags".to_owned(),
                    self.url.clone(),
                ]
            },
            ProbeStage::Atomic => atomic_probe_command(&self.url, &self.push_refspecs()),
            ProbeStage::Create { .. } => {
                let mut args = vec![
                    "push".to_owned(),
                    "--porcelain".to_owned(),
                    self.url.clone(),
                ];
                let mut rest = self.push_refspecs();
                args.append(&mut rest);
                assert(texts(args@) =~= self.command_args());
                args
            },
            ProbeStage::ObserveCreated { .. } | ProbeStage::ObserveDiscarded { .. }
            | ProbeStage::ObserveDeleted { .. } => {
                vec![
                    "ls-remote".to_owned(),
                    self.url.clone(),
                    self.refs.branch_ref.clone(),
                    self.refs.tag_ref.clone(),
                ]
            },
            ProbeStage::Discard { .. } | ProbeStage::Delete { .. } => {
                vec![
                    "push".to_owned(),
                    "--porcelain".to_owned(),
                    self.url.clone(),
                    concat2(":", &self.refs.branch_ref),
                    concat2(":", &self.refs.tag_ref),
                ]
            },
        }
    }

    /// Whether `next` is this probe at the given stage.
    pub open spec fn goes_to(self, next: ProbeSession) -> bool {
        next.url == self.url && next.refs == self.refs && next.source_oid == self.source_oid
    }

    /// Whether the findings are those of a reachable upstream with the given atomic and namespace
    /// results.
    pub open spec fn finds(
        self,
        f: ProbeFindings,
        atomic: AtomicCapabilityProbe,
        namespace: (DisposableNamespaceVerdict, Option<ProbeFailureClass>, Option<Seq<char>>),
    ) -> bool {
        &&& f.access.verdict == UpstreamAccessVerdict::Accessible
        &&& f.access.error_classification is None
        &&& f.access.detail is None
        &&& f.atomic_capability == atomic
        &&& namespace_said(f.disposable_namespace, self.refs, namespace)
    }

    /// What the failure of a command without which the probe cannot go on is told as.
    pub open spec fn gives_up(self, reply: GitReply, e: UpstreamProbeError) -> bool {
        match reply {
            GitReply::NotStarted { error } => e matches UpstreamProbeError::SpawnGit {
                args,
                error: said,
            } && texts(args@) == self.command_args() && said@ == error@,
            GitReply::Ran(output) => e matches UpstreamProbeError::Git { args, status, detail }
                && args@ == output.args@ && status == output.status && detail@ == failure_text(
                output,
            ),
        }
    }

    /// Where the probe stands after the outcome of its command.
    pub open spec fn advances_to(self, reply: GitReply, next: ProbeProgress) -> bool {
        let seen = match reply {
            GitReply::Ran(output) => observed_refs(
                output.stdout@,
                self.refs.branch_ref@,
                self.refs.tag_ref@,
            ),
            GitReply::NotStarted { .. } => ObservedRemoteRefs {
                branch_present: false,
                tag_present: false,
            },
        };
        match (self.stage, reply) {
            // A discarded probe is rejected, whatever comes of the cleanup.
            (ProbeStage::Discard { atomic, detail }, _) => if reply matches GitReply::Ran(output)
                && output.success {
                next matches ProbeProgress::Continue(s) && self.goes_to(s) && s.stage == (
                ProbeStage::ObserveDiscarded { atomic, detail })
            } else {
                next matches ProbeProgress::Done(f) && self.finds(
                    f,
                    atomic,
                    (
                        DisposableNamespaceVerdict::Rejected,
                        Some(ProbeFailureClass::Unknown),
                        Some(detail@),
                    ),
                )
            },
            (ProbeStage::ObserveDiscarded { atomic, detail }, _) => next
                matches ProbeProgress::Done(f) && self.finds(
                f,
                atomic,
                (
                    DisposableNamespaceVerdict::Rejected,
                    Some(ProbeFailureClass::Unknown),
                    Some(detail@),
                ),
            ),
            (_, GitReply::NotStarted { .. }) => next matches ProbeProgress::Failed(e)
                && self.gives_up(reply, e),
            (ProbeStage::Access, GitReply::Ran(output)) => if output.success {
                next matches ProbeProgress::Continue(s) && self.goes_to(s) && s.stage is Atomic
            } else {
                // An upstream that cannot be reached is not written to.
                next matches ProbeProgress::Done(f) && {
                    let found = access_after(output);
                    &&& access_said(f.access) == found
                    &&& atomic_said(f.atomic_capability) == (
                        AtomicCapabilityVerdict::Inconclusive,
                        found.1,
                        found.2,
                    )
                    &&& namespace_said(
                        f.disposable_namespace,
                        self.refs,
                        (DisposableNamespaceVerdict::NotAttempted, found.1, found.2),
                    )
                }
            },
            (ProbeStage::Atomic, GitReply::Ran(output)) => next matches ProbeProgress::Continue(s)
                && self.goes_to(s) && s.stage is Create && atomic_said(s.stage->Create_atomic)
                == atomic_after(output),
            (ProbeStage::Create { atomic }, GitReply::Ran(output)) => if output.success {
                next matches ProbeProgress::Continue(s) && self.goes_to(s) && s.stage == (
                ProbeStage::ObserveCreated { atomic })
            } else {
                next matches ProbeProgress::Done(f) && self.finds(
                    f,
                    atomic,
                    (
                        DisposableNamespaceVerdict::Rejected,
                        Some(failure_class(failure_text(output))),
                        Some(failure_text(output)),
                    ),
                )
            },
            (ProbeStage::ObserveCreated { atomic }, GitReply::Ran(output)) => if !output.success {
                next matches ProbeProgress::Failed(e) && self.gives_up(reply, e)
            } else if seen.branch_present && seen.tag_present {
                next matches ProbeProgress::Continue(s) && self.goes_to(s) && s.stage == (
                ProbeStage::Delete { atomic })
            } else {
                next matches ProbeProgress::Continue(s) && self.goes_to(s) && s.stage is Discard
                    && s.stage->Discard_atomic == atomic && s.stage->Discard_detail@
                    == visibility_text(
                    "disposable namespace create succeeded but remote refs were not both visible afterward"@,
                    seen,
                )
            },
            (ProbeStage::Delete { atomic }, GitReply::Ran(output)) => if output.success {
                next matches ProbeProgress::Continue(s) && self.goes_to(s) && s.stage == (
                ProbeStage::ObserveDeleted { atomic })
            } else {
                next matches ProbeProgress::Done(f) && self.finds(
                    f,
                    atomic,
                    (
                        DisposableNamespaceVerdict::CleanupFailed,
                        Some(failure_class(failure_text(output))),
                        Some(failure_text(output)),
                    ),
                )
            },
            (ProbeStage::ObserveDeleted { atomic }, GitReply::Ran(output)) => if !output.success {
                next matches ProbeProgress::Failed(e) && self.gives_up(reply, e)
            } else if seen.branch_present || seen.tag_present {
                next matches ProbeProgress::Done(f) && self.finds(
                    f,
                    atomic,
                    (
                        DisposableNamespaceVerdict::CleanupFailed,
                        Some(ProbeFailureClass::Unknown),
                        Some(
                            visibility_text(
                                "disposable namespace delete succeeded but remote refs remained visible"@,
                                seen,
                            ),
                        ),
                    ),
                )
            } else {
                next matches ProbeProgress::Done(f) && self.finds(
                    f,
                    atomic,
                    (DisposableNamespaceVerdict::Supported, None, None),
                )
            },
        }
    }

    fn found(
        self,
        atomic: AtomicCapabilityProbe,
        verdict: DisposableNamespaceVerdict,
        class: Option<ProbeFailureClass>,
        detail: Option<String>,
    ) -> (r: ProbeProgress)
        ensures
            r matches ProbeProgress::Done(f) && self.finds(
                f,
                atomic,
                (verdict, class, text_of(detail)),
            ),
    {
        ProbeProgress::Done(
            ProbeFindings {
                access: UpstreamAccessProbe {
                    verdict: UpstreamAccessVerdict::Accessible,
                    error_classification: None,
                    detail: None,
                },
                atomic_capability: atomic,
                disposable_namespace: DisposableNamespaceProbe {
                    verdict,
                    branch_ref: self.refs.branch_ref,
                    tag_ref: self.refs.tag_ref,
                    error_classification: class,
                    detail,
                },
            },
        )
    }

    fn at(self, stage: ProbeStage) -> (r: ProbeProgress)
        ensures
            r matches ProbeProgress::Continue(s) && self.goes_to(s) && s.stage == stage,
    {
        ProbeProgress::Continue(
            ProbeSession { url: self.url, refs: self.refs, source_oid: self.source_oid, stage },
        )
    }

    /// Takes the outcome of the command that the probe waited for.
    pub fn advance(self, reply: GitReply) -> (r: ProbeProgress)
        ensures
            self.advances_to(reply, r),
            r matches ProbeProgress::Continue(s) ==> s.stage.remaining() < self.stage.remaining(),
    {
        let args = self.command();
        let ProbeSession { url, refs, source_oid, stage } = self;
        let base = ProbeSession { url, refs, source_oid, stage: ProbeStage::Access };
        let output = match reply {
            GitReply::Ran(output) => output,
            GitReply::NotStarted { error } => {
                return match stage {
                    ProbeStage::Discard { atomic, detail } => base.found(
                        atomic,
                        DisposableNamespaceVerdict::Rejected,
                        Some(ProbeFailureClass::Unknown),
                        Some(detail),
                    ),
                    ProbeStage::ObserveDiscarded { atomic, detail } => base.found(
                        atomic,
                        DisposableNamespaceVerdict::Rejected,
                        Some(ProbeFailureClass::Unknown),
                        Some(detail),
                    ),
                    _ => ProbeProgress::Failed(UpstreamProbeError::SpawnGit { args, error }),
                };
            },
        };
        match stage {
            ProbeStage::Access => {
                if output.success {
                    return base.at(ProbeStage::Atomic);
                }
                let access = probe_access(&output);
                let class = access.error_classification;
                let atomic_detail = copy_option(&access.detail);
                let namespace_detail = copy_option(&access.detail);
                ProbeProgress::Done(
                    ProbeFindings {
                        access,
                        atomic_capability: AtomicCapabilityProbe {
                            verdict: AtomicCapabilityVerdict::Inconclusive,
                            error_classification: class,
                            detail: atomic_detail,
                        },
                        disposable_namespace: DisposableNamespaceProbe {
                            verdict: DisposableNamespaceVerdict::NotAttempted,
                            branch_ref: base.refs.branch_ref,
                            tag_ref: base.refs.tag_ref,
                            error_classification: class,
                            detail: namespace_detail,
                        },
                    },
                )
            },
            ProbeStage::Atomic => {
                let (verdict, error_classification, detail) = probe_atomic_capability(&output);
                base.at(
                    ProbeStage::Create {
                        atomic: AtomicCapabilityProbe { verdict, error_classification, detail },
                    },
                )
            },
            ProbeStage::Create { atomic } => {
                if output.success {
                    return base.at(ProbeStage::ObserveCreated { atomic });
                }
                let detail = format_git_failure(&output);
                let class = classify_failure(&detail);
                base.found(
                    atomic,
                    DisposableNamespaceVerdict::Rejected,
                    Some(class),
                    Some(detail),
                )
            },
            ProbeStage::ObserveCreated { atomic } => {
                if !output.success {
                    let detail = format_git_failure(&output);
                    return ProbeProgress::Failed(
                        UpstreamProbeError::Git {
                            args: output.args,
                            status: output.status,
                            detail,
                        },
                    );
                }
                let seen = observe_remote_refs(
                    &output.stdout,
                    &base.refs.branch_ref,
                    &base.refs.tag_ref,
                );
                if seen.branch_present && seen.tag_present {
                    base.at(ProbeStage::Delete { atomic })
                } else {
                    let detail = render_visibility(
                        "disposable namespace create succeeded but remote refs were not both visible afterward",
                        seen,
                    );
                    base.at(ProbeStage::Discard { atomic, detail })
                }
            },
            ProbeStage::Discard { atomic, detail } => {
                if output.success {
                    return base.at(ProbeStage::ObserveDiscarded { atomic, detail });
                }
                base.found(
                    atomic,
                    DisposableNamespaceVerdict::Rejected,
                    Some(ProbeFailureClass::Unknown),
                    Some(detail),
                )
            },
            ProbeStage::ObserveDiscarded { atomic, detail } => base.found(
                atomic,
                DisposableNamespaceVerdict::Rejected,
                Some(ProbeFailureClass::Unknown),
                Some(detail),
            ),
            ProbeStage::Delete { atomic } => {
                if output.success {
                    return base.at(ProbeStage::ObserveDeleted { atomic });
                }
                let detail = format_git_failure(&output);
                let class = classify_failure(&detail);
                base.found(
                    atomic,
                    DisposableNamespaceVerdict::CleanupFailed,
                    Some(class),
                    Some(detail),
                )
            },
            ProbeStage::ObserveDeleted { atomic } => {
                if !output.success {
                    let detail = format_git_failure(&output);
                    return ProbeProgress::Failed(
                        UpstreamProbeError::Git {
                            args: output.args,
                            status: output.status,
                            detail,
                        },
                    );
                }
                let seen = observe_remote_refs(
                    &output.stdout,
                    &base.refs.branch_ref,
                    &base.refs.tag_ref,
                );
                if seen.branch_present || seen.tag_present {
                    let detail = render_visibility(
                        "disposable namespace delete succeeded but remote refs remained visible",
                        seen,
                    );
                    base.found(
                        atomic,
                        DisposableNamespaceVerdict::CleanupFailed,
                        Some(ProbeFailureClass::Unknown),
                        Some(detail),
                    )
                } else {
                    base.found(atomic, DisposableNamespaceVerdict::Supported, None, None)
                }
            },
        }
    }
}

// ---------------------------------------------------------------------------
// Results

/// The name of an access verdict in reports.
pub open spec fn access_label(v: UpstreamAccessVerdict) -> Seq<char> {
    match v {
        UpstreamAccessVerdict::Accessible => "accessible"@,
        UpstreamAccessVerdict::AccessDenied => "access_denied"@,
        UpstreamAccessVerdict::RepositoryMissing => "repository_missing"@,
        UpstreamAccessVerdict::TransportUnreachable => "transport_unreachable"@,
        UpstreamAccessVerdict::UnknownFailure => "unknown_failure"@,
    }
}

/// The name of a verdict on atomic pushes in reports.
pub open spec fn atomic_label(v: AtomicCapabilityVerdict) -> Seq<char> {
    match v {
        AtomicCapabilityVerdict::Supported => "supported"@,
        AtomicCapabilityVerdict::Unsupported => "unsupported"@,
        AtomicCapabilityVerdict::Inconclusive => "inconclusive"@,
    }
}

/// The name of a verdict on the disposable namespace in reports.
pub open spec fn namespace_label(v: DisposableNamespaceVerdict) -> Seq<char> {
    match v {
        DisposableNamespaceVerdict::Supported => "supported"@,
        DisposableNamespaceVerdict::Rejected => "rejected"@,
        DisposableNamespaceVerdict::CleanupFailed => "cleanup_failed"@,
        DisposableNamespaceVerdict::NotAttempted => "not_attempted"@,
    }
}

impl UpstreamAccessVerdict {
    /// The name of the verdict in reports.
    pub fn label(self) -> (r: &'static str)
        ensures
            r@ == access_label(self),
    {
        match self {
            UpstreamAccessVerdict::Accessible => "accessible",
            UpstreamAccessVerdict::AccessDenied => "access_denied",
            UpstreamAccessVerdict::RepositoryMissing => "repository_missing",
            UpstreamAccessVerdict::TransportUnreachable => "transport_unreachable",
            UpstreamAccessVerdict::UnknownFailure => "unknown_failure",
        }
    }
}

impl AtomicCapabilityVerdict {
    /// The name of the verdict in reports.
    pub fn label(self) -> (r: &'static str)
        ensures
            r@ == atomic_label(self),
    {
        match self {
            AtomicCapabilityVerdict::Supported => "supported",
            AtomicCapabilityVerdict::Unsupported => "unsupported",
            AtomicCapabilityVerdict::Inconclusive => "inconclusive",
        }
    }
}

impl DisposableNamespaceVerdict {
    /// The name of the verdict in reports.
    pub fn label(self) -> (r: &'static str)
        ensures
            r@ == namespace_label(self),
    {
        match self {
            DisposableNamespaceVerdict::Supported => "supported",
            DisposableNamespaceVerdict::Rejected => "rejected",
            DisposableNamespaceVerdict::CleanupFailed => "cleanup_failed",
            DisposableNamespaceVerdict::NotAttempted => "not_attempted",
        }
    }
}

/// Whether what was found suffices for an upstream: it is accessible, takes the disposable
/// references, and pushes atomically where that is required.
pub open spec fn suffices(require_atomic: bool, f: ProbeFindings) -> bool {
    &&& f.access.verdict == UpstreamAccessVerdict::Accessible
    &&& f.disposable_namespace.verdict == DisposableNamespaceVerdict::Supported
    &&& require_atomic ==> f.atomic_capability.verdict == AtomicCapabilityVerdict::Supported
}

/// Whether a result is that of an upstream of which the given was found.
pub open spec fn result_for(
    upstream: WriteUpstream,
    findings: ProbeFindings,
    r: UpstreamConformanceResult,
) -> bool {
    &&& r.upstream_id@ == upstream.name@
    &&& r.url@ == upstream.url@
    &&& r.require_atomic == upstream.require_atomic
    &&& r.access == findings.access
    &&& r.atomic_capability == findings.atomic_capability
    &&& r.disposable_namespace == findings.disposable_namespace
    &&& r.supported_for_policy == suffices(upstream.require_atomic, findings)
}

/// The result of an upstream's probe.
pub fn probe_one_upstream(upstream: &WriteUpstream, findings: ProbeFindings) -> (r:
    UpstreamConformanceResult)
    ensures
        result_for(*upstream, findings, r),
{
    let supported_for_policy = findings.access.verdict == UpstreamAccessVerdict::Accessible
        && findings.disposable_namespace.verdict == DisposableNamespaceVerdict::Supported && (
    !upstream.require_atomic || findings.atomic_capability.verdict
        == AtomicCapabilityVerdict::Supported);
    UpstreamConformanceResult {
        upstream_id: upstream.name.clone(),
        url: upstream.url.clone(),
        require_atomic: upstream.require_atomic,
        access: findings.access,
        atomic_capability: findings.atomic_capability,
        disposable_namespace: findings.disposable_namespace,
        supported_for_policy,
    }
}

/// The record of a run in which each of the upstreams was probed.
pub fn conformance_run(
    descriptor: &RepositoryDescriptor,
    run_id: String,
    source_oid: String,
    probed: Vec<(WriteUpstream, ProbeFindings)>,
    started_at_ms: u128,
    completed_at_ms: u128,
) -> (r: UpstreamConformanceRunRecord)
    ensures
        r.run_id == run_id,
        r.repo_id@ == descriptor.repo_id@,
        r.repo_path@ == descriptor.repo_path@,
        r.started_at_ms == started_at_ms,
        r.completed_at_ms == completed_at_ms,
        r.source_oid == source_oid,
        r.results@.len() == probed@.len(),
        forall|i: int|
            0 <= i < probed@.len() ==> result_for(
                probed@[i].0,
                probed@[i].1,
                #[trigger] r.results@[i],
            ),
{
    let ghost all = probed@;
    let mut results: Vec<UpstreamConformanceResult> = Vec::new();
    for pair in it: probed
        invariant
            it.seq() == all,
            results@.len() == it.index(),
            forall|i: int|
                0 <= i < results@.len() ==> result_for(all[i].0, all[i].1, #[trigger] results@[i]),
    {
        let (upstream, findings) = pair;
        results.push(probe_one_upstream(&upstream, findings));
    }
    UpstreamConformanceRunRecord {
        run_id,
        repo_id: descriptor.repo_id.clone(),
        repo_path: descriptor.repo_path.clone(),
        started_at_ms,
        completed_at_ms,
        source_oid,
        results,
    }
}

/// One reason where `found` holds, none otherwise.
pub open spec fn reason_if(found: bool, reason: Seq<char>) -> Seq<Seq<char>> {
    if found {
        seq![reason]
    } else {
        Seq::empty()
    }
}

/// Why a target is not admitted; nothing where it is.
pub open spec fn admission_objections(target: MatrixTargetEntry, f: ProbeFindings) -> Seq<
    Seq<char>,
> {
    reason_if(
        f.access.verdict != UpstreamAccessVerdict::Accessible,
        "access verdict "@ + access_label(f.access.verdict),
    ) + reason_if(
        target.require_atomic && f.atomic_capability.verdict != AtomicCapabilityVerdict::Supported,
        "atomic capability "@ + atomic_label(f.atomic_capability.verdict),
    ) + reason_if(
        f.disposable_namespace.verdict != DisposableNamespaceVerdict::Supported,
        "disposable namespace "@ + namespace_label(f.disposable_namespace.verdict),
    ) + reason_if(
        target.same_repo_hidden_refs,
        "same-repo hidden refs are not admitted until matrix probing adds an explicit hidden-ref leakage check"@,
    )
}

fn object(reasons: &mut Vec<String>, found: bool, reason: String)
    ensures
        texts(final(reasons)@) == texts(old(reasons)@) + reason_if(found, reason@),
{
    if found {
        reasons.push(reason);
    }
    assert(texts(reasons@) =~= texts(old(reasons)@) + reason_if(found, reason@));
}

/// Whether a result is that of a target of which the given was found: it is supported where nothing
/// speaks against it.
pub open spec fn target_result_for(
    target: MatrixTargetEntry,
    findings: ProbeFindings,
    r: MatrixProbeResult,
) -> bool {
    &&& r.target == target
    &&& r.access == findings.access
    &&& r.atomic_capability == findings.atomic_capability
    &&& r.disposable_namespace == findings.disposable_namespace
    &&& texts(r.admission_reasons@) == admission_objections(target, findings)
    &&& r.supported_for_policy == (admission_objections(target, findings).len() == 0)
    &&& r.same_repo_hidden_refs_supported == !target.same_repo_hidden_refs
}

/// The record of a run in which each of the targets of a manifest was probed.
pub fn matrix_run(
    descriptor: &RepositoryDescriptor,
    manifest_path: String,
    run_id: String,
    source_oid: String,
    probed: Vec<(MatrixTargetEntry, ProbeFindings)>,
    started_at_ms: u128,
    completed_at_ms: u128,
) -> (r: MatrixProbeRunRecord)
    ensures
        r.run_id == run_id,
        r.repo_id@ == descriptor.repo_id@,
        r.repo_path@ == descriptor.repo_path@,
        r.manifest_path == manifest_path,
        r.started_at_ms == started_at_ms,
        r.completed_at_ms == completed_at_ms,
        r.source_oid == source_oid,
        r.results@.len() == probed@.len(),
        forall|i: int|
            0 <= i < probed@.len() ==> target_result_for(
                probed@[i].0,
                probed@[i].1,
                #[trigger] r.results@[i],
            ),
{
    let ghost all = probed@;
    let mut results: Vec<MatrixProbeResult> = Vec::new();
    for pair in it: probed
        invariant
            it.seq() == all,
            results@.len() == it.index(),
            forall|i: int|
                0 <= i < results@.len() ==> target_result_for(
                    all[i].0,
                    all[i].1,
                    #[trigger] results@[i],
                ),
    {
        let (target, findings) = pair;
        results.push(probe_matrix_target(target, findings));
    }
    MatrixProbeRunRecord {
        run_id,
        repo_id: descriptor.repo_id.clone(),
        repo_path: descriptor.repo_path.clone(),
        manifest_path,
        started_at_ms,
        completed_at_ms,
        source_oid,
        results,
    }
}

/// The result of a target's probe.
pub fn probe_matrix_target(target: MatrixTargetEntry, findings: ProbeFindings) -> (r:
    MatrixProbeResult)
    ensures
        target_result_for(target, findings, r),
{
    let mut reasons: Vec<String> = Vec::new();
    object(
        &mut reasons,
        findings.access.verdict != UpstreamAccessVerdict::Accessible,
        concat2("access verdict ", findings.access.verdict.label()),
    );
    assert(texts(reasons@) =~= reason_if(
        findings.access.verdict != UpstreamAccessVerdict::Accessible,
        "access verdict "@ + access_label(findings.access.verdict),
    ));
    object(
        &mut reasons,
        target.require_atomic && findings.atomic_capability.verdict
            != AtomicCapabilityVerdict::Supported,
        concat2("atomic capability ", findings.atomic_capability.verdict.label()),
    );
    object(
        &mut reasons,
        findings.disposable_namespace.verdict != DisposableNamespaceVerdict::Supported,
        concat2("disposable namespace ", findings.disposable_namespace.verdict.label()),
    );
    object(
        &mut reasons,
        target.same_repo_hidden_refs,
        "same-repo hidden refs are not admitted until matrix probing adds an explicit hidden-ref leakage check".to_owned(),
    );
    assert(texts(reasons@).len() == reasons@.len());
    let supported_for_policy = reasons.len() == 0;
    let same_repo_hidden_refs_supported = !target.same_repo_hidden_refs;
    MatrixProbeResult {
        target,
        access: findings.access,
        atomic_capability: findings.atomic_capability,
        disposable_namespace: findings.disposable_namespace,
        supported_for_policy,
        same_repo_hidden_refs_supported,
        admission_reasons: reasons,
    }
}

/// A target that is supported was found accessible, took the disposable references, pushed
/// atomically where that is required, and asks for no hidden references.
pub proof fn law_supported_target_suffices(target: MatrixTargetEntry, f: ProbeFindings)
    ensures
        admission_objections(target, f).len() == 0 <==> suffices(target.require_atomic, f)
            && !target.same_repo_hidden_refs,
{
}

/// A probe pushes to branches and tags alone, so never to the relay's internal references.
pub proof fn law_probe_refs_stay_outside_internal_namespace(
    run_id: Seq<char>,
    upstream_id: Seq<char>,
)
    ensures
        begins(probe_branch(run_id, upstream_id), "refs/heads/"@),
        begins(probe_tag(run_id, upstream_id), "refs/tags/"@),
        !begins(probe_branch(run_id, upstream_id), "refs/git-relay/"@),
        !begins(probe_tag(run_id, upstream_id), "refs/git-relay/"@),
{
    reveal_strlit("refs/heads/git-relay-probe/");
    reveal_strlit("refs/tags/git-relay-probe-");
    reveal_strlit("refs/heads/");
    reveal_strlit("refs/tags/");
    reveal_strlit("refs/git-relay/");
    let b = probe_branch(run_id, upstream_id);
    let t = probe_tag(run_id, upstream_id);
    assert(b.take(11) =~= "refs/heads/"@);
    assert(t.take(10) =~= "refs/tags/"@);
    assert(b[5] == 'h' && t[5] == 't');
    assert("refs/git-relay/"@[5] == 'g');
    assert(b.len() >= 15 ==> b.take(15)[5] == 'h');
    assert(t.len() >= 15 ==> t.take(15)[5] == 't');
}

// ---------------------------------------------------------------------------
// Runs

/// The object that a probe pushes: that of the first branch, or else of the first reference.
pub open spec fn probe_source(refs: Seq<(Seq<char>, Seq<char>)>) -> Option<Seq<char>>
    decreases refs.len(),
{
    if exists|i: int| 0 <= i < refs.len() && begins(#[trigger] refs[i].0, "refs/heads/"@) {
        Some(refs[first_branch(refs, 0)].1)
    } else if refs.len() > 0 {
        Some(refs[0].1)
    } else {
        None
    }
}

/// The index of the first branch at or after index `i`, or the length where there is none.
pub open spec fn first_branch(refs: Seq<(Seq<char>, Seq<char>)>, i: int) -> int
    decreases refs.len() - i,
{
    if i < 0 || i >= refs.len() || begins(refs[i].0, "refs/heads/"@) {
        i
    } else {
        first_branch(refs, i + 1)
    }
}

/// The object that a probe pushes.
pub fn pick_probe_source_oid(refs: &Vec<RefSnapshotEntry>) -> (r: Option<String>)
    ensures
        text_of(r) == probe_source(entry_texts(refs@)),
{
    let ghost es = entry_texts(refs@);
    let mut i: usize = 0;
    while i < refs.len()
        invariant
            i <= refs@.len(),
            es == entry_texts(refs@),
            first_branch(es, i as int) == first_branch(es, 0),
            forall|j: int| 0 <= j < i ==> !begins(#[trigger] es[j].0, "refs/heads/"@),
        decreases refs@.len() - i,
    {
        assert(es[i as int] == (refs@[i as int].ref_name@, refs@[i as int].oid@));
        if starts_with(&refs[i].ref_name, "refs/heads/") {
            return Some(refs[i].oid.clone());
        }
        i += 1;
    }
    if refs.len() > 0 {
        assert(es[0] == (refs@[0].ref_name@, refs@[0].oid@));
        Some(refs[0].oid.clone())
    } else {
        None
    }
}

/// A copy of a write upstream.
pub fn copy_upstream(upstream: &WriteUpstream) -> (r: WriteUpstream)
    ensures
        r == *upstream,
{
    WriteUpstream {
        name: upstream.name.clone(),
        url: upstream.url.clone(),
        auth_profile: copy_option(&upstream.auth_profile),
        require_atomic: upstream.require_atomic,
    }
}

/// The write upstreams of a repository in the order of their names.
pub fn upstreams_by_name(descriptor: &RepositoryDescriptor) -> (r: Vec<WriteUpstream>)
    ensures
        r@ == order::sorted(descriptor.write_upstreams@),
{
    let all = &descriptor.write_upstreams;
    let mut out: Vec<WriteUpstream> = Vec::new();
    let mut i: usize = 0;
    while i < all.len()
        invariant
            i <= all@.len(),
            out@ == all@.take(i as int),
        decreases all@.len() - i,
    {
        out.push(copy_upstream(&all[i]));
        i += 1;
        assert(all@.take(i as int) =~= all@.take(i - 1).push(all@[i - 1]));
    }
    assert(all@.take(i as int) =~= all@);
    order::sort(out)
}

/// What it takes to probe a repository: it may be probed, and it exports a reference to push.
pub open spec fn probe_refusal(
    descriptor: RepositoryDescriptor,
    refs: Seq<RefSnapshotEntry>,
    e: UpstreamProbeError,
) -> bool {
    match e {
        UpstreamProbeError::UnsupportedRepositoryMode { repo_id, mode } => {
            &&& descriptor.mode != RepositoryMode::Authoritative
            &&& repo_id@ == descriptor.repo_id@
            &&& mode == descriptor.mode
        },
        UpstreamProbeError::RepositoryNotReady { repo_id, lifecycle } => {
            &&& descriptor.mode == RepositoryMode::Authoritative
            &&& descriptor.lifecycle != RepositoryLifecycle::Ready
            &&& repo_id@ == descriptor.repo_id@
            &&& lifecycle == descriptor.lifecycle
        },
        UpstreamProbeError::NoLocalProbeSource { repo_id } => {
            &&& descriptor.mode == RepositoryMode::Authoritative
            &&& descriptor.lifecycle == RepositoryLifecycle::Ready
            &&& refs.len() == 0
            &&& repo_id@ == descriptor.repo_id@
        },
        _ => false,
    }
}

/// Whether a session is the start of an upstream's probe in a run.
pub open spec fn probe_starts(
    session: ProbeSession,
    url: Seq<char>,
    id: Seq<char>,
    run_id: Seq<char>,
    source_oid: Seq<char>,
) -> bool {
    &&& session.url@ == url
    &&& session.refs.branch_ref@ == probe_branch(run_id, id)
    &&& session.refs.tag_ref@ == probe_tag(run_id, id)
    &&& session.source_oid@ == source_oid
    &&& session.stage is Access
}

/// A run of probes that has not started yet: the object that it pushes, and each upstream with
/// its probe, in the order of their names.
#[derive(Debug, Clone)]
pub struct UpstreamProbePlan {
    pub source_oid: String,
    pub probes: Vec<(WriteUpstream, ProbeSession)>,
}

/// The probes of a repository's upstreams, where it may be probed; `refs` are the references that
/// it exports.
pub fn probe_repository_upstreams(
    descriptor: &RepositoryDescriptor,
    refs: &Vec<RefSnapshotEntry>,
    run_id: &str,
) -> (r: Result<UpstreamProbePlan, UpstreamProbeError>)
    ensures
        match r {
            Ok(plan) => {
                let upstreams = order::sorted(descriptor.write_upstreams@);
                &&& descriptor.mode == RepositoryMode::Authoritative
                &&& descriptor.lifecycle == RepositoryLifecycle::Ready
                &&& probe_source(entry_texts(refs@)) == Some(plan.source_oid@)
                &&& plan.probes@.len() == upstreams.len()
                &&& forall|i: int|
                    0 <= i < upstreams.len() ==> (#[trigger] plan.probes@[i]).0 == upstreams[i]
                        && probe_starts(
                        plan.probes@[i].1,
                        upstreams[i].url@,
                        upstreams[i].name@,
                        run_id@,
                        plan.source_oid@,
                    )
            },
            Err(e) => probe_refusal(*descriptor, refs@, e),
        },
{
    match ensure_probe_ready(descriptor) {
        Ok(_) => {},
        Err(error) => {
            return Err(error);
        },
    }
    assert(entry_texts(refs@).len() == refs@.len());
    let source_oid = match pick_probe_source_oid(refs) {
        Some(oid) => oid,
        None => {
            return Err(
                UpstreamProbeError::NoLocalProbeSource { repo_id: descriptor.repo_id.clone() },
            );
        },
    };
    let upstreams = upstreams_by_name(descriptor);
    let mut probes: Vec<(WriteUpstream, ProbeSession)> = Vec::new();
    let mut i: usize = 0;
    while i < upstreams.len()
        invariant
            i <= upstreams@.len(),
            probes@.len() == i,
            forall|k: int|
                0 <= k < i ==> (#[trigger] probes@[k]).0 == upstreams@[k] && probe_starts(
                    probes@[k].1,
                    upstreams@[k].url@,
                    upstreams@[k].name@,
                    run_id@,
                    source_oid@,
                ),
        decreases upstreams@.len() - i,
    {
        let upstream = copy_upstream(&upstreams[i]);
        let session = ProbeSession::new(&upstream.url, &upstream.name, run_id, &source_oid);
        probes.push((upstream, session));
        i += 1;
    }
    Ok(UpstreamProbePlan { source_oid, probes })
}

/// A copy of a target.
pub fn copy_target(target: &MatrixTargetEntry) -> (r: MatrixTargetEntry)
    ensures
        r == *target,
{
    MatrixTargetEntry {
        target_id: target.target_id.clone(),
        product: target.product.clone(),
        class: target.class,
        transport: target.transport,
        url: target.url.clone(),
        credential_source: target.credential_source.clone(),
        host_key_policy: target.host_key_policy,
        require_atomic: target.require_atomic,
        same_repo_hidden_refs: target.same_repo_hidden_refs,
    }
}

/// A run of target probes that has not started yet: the object that it pushes, and each target
/// with its probe, in the order of their ids.
#[derive(Debug, Clone)]
pub struct MatrixProbePlan {
    pub source_oid: String,
    pub probes: Vec<(MatrixTargetEntry, ProbeSession)>,
}

/// The probes of the targets of a manifest, where the repository may be probed and the manifest is
/// valid; `refs` are the references that the repository exports.
pub fn probe_matrix_targets(
    descriptor: &RepositoryDescriptor,
    manifest_path: &str,
    manifest: MatrixTargetManifest,
    refs: &Vec<RefSnapshotEntry>,
    run_id: &str,
) -> (r: Result<MatrixProbePlan, UpstreamProbeError>)
    ensures
        match r {
            Ok(plan) => {
                let targets = order::sorted(manifest.targets@);
                &&& descriptor.mode == RepositoryMode::Authoritative
                &&& descriptor.lifecycle == RepositoryLifecycle::Ready
                &&& manifest_flaw(manifest) is None
                &&& probe_source(entry_texts(refs@)) == Some(plan.source_oid@)
                &&& plan.probes@.len() == targets.len()
                &&& forall|i: int|
                    0 <= i < targets.len() ==> (#[trigger] plan.probes@[i]).0 == targets[i]
                        && probe_starts(
                        plan.probes@[i].1,
                        targets[i].url@,
                        targets[i].target_id@,
                        run_id@,
                        plan.source_oid@,
                    )
            },
            Err(UpstreamProbeError::InvalidManifest { path, detail }) => {
                &&& descriptor.mode == RepositoryMode::Authoritative
                &&& descriptor.lifecycle == RepositoryLifecycle::Ready
                &&& manifest_flaw(manifest) == Some(detail@)
                &&& path@ == manifest_path@
            },
            Err(e) => probe_refusal(*descriptor, refs@, e) && (e is NoLocalProbeSource
                ==> manifest_flaw(manifest) is None),
        },
{
    match ensure_probe_ready(descriptor) {
        Ok(_) => {},
        Err(error) => {
            return Err(error);
        },
    }
    match validate_matrix_manifest(manifest_path, &manifest) {
        Ok(_) => {},
        Err(error) => {
            return Err(error);
        },
    }
    assert(entry_texts(refs@).len() == refs@.len());
    let source_oid = match pick_probe_source_oid(refs) {
        Some(oid) => oid,
        None => {
            return Err(
                UpstreamProbeError::NoLocalProbeSource { repo_id: descriptor.repo_id.clone() },
            );
        },
    };
    let targets = order::sort(manifest.targets);
    let mut probes: Vec<(MatrixTargetEntry, ProbeSession)> = Vec::new();
    let mut i: usize = 0;
    while i < targets.len()
        invariant
            i <= targets@.len(),
            probes@.len() == i,
            forall|k: int|
                0 <= k < i ==> (#[trigger] probes@[k]).0 == targets@[k] && probe_starts(
                    probes@[k].1,
                    targets@[k].url@,
                    targets@[k].target_id@,
                    run_id@,
                    source_oid@,
                ),
        decreases targets@.len() - i,
    {
        let target = copy_target(&targets[i]);
        let session = ProbeSession::new(&target.url, &target.target_id, run_id, &source_oid);
        probes.push((target, session));
        i += 1;
    }
    Ok(MatrixProbePlan { source_oid, probes })
}

// ---------------------------------------------------------------------------
// Records

/// Where something of a repository is kept among the probes' files.
pub open spec fn probe_file(
    state_root: Seq<char>,
    kind: Seq<char>,
    repo_id: Seq<char>,
    name: Seq<char>,
) -> Seq<char> {
    joined_path(
        joined_path(
            joined_path(joined_path(state_root, "upstream-probes"@), kind),
            path_component(repo_id),
        ),
        name,
    )
}

fn probe_file_path(state_root: &str, kind: &str, repo_id: &str, name: &str) -> (r: String)
    ensures
        r@ == probe_file(state_root@, kind@, repo_id@, name@),
{
    let root = path::join(&path::join(state_root, "upstream-probes"), kind);
    path::join(&path::join(&root, &sanitize_path_component(repo_id)), name)
}

/// Where the record of a run of upstream probes is kept.
pub fn run_record_path(state_root: &str, repo_id: &str, run_id: &str) -> (r: String)
    ensures
        r@ == probe_file(state_root@, "runs"@, repo_id@, run_id@ + ".json"@),
{
    probe_file_path(state_root, "runs", repo_id, &concat2(run_id, ".json"))
}

/// Where the record of a run of target probes is kept.
pub fn matrix_run_record_path(state_root: &str, repo_id: &str, run_id: &str) -> (r: String)
    ensures
        r@ == probe_file(state_root@, "matrix-runs"@, repo_id@, run_id@ + ".json"@),
{
    probe_file_path(state_root, "matrix-runs", repo_id, &concat2(run_id, ".json"))
}

/// Where the release manifest of a run is kept.
pub fn release_manifest_path(state_root: &str, repo_id: &str, run_id: &str) -> (r: String)
    ensures
        r@ == probe_file(state_root@, "release-manifests"@, repo_id@, run_id@ + ".json"@),
{
    probe_file_path(state_root, "release-manifests", repo_id, &concat2(run_id, ".json"))
}

/// Where the latest release manifest of a repository is kept.
pub fn release_manifest_latest_path(state_root: &str, repo_id: &str) -> (r: String)
    ensures
        r@ == probe_file(state_root@, "release-manifests"@, repo_id@, "latest.json"@),
{
    probe_file_path(state_root, "release-manifests", repo_id, "latest.json")
}

/// Whether an entry of a release manifest is the one for a target's result.
pub open spec fn entry_for(
    entry: UpstreamReleaseManifestEntry,
    result: MatrixProbeResult,
    evidence_path: Seq<char>,
) -> bool {
    &&& entry.target_id@ == result.target.target_id@
    &&& entry.product@ == result.target.product@
    &&& entry.class == result.target.class
    &&& entry.transport == result.target.transport
    &&& entry.url@ == result.target.url@
    &&& entry.require_atomic == result.target.require_atomic
    &&& entry.same_repo_hidden_refs == result.target.same_repo_hidden_refs
    &&& entry.admitted == (result.supported_for_policy && result.same_repo_hidden_refs_supported)
    &&& entry.evidence_path@ == evidence_path
    &&& texts(entry.admission_reasons@) == texts(result.admission_reasons@)
}

/// Whether every entry of a release manifest is admitted.
pub open spec fn all_admitted(entries: Seq<UpstreamReleaseManifestEntry>) -> bool {
    forall|i: int| 0 <= i < entries.len() ==> (#[trigger] entries[i]).admitted
}

/// The release manifest of a run of target probes.
pub fn build_release_manifest(
    state_root: &str,
    descriptor: &RepositoryDescriptor,
    run: &MatrixProbeRunRecord,
    generated_at_ms: u128,
) -> (r: UpstreamReleaseManifest)
    ensures
        r.generated_at_ms == generated_at_ms,
        r.repo_id@ == descriptor.repo_id@,
        r.repo_path@ == descriptor.repo_path@,
        r.manifest_path@ == run.manifest_path@,
        r.probe_run_id@ == run.run_id@,
        r.probe_run_path@ == probe_file(
            state_root@,
            "matrix-runs"@,
            run.repo_id@,
            run.run_id@ + ".json"@,
        ),
        r.entries@.len() == run.results@.len(),
        forall|i: int|
            0 <= i < r.entries@.len() ==> entry_for(
                #[trigger] r.entries@[i],
                run.results@[i],
                r.probe_run_path@,
            ),
        r.all_entries_admitted == all_admitted(r.entries@),
{
    let probe_run_path = matrix_run_record_path(state_root, &run.repo_id, &run.run_id);
    let mut entries: Vec<UpstreamReleaseManifestEntry> = Vec::new();
    let mut all_entries_admitted = true;
    let mut i: usize = 0;
    while i < run.results.len()
        invariant
            i <= run.results@.len(),
            entries@.len() == i,
            forall|k: int|
                0 <= k < i ==> entry_for(
                    #[trigger] entries@[k],
                    run.results@[k],
                    probe_run_path@,
                ),
            all_entries_admitted == all_admitted(entries@),
        decreases run.results@.len() - i,
    {
        let result = &run.results[i];
        let admitted = result.supported_for_policy && result.same_repo_hidden_refs_supported;
        let ghost so_far = entries@;
        entries.push(
            UpstreamReleaseManifestEntry {
                target_id: result.target.target_id.clone(),
                product: result.target.product.clone(),
                class: result.target.class,
                transport: result.target.transport,
                url: result.target.url.clone(),
                require_atomic: result.target.require_atomic,
                same_repo_hidden_refs: result.target.same_repo_hidden_refs,
                admitted,
                evidence_path: probe_run_path.clone(),
                admission_reasons: copy_list(&result.admission_reasons),
            },
        );
        proof {
            assert(entries@[i as int].admitted == admitted);
            assert forall|k: int| 0 <= k < so_far.len() implies (#[trigger] so_far[k])
                == entries@[k] by {}
            if all_admitted(entries@) {
                assert forall|k: int| 0 <= k < so_far.len() implies (
                #[trigger] so_far[k]).admitted by {
                    assert(entries@[k].admitted);
                }
            }
        }
        all_entries_admitted = all_entries_admitted && admitted;
        i += 1;
    }
    UpstreamReleaseManifest {
        generated_at_ms,
        repo_id: descriptor.repo_id.clone(),
        repo_path: descriptor.repo_path.clone(),
        manifest_path: run.manifest_path.clone(),
        probe_run_id: run.run_id.clone(),
        probe_run_path,
        all_entries_admitted,
        entries,
    }
}

// ---------------------------------------------------------------------------
// What the probes show

/// Whether a text of a failure, in lower case, tells that the repository is not there.
pub open spec fn tells_of_no_repository(t: Seq<char>) -> bool {
    ||| holds(t, "repository not found"@)
    ||| holds(t, "does not appear to be a git repository"@)
    ||| holds(t, "not a git repository"@)
    ||| holds(t, "couldn't find remote ref"@)
}

/// Whether a text of a failure, in lower case, tells that access was refused.
pub open spec fn tells_of_no_access(t: Seq<char>) -> bool {
    ||| holds(t, "permission denied"@)
    ||| holds(t, "access denied"@)
    ||| holds(t, "authentication failed"@)
    ||| holds(t, "could not read from remote repository"@)
}

/// Whether a text of a failure, in lower case, tells that the host was not reached.
pub open spec fn tells_of_no_transport(t: Seq<char>) -> bool {
    ||| holds(t, "could not resolve host"@)
    ||| holds(t, "name or service not known"@)
    ||| holds(t, "connection refused"@)
    ||| holds(t, "connection timed out"@)
    ||| holds(t, "operation timed out"@)
    ||| holds(t, "network is unreachable"@)
    ||| holds(t, "no route to host"@)
    ||| holds(t, "connection reset"@)
}

/// Whether a text of a failure, in lower case, tells that atomic pushes are not supported or not
/// advertised.
pub open spec fn tells_of_no_atomic_pushes(t: Seq<char>) -> bool {
    holds(t, "atomic"@) && (holds(t, "support"@) || holds(t, "advertis"@))
}

/// What a failure means is told by its text, whatever the case of its letters: a repository that is
/// not there before access that was refused, that before a host that was not reached, and only a
/// text that tells of none of these can be about atomic pushes.
pub proof fn law_failures_are_told_by_their_text(detail: Seq<char>)
    ensures
        ({
            let t = lowered(detail);
            let class = failure_class(detail);
            &&& class == ProbeFailureClass::RepositoryMissing <==> tells_of_no_repository(t)
            &&& class == ProbeFailureClass::AccessDenied <==> tells_of_no_access(t)
                && !tells_of_no_repository(t)
            &&& class == ProbeFailureClass::TransportUnreachable <==> tells_of_no_transport(t)
                && !tells_of_no_access(t) && !tells_of_no_repository(t)
            &&& class == ProbeFailureClass::ProtocolUnsupported <==> tells_of_no_atomic_pushes(t)
                && !tells_of_no_transport(t) && !tells_of_no_access(t) && !tells_of_no_repository(t)
        }),
        failure_class(lowered(detail)) == failure_class(detail),
{
    crate::text::law_lowered(detail);
}

/// Atomic pushes count as supported exactly where the atomic push that changes nothing succeeded.
/// Where it failed they count as unsupported exactly where the text of the failure tells so, and of
/// no other reason; every other failure leaves the question open.
pub proof fn law_atomic_verdict_is_shown(output: GitProcessOutput)
    ensures
        ({
            let (verdict, class, detail) = atomic_after(output);
            let t = lowered(failure_text(output));
            &&& verdict == AtomicCapabilityVerdict::Supported <==> output.success
            &&& !output.success ==> (verdict == AtomicCapabilityVerdict::Unsupported
                <==> tells_of_no_atomic_pushes(t) && !tells_of_no_transport(t)
                && !tells_of_no_access(t) && !tells_of_no_repository(t))
            &&& output.success ==> class is None && detail is None
            &&& !output.success ==> class is Some && detail == Some(failure_text(output))
        }),
{
    law_failures_are_told_by_their_text(failure_text(output));
}

/// An upstream counts as accessible exactly where its listing succeeded; where it failed, the text
/// of the failure tells how.
pub proof fn law_access_verdict_is_shown(output: GitProcessOutput)
    ensures
        ({
            let (verdict, class, detail) = access_after(output);
            let t = lowered(failure_text(output));
            &&& verdict == UpstreamAccessVerdict::Accessible <==> output.success
            &&& !output.success ==> {
                &&& verdict == UpstreamAccessVerdict::RepositoryMissing <==> tells_of_no_repository(
                    t,
                )
                &&& verdict == UpstreamAccessVerdict::AccessDenied <==> tells_of_no_access(t)
                    && !tells_of_no_repository(t)
                &&& verdict == UpstreamAccessVerdict::TransportUnreachable
                    <==> tells_of_no_transport(t) && !tells_of_no_access(t)
                    && !tells_of_no_repository(t)
                &&& class is Some
                &&& detail == Some(failure_text(output))
            }
            &&& output.success ==> class is None && detail is None
        }),
{
    law_failures_are_told_by_their_text(failure_text(output));
}

/// A probe that ends tells of atomic pushes what the atomic push that changed nothing showed: it
/// carries that finding along unchanged from where it was made.
pub proof fn law_atomic_finding_is_kept(
    session: ProbeSession,
    reply: GitReply,
    next: ProbeProgress,
)
    requires
        session.advances_to(reply, next),
    ensures
        session.stage is Atomic && next is Continue ==> reply is Ran && next->Continue_0.stage
            is Create && (next->Continue_0.stage->Create_atomic.verdict
            == AtomicCapabilityVerdict::Supported <==> reply->Ran_0.success),
        session.stage matches ProbeStage::Create { atomic } ==> {
            &&& next matches ProbeProgress::Done(f) ==> f.atomic_capability == atomic
            &&& next matches ProbeProgress::Continue(s) ==> s.stage == (
            ProbeStage::ObserveCreated { atomic })
        },
        session.stage matches ProbeStage::ObserveCreated { atomic } ==> (
        next matches ProbeProgress::Continue(s) ==> (s.stage == (ProbeStage::Delete { atomic })
            || s.stage is Discard && s.stage->Discard_atomic == atomic)),
        session.stage matches ProbeStage::Delete { atomic } ==> {
            &&& next matches ProbeProgress::Done(f) ==> f.atomic_capability == atomic
            &&& next matches ProbeProgress::Continue(s) ==> s.stage == (
            ProbeStage::ObserveDeleted { atomic })
        },
        session.stage matches ProbeStage::ObserveDeleted { atomic } ==> (
        next matches ProbeProgress::Done(f) ==> f.atomic_capability == atomic),
        session.stage is Access && next is Done ==> reply is Ran && !reply->Ran_0.success
            && next->Done_0.atomic_capability.verdict == AtomicCapabilityVerdict::Inconclusive
            && next->Done_0.access.verdict != UpstreamAccessVerdict::Accessible
            && next->Done_0.disposable_namespace.verdict
            == DisposableNamespaceVerdict::NotAttempted,
{
    if session.stage is Access && reply is Ran {
        law_access_verdict_is_shown(reply->Ran_0);
    }
    if session.stage is Atomic && reply is Ran {
        law_atomic_verdict_is_shown(reply->Ran_0);
    }
}

/// The disposable references count as supported exactly where they were created, both seen, deleted
/// and then seen no more: each step follows only on the success of the one before, and on that it
/// follows.
pub proof fn law_disposable_namespace_is_shown(
    session: ProbeSession,
    reply: GitReply,
    next: ProbeProgress,
)
    requires
        session.advances_to(reply, next),
    ensures
        next matches ProbeProgress::Done(f) ==> (f.disposable_namespace.verdict
            == DisposableNamespaceVerdict::Supported ==> session.stage is ObserveDeleted),
        session.stage is ObserveDeleted && reply is Ran && reply->Ran_0.success ==> {
            let ls = lines_of(reply->Ran_0.stdout@);
            let gone = !line_ends(ls, session.refs.branch_ref@) && !line_ends(
                ls,
                session.refs.tag_ref@,
            ) && !line_ends(ls, session.refs.tag_ref@ + "^{}"@);
            &&& next is Done
            &&& next->Done_0.disposable_namespace.verdict == (if gone {
                DisposableNamespaceVerdict::Supported
            } else {
                DisposableNamespaceVerdict::CleanupFailed
            })
        },
        session.stage is ObserveCreated && reply is Ran && reply->Ran_0.success ==> {
            let ls = lines_of(reply->Ran_0.stdout@);
            let seen = line_ends(ls, session.refs.branch_ref@) && (line_ends(
                ls,
                session.refs.tag_ref@,
            ) || line_ends(ls, session.refs.tag_ref@ + "^{}"@));
            &&& next is Continue
            &&& next->Continue_0.stage is Delete <==> seen
            &&& next->Continue_0.stage is Discard <==> !seen
        },
        session.stage is Create && reply is Ran ==> (next is Continue <==> reply->Ran_0.success) && (next matches ProbeProgress::Done(f)
            ==> f.disposable_namespace.verdict == DisposableNamespaceVerdict::Rejected),
        session.stage is Delete && reply is Ran ==> (next is Continue <==> reply->Ran_0.success) && (next matches ProbeProgress::Done(f)
            ==> f.disposable_namespace.verdict == DisposableNamespaceVerdict::CleanupFailed),
        session.stage is Discard || session.stage is ObserveDiscarded ==> (
        next matches ProbeProgress::Done(f) ==> f.disposable_namespace.verdict
            == DisposableNamespaceVerdict::Rejected),
        session.stage is Discard ==> !(next is Failed),
        session.stage is ObserveDiscarded ==> next is Done,
        next matches ProbeProgress::Done(f) ==> f.disposable_namespace.branch_ref@
            == session.refs.branch_ref@ && f.disposable_namespace.tag_ref@
            == session.refs.tag_ref@,
        next matches ProbeProgress::Continue(s) ==> s.url == session.url && s.refs == session.refs
            && s.source_oid == session.source_oid && s.stage.remaining()
            < session.stage.remaining(),
{
}

/// What a probe leaves behind: it creates the two references from its source object, asks for
/// those two and no others, and deletes what it created. The question for atomic pushes is the
/// creation, made atomic and without effect.
pub proof fn law_probes_clean_up(session: ProbeSession)
    ensures
        ({
            let args = session.command_args();
            let branch = session.refs.branch_ref@;
            let tag = session.refs.tag_ref@;
            let oid = session.source_oid@;
            &&& session.stage is Access ==> args[0] == "ls-remote"@ && args.contains("--heads"@)
                && args.contains("--tags"@) && args.last() == session.url@
            &&& session.stage is Create || session.stage is Atomic ==> {
                let n = args.len() as int;
                &&& n >= 4
                &&& args[0] == "push"@
                &&& args[n - 3] == session.url@
                &&& args[n - 2] == oid + seq![':'] + branch
                &&& args[n - 1] == oid + seq![':'] + tag
                &&& session.stage is Atomic <==> args.take(n - 3).contains("--dry-run"@)
                &&& session.stage is Atomic <==> args.take(n - 3).contains("--atomic"@)
            }
            &&& session.stage is ObserveCreated || session.stage is ObserveDeleted || session.stage
                is ObserveDiscarded ==> args == seq!["ls-remote"@, session.url@, branch, tag]
            &&& session.stage is Delete || session.stage is Discard ==> {
                &&& args.len() == 5
                &&& args[0] == "push"@
                &&& args[1] == "--porcelain"@
                &&& args[2] == session.url@
                &&& args[3] == seq![':'] + branch
                &&& args[4] == seq![':'] + tag
            }
        }),
{
    reveal_strlit("push");
    reveal_strlit("--porcelain");
    reveal_strlit("--dry-run");
    reveal_strlit("--atomic");
    reveal_strlit(":");
    assert(":"@ =~= seq![':']);
    let args = session.command_args();
    let n = args.len() as int;
    if session.stage is Access {
        assert(args[1] == "--heads"@ && args[2] == "--tags"@);
    }
    if session.stage is Atomic {
        let options = args.take(n - 3);
        assert(options[2] == "--dry-run"@);
        assert(options[3] == "--atomic"@);
    }
    if session.stage is Create {
        let options = args.take(n - 3);
        assert(options =~= seq!["push"@, "--porcelain"@]);
        assert("push"@.len() == 4 && "--porcelain"@.len() == 11 && "--dry-run"@.len() == 9
            && "--atomic"@.len() == 8);
    }
}

/// A reference that a listing names on a line of its own is seen there, and in an empty listing
/// none is.
pub proof fn law_listed_references_are_seen(
    before: Seq<Seq<char>>,
    oid: Seq<char>,
    name: Seq<char>,
    after: Seq<Seq<char>>,
)
    requires
        name.len() > 0,
        !crate::text::is_space(name.last()),
    ensures
        line_ends(before + seq![oid + seq!['\t'] + name] + after, name),
        name.len() > 0 ==> !line_ends(Seq::empty(), name),
{
    let line = oid + seq!['\t'] + name;
    let all = before + seq![line] + after;
    assert(all[before.len() as int] == line);
    assert(line.last() == name.last());
    reveal_with_fuel(trim_end, 2);
    assert(trim_end(line) == line);
    assert(line.skip(line.len() - name.len()) =~= name);
    assert(ends(trim_end(all[before.len() as int]), name));
}

/// An upstream is fit for its repository exactly where it was accessible, took the disposable
/// references, and, where the repository asks for it, pushed atomically; a result tells of its own
/// upstream.
pub proof fn law_fit_upstreams(
    upstream: WriteUpstream,
    f: ProbeFindings,
    r: UpstreamConformanceResult,
)
    requires
        result_for(upstream, f, r),
    ensures
        r.supported_for_policy ==> f.access.verdict == UpstreamAccessVerdict::Accessible,
        r.supported_for_policy ==> f.disposable_namespace.verdict
            == DisposableNamespaceVerdict::Supported,
        r.supported_for_policy && upstream.require_atomic ==> f.atomic_capability.verdict
            == AtomicCapabilityVerdict::Supported,
        f.access.verdict == UpstreamAccessVerdict::Accessible && f.disposable_namespace.verdict
            == DisposableNamespaceVerdict::Supported && (f.atomic_capability.verdict
            == AtomicCapabilityVerdict::Supported || !upstream.require_atomic)
            ==> r.supported_for_policy,
        r.upstream_id@ == upstream.name@,
        r.url@ == upstream.url@,
        r.require_atomic == upstream.require_atomic,
{
}

/// A target is admitted for a release exactly where it was accessible, took the disposable
/// references, pushed atomically where it must, and asks for no hidden references; each reason
/// against it is named, and there is a reason exactly where it is not admitted.
pub proof fn law_admitted_targets(
    target: MatrixTargetEntry,
    f: ProbeFindings,
    r: MatrixProbeResult,
    entry: UpstreamReleaseManifestEntry,
    evidence: Seq<char>,
)
    requires
        target_result_for(target, f, r),
        entry_for(entry, r, evidence),
    ensures
        entry.admitted <==> f.access.verdict == UpstreamAccessVerdict::Accessible
            && f.disposable_namespace.verdict == DisposableNamespaceVerdict::Supported && (
        target.require_atomic ==> f.atomic_capability.verdict == AtomicCapabilityVerdict::Supported)
            && !target.same_repo_hidden_refs,
        entry.admitted <==> entry.admission_reasons@.len() == 0,
        entry.target_id@ == target.target_id@,
        entry.url@ == target.url@,
        entry.evidence_path@ == evidence,
        f.access.verdict != UpstreamAccessVerdict::Accessible ==> texts(
            entry.admission_reasons@,
        ).contains("access verdict "@ + access_label(f.access.verdict)),
        target.require_atomic && f.atomic_capability.verdict != AtomicCapabilityVerdict::Supported
            ==> texts(entry.admission_reasons@).contains(
            "atomic capability "@ + atomic_label(f.atomic_capability.verdict),
        ),
        f.disposable_namespace.verdict != DisposableNamespaceVerdict::Supported ==> texts(
            entry.admission_reasons@,
        ).contains("disposable namespace "@ + namespace_label(f.disposable_namespace.verdict)),
{
    let a = reason_if(
        f.access.verdict != UpstreamAccessVerdict::Accessible,
        "access verdict "@ + access_label(f.access.verdict),
    );
    let b = reason_if(
        target.require_atomic && f.atomic_capability.verdict != AtomicCapabilityVerdict::Supported,
        "atomic capability "@ + atomic_label(f.atomic_capability.verdict),
    );
    let c = reason_if(
        f.disposable_namespace.verdict != DisposableNamespaceVerdict::Supported,
        "disposable namespace "@ + namespace_label(f.disposable_namespace.verdict),
    );
    let all = admission_objections(target, f);
    assert(texts(entry.admission_reasons@).len() == entry.admission_reasons@.len());
    if f.access.verdict != UpstreamAccessVerdict::Accessible {
        assert(all[0] == a[0]);
    }
    if target.require_atomic && f.atomic_capability.verdict != AtomicCapabilityVerdict::Supported {
        assert(all[a.len() as int] == b[0]);
    }
    if f.disposable_namespace.verdict != DisposableNamespaceVerdict::Supported {
        assert(all[(a.len() + b.len()) as int] == c[0]);
    }
}

/// A target manifest is without flaw exactly where it has the known version and a target, and each
/// target has an id of its own, a product, a URL and a source of credentials, asks for hidden
/// references only where it is self-managed, and has a policy for host keys exactly where it goes
/// over SSH.
pub proof fn law_sound_manifests(manifest: MatrixTargetManifest)
    ensures
        manifest_flaw(manifest) is None <==> {
            &&& manifest.schema_version == 1
            &&& manifest.targets@.len() > 0
            &&& forall|i: int| 0 <= i < manifest.targets@.len() ==> sound_target(#[trigger] manifest.targets@[i])
            &&& forall|i: int, j: int|
                0 <= i < j < manifest.targets@.len() ==> (#[trigger] manifest.targets@[i]).target_id@
                    != (#[trigger] manifest.targets@[j]).target_id@
        },
{
    let targets = manifest.targets@;
    lemma_targets_flaw(targets, 0);
    assert forall|i: int| 0 <= i < targets.len() implies (#[trigger] target_flaw(targets, i) is None
        <==> sound_target(targets[i]) && !id_taken(targets, targets[i].target_id@, i)) by {}
    if manifest_flaw(manifest) is None {
        assert forall|i: int| 0 <= i < targets.len() implies sound_target(#[trigger] targets[i]) by {
            assert(target_flaw(targets, i) is None);
        }
        assert forall|i: int, j: int| 0 <= i < j < targets.len() implies (
        #[trigger] targets[i]).target_id@ != (#[trigger] targets[j]).target_id@ by {
            assert(target_flaw(targets, j) is None);
        }
    }
    if forall|i: int| 0 <= i < targets.len() ==> sound_target(#[trigger] targets[i]) {
        if forall|i: int, j: int|
            0 <= i < j < targets.len() ==> (#[trigger] targets[i]).target_id@ != (
            #[trigger] targets[j]).target_id@ {
            assert forall|i: int| 0 <= i < targets.len() implies #[trigger] target_flaw(targets, i)
                is None by {
                assert(sound_target(targets[i]));
            }
        }
    }
}

/// Whether a target says all that it must, and nothing that contradicts itself.
pub open spec fn sound_target(t: MatrixTargetEntry) -> bool {
    &&& trimmed(t.target_id@).len() > 0
    &&& trimmed(t.product@).len() > 0
    &&& trimmed(t.url@).len() > 0
    &&& trimmed(t.credential_source@).len() > 0
    &&& t.same_repo_hidden_refs ==> t.class == MatrixTargetClass::SelfManaged
    &&& t.transport == MatrixTargetTransport::Ssh <==> t.host_key_policy
        != HostKeyPolicy::NotApplicable
}

proof fn lemma_targets_flaw(targets: Seq<MatrixTargetEntry>, i: int)
    requires
        0 <= i <= targets.len(),
    ensures
        targets_flaw(targets, i) is None <==> forall|k: int|
            i <= k < targets.len() ==> #[trigger] target_flaw(targets, k) is None,
    decreases targets.len() - i,
{
    if i < targets.len() {
        lemma_targets_flaw(targets, i + 1);
    }
}

/// A probe pushes an object that the repository exports: that of a branch where it exports one.
pub proof fn law_probe_source_is_exported(refs: Seq<(Seq<char>, Seq<char>)>)
    ensures
        probe_source(refs) is None <==> refs.len() == 0,
        probe_source(refs) matches Some(oid) ==> exists|i: int|
            0 <= i < refs.len() && (#[trigger] refs[i]).1 == oid && (begins(
                refs[i].0,
                "refs/heads/"@,
            ) || forall|j: int|
                0 <= j < refs.len() ==> !begins((#[trigger] refs[j]).0, "refs/heads/"@)),
{
    if exists|i: int| 0 <= i < refs.len() && begins(#[trigger] refs[i].0, "refs/heads/"@) {
        let i = choose|i: int| 0 <= i < refs.len() && begins(#[trigger] refs[i].0, "refs/heads/"@);
        lemma_first_branch(refs, 0, i);
        assert(refs[first_branch(refs, 0)].1 == probe_source(refs)->0);
    } else if refs.len() > 0 {
        assert(refs[0].1 == probe_source(refs)->0);
    }
}

proof fn lemma_first_branch(refs: Seq<(Seq<char>, Seq<char>)>, from: int, i: int)
    requires
        0 <= from <= i < refs.len(),
        begins(refs[i].0, "refs/heads/"@),
    ensures
        from <= first_branch(refs, from) <= i,
        begins(refs[first_branch(refs, from)].0, "refs/heads/"@),
    decreases i - from,
{
    if !begins(refs[from].0, "refs/heads/"@) {
        lemma_first_branch(refs, from + 1, i);
    }
}

/// What is kept of probes lies under the state directory, each kind in a directory of its own and
/// each repository in one below it.
pub proof fn law_places_of_probes(
    state_root: Seq<char>,
    kind: Seq<char>,
    repo_id: Seq<char>,
    name: Seq<char>,
)
    requires
        state_root.len() > 0,
        state_root.last() != '/',
        kind.len() > 0,
        kind[0] != '/',
        kind.last() != '/',
        name.len() > 0,
        name[0] != '/',
    ensures
        probe_file(state_root, kind, repo_id, name) == state_root + "/upstream-probes/"@ + kind
            + seq!['/'] + path_component(repo_id) + seq!['/'] + name,
{
    reveal_strlit("upstream-probes");
    reveal_strlit("/upstream-probes/");
    let slash = seq!['/'];
    path::law_joined_paths(state_root, "upstream-probes"@);
    let area = state_root + slash + "upstream-probes"@;
    path::law_joined_paths(area, kind);
    let dir = area + slash + kind;
    let component = path_component(repo_id);
    crate::sanitize::law_path_component_is_safe(repo_id);
    assert(crate::sanitize::path_safe(component[0]));
    assert(crate::sanitize::path_safe(component[component.len() - 1]));
    path::law_joined_paths(dir, component);
    let below = dir + slash + component;
    assert(below.last() == component.last());
    path::law_joined_paths(below, name);
    assert(below + slash + name =~= state_root + "/upstream-probes/"@ + kind + slash + component
        + slash + name);
}

/// A probe creates a branch and a tag, which are named after the run and the upstream.
pub proof fn law_names_of_disposable_references(run_id: Seq<char>, upstream_id: Seq<char>)
    ensures
        crate::text::begins(probe_branch(run_id, upstream_id), "refs/heads/git-relay-probe/"@),
        crate::text::begins(probe_tag(run_id, upstream_id), "refs/tags/git-relay-probe-"@),
        crate::text::ends(
            probe_branch(run_id, upstream_id),
            path_component(run_id + "-"@ + upstream_id),
        ),
        crate::text::ends(
            probe_tag(run_id, upstream_id),
            path_component(run_id + "-"@ + upstream_id),
        ),
{
    let name = path_component(run_id + "-"@ + upstream_id);
    let branch = probe_branch(run_id, upstream_id);
    let tag = probe_tag(run_id, upstream_id);
    assert(branch.take("refs/heads/git-relay-probe/"@.len() as int)
        =~= "refs/heads/git-relay-probe/"@);
    assert(tag.take("refs/tags/git-relay-probe-"@.len() as int) =~= "refs/tags/git-relay-probe-"@);
    assert(branch.skip(branch.len() - name.len()) =~= name);
    assert(tag.skip(tag.len() - name.len()) =~= name);
}

/// A probe is refused only of a repository that is not authoritative, is not ready or has nothing
/// to be pushed, and is told which of these it is.
pub proof fn law_refused_probes(
    descriptor: RepositoryDescriptor,
    refs: Seq<RefSnapshotEntry>,
    e: UpstreamProbeError,
)
    requires
        probe_refusal(descriptor, refs, e),
    ensures
        e is UnsupportedRepositoryMode <==> descriptor.mode != RepositoryMode::Authoritative,
        e is RepositoryNotReady <==> descriptor.mode == RepositoryMode::Authoritative
            && descriptor.lifecycle != RepositoryLifecycle::Ready,
        e is NoLocalProbeSource <==> descriptor.mode == RepositoryMode::Authoritative
            && descriptor.lifecycle == RepositoryLifecycle::Ready,
        e is NoLocalProbeSource ==> refs.len() == 0,
{
}

/// The result of a target tells what was found of it, and it is supported where it can be reached,
/// takes disposable references and, where that is asked for, atomic pushes.
pub proof fn law_results_tell_the_findings(
    target: MatrixTargetEntry,
    upstream: WriteUpstream,
    findings: ProbeFindings,
    of_target: MatrixProbeResult,
    of_upstream: UpstreamConformanceResult,
)
    requires
        target_result_for(target, findings, of_target),
        result_for(upstream, findings, of_upstream),
    ensures
        of_target.access == findings.access,
        of_target.atomic_capability == findings.atomic_capability,
        of_target.disposable_namespace == findings.disposable_namespace,
        of_target.target == target,
        of_target.same_repo_hidden_refs_supported <==> !target.same_repo_hidden_refs,
        of_target.supported_for_policy <==> of_target.admission_reasons@.len() == 0,
        of_upstream.access == findings.access,
        of_upstream.atomic_capability == findings.atomic_capability,
        of_upstream.disposable_namespace == findings.disposable_namespace,
        of_upstream.upstream_id@ == upstream.name@,
        of_upstream.url@ == upstream.url@,
        of_upstream.require_atomic <==> upstream.require_atomic,
        of_upstream.supported_for_policy <==> findings.access.verdict
            == UpstreamAccessVerdict::Accessible && findings.disposable_namespace.verdict
            == DisposableNamespaceVerdict::Supported && (upstream.require_atomic
            ==> findings.atomic_capability.verdict == AtomicCapabilityVerdict::Supported),
{
    assert(texts(of_target.admission_reasons@).len() == of_target.admission_reasons@.len());
}

/// A probe starts by asking whether the upstream can be reached, and pushes the given object to a
/// branch and a tag that are named after its run and its upstream.
pub proof fn law_probes_start(
    session: ProbeSession,
    url: Seq<char>,
    id: Seq<char>,
    run_id: Seq<char>,
    source_oid: Seq<char>,
)
    requires
        probe_starts(session, url, id, run_id, source_oid),
    ensures
        session.stage is Access,
        session.url@ == url,
        session.source_oid@ == source_oid,
        crate::text::begins(session.refs.branch_ref@, "refs/heads/"@),
        crate::text::begins(session.refs.tag_ref@, "refs/tags/"@),
        crate::text::ends(session.refs.branch_ref@, path_component(run_id + "-"@ + id)),
        crate::text::ends(session.refs.tag_ref@, path_component(run_id + "-"@ + id)),
{
    reveal_strlit("refs/heads/");
    reveal_strlit("refs/heads/git-relay-probe/");
    reveal_strlit("refs/tags/");
    reveal_strlit("refs/tags/git-relay-probe-");
    law_names_of_disposable_references(run_id, id);
    let branch = session.refs.branch_ref@;
    let tag = session.refs.tag_ref@;
    assert(branch.take(11) =~= "refs/heads/"@);
    assert(tag.take(10) =~= "refs/tags/"@);
}

/// A probe asks for atomic pushes only of an upstream that it reached, and then creates its
/// references and looks for them. An upstream that it did not reach is not written to. A probe
/// fails where a command cannot be started or where it cannot look for its references, but not
/// while it discards them.
pub proof fn law_course_of_a_probe(session: ProbeSession, reply: GitReply, next: ProbeProgress)
    requires
        session.advances_to(reply, next),
    ensures
        ({
            let well = reply is Ran && reply->Ran_0.success;
            let discards = session.stage is Discard || session.stage is ObserveDiscarded;
            let looks = session.stage is ObserveCreated || session.stage is ObserveDeleted;
            &&& next is Failed <==> !discards && (reply is NotStarted || (looks && !well))
            &&& session.stage is Access && well ==> next is Continue && next->Continue_0.stage
                is Atomic
            &&& session.stage is Access && reply is Ran && !well ==> {
                &&& next is Done
                &&& next->Done_0.access.verdict != UpstreamAccessVerdict::Accessible
                &&& next->Done_0.atomic_capability.verdict == AtomicCapabilityVerdict::Inconclusive
                &&& next->Done_0.disposable_namespace.verdict
                    == DisposableNamespaceVerdict::NotAttempted
            }
            &&& session.stage is Atomic && reply is Ran ==> next is Continue
                && next->Continue_0.stage is Create
            &&& session.stage is Create && well ==> next is Continue && next->Continue_0.stage
                is ObserveCreated
            &&& session.stage is Delete && well ==> next is Continue && next->Continue_0.stage
                is ObserveDeleted
            &&& session.stage is Discard ==> (next is Continue <==> well)
            &&& session.stage is Discard && well ==> next->Continue_0.stage is ObserveDiscarded
        }),
{
}

} // verus!
