//! How a repository starts.

use git_relay::classification::{
    classify_startup, classify_startup_with_markers, RepositorySafetyState,
    UpstreamConvergenceState,
};
use git_relay::config::{
    AuthorityModel, FreshnessPolicy, PushAckPolicy, ReadUpstream, ReconcilePolicy,
    RepositoryDescriptor, RepositoryLifecycle, RepositoryMode, TrackingRefPlacement, WriteUpstream,
};
use git_relay::validator::{ValidationIssue, ValidationReport, ValidationStatus};

fn authoritative_descriptor(path: &str) -> RepositoryDescriptor {
    RepositoryDescriptor {
        repo_id: "github.com/example/repo.git".to_owned(),
        canonical_identity: "github.com/example/repo.git".to_owned(),
        repo_path: path.to_owned(),
        mode: RepositoryMode::Authoritative,
        lifecycle: RepositoryLifecycle::Ready,
        authority_model: AuthorityModel::RelayAuthoritative,
        tracking_refs: TrackingRefPlacement::SameRepoHidden,
        refresh: FreshnessPolicy::AuthoritativeLocal,
        push_ack: PushAckPolicy::LocalCommit,
        reconcile_policy: ReconcilePolicy::OnPushManual,
        exported_refs: vec!["refs/heads/*".to_owned(), "refs/tags/*".to_owned()],
        read_upstreams: vec![ReadUpstream {
            name: "github-read".to_owned(),
            url: "https://github.com/example/repo.git".to_owned(),
            auth_profile: Some("github-read".to_owned()),
        }],
        write_upstreams: vec![WriteUpstream {
            name: "github-write".to_owned(),
            url: "ssh://git@github.com/example/repo.git".to_owned(),
            auth_profile: Some("github-write".to_owned()),
            require_atomic: true,
        }],
    }
}

fn passed() -> ValidationReport {
    ValidationReport {
        repo_id: "github.com/example/repo.git".to_owned(),
        status: ValidationStatus::Passed,
        write_acceptance_allowed: true,
        issues: Vec::new(),
    }
}

fn failed() -> ValidationReport {
    ValidationReport {
        repo_id: "github.com/example/repo.git".to_owned(),
        status: ValidationStatus::Failed,
        write_acceptance_allowed: false,
        issues: vec![ValidationIssue::new("validator", "forced failure")],
    }
}

#[test]
fn authoritative_startup_begins_unknown_and_degraded() {
    let classification = classify_startup(&authoritative_descriptor("/tmp/repo.git"), &passed());

    assert_eq!(classification.safety, RepositorySafetyState::Degraded);
    assert!(classification.write_acceptance_allowed);
    assert_eq!(
        classification
            .upstreams
            .iter()
            .map(|upstream| upstream.state)
            .collect::<Vec<_>>(),
        vec![
            UpstreamConvergenceState::Unknown,
            UpstreamConvergenceState::Unknown
        ]
    );
}

#[test]
fn invalid_authoritative_repo_is_quarantined() {
    let classification = classify_startup(&authoritative_descriptor("/tmp/repo.git"), &failed());

    assert_eq!(classification.safety, RepositorySafetyState::Quarantined);
    assert!(!classification.write_acceptance_allowed);
}

#[test]
fn markers_make_a_valid_repository_divergent() {
    let descriptor = authoritative_descriptor("/tmp/repo.git");
    let marked = classify_startup_with_markers(&descriptor, &passed(), 1);
    assert_eq!(marked.safety, RepositorySafetyState::Divergent);
    assert!(!marked.write_acceptance_allowed);

    let invalid = classify_startup_with_markers(&descriptor, &failed(), 1);
    assert_eq!(invalid.safety, RepositorySafetyState::Quarantined);
}
