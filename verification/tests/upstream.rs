//! Probing upstreams.

use git_relay::config::{
    AuthorityModel, FreshnessPolicy, PushAckPolicy, ReconcilePolicy, RepositoryDescriptor,
    RepositoryLifecycle, RepositoryMode, TrackingRefPlacement, WriteUpstream,
};
use git_relay::git::{GitProcessOutput, GitReply};
use git_relay::refs::RefSnapshotEntry;
use git_relay::upstream::{
    build_release_manifest, classify_failure, conformance_run, disposable_probe_refs, matrix_run,
    probe_matrix_targets, probe_repository_upstreams, DisposableNamespaceVerdict, HostKeyPolicy,
    MatrixTargetClass, MatrixTargetEntry, MatrixTargetManifest, MatrixTargetTransport,
    ProbeFailureClass, ProbeFindings, ProbeProgress, ProbeSession, UpstreamAccessVerdict,
    UpstreamProbeError,
};

#[test]
fn classifies_access_denied_failures() {
    assert_eq!(
        classify_failure("fatal: Authentication failed for 'https://example.invalid/repo.git/'"),
        ProbeFailureClass::AccessDenied
    );
}

#[test]
fn classifies_repository_missing_failures() {
    assert_eq!(
        classify_failure("fatal: '/tmp/missing.git' does not appear to be a git repository"),
        ProbeFailureClass::RepositoryMissing
    );
}

#[test]
fn classifies_atomic_protocol_failures() {
    assert_eq!(
        classify_failure("fatal: the receiving end does not support --atomic push"),
        ProbeFailureClass::ProtocolUnsupported
    );
}

#[test]
fn classifies_other_failures() {
    assert_eq!(
        classify_failure("ssh: Could not resolve host example.invalid"),
        ProbeFailureClass::TransportUnreachable
    );
    assert_eq!(classify_failure("fatal: index file corrupt"), ProbeFailureClass::Unknown);
}

fn ran(success: bool, stdout: &str, stderr: &str, args: Vec<String>) -> GitReply {
    GitReply::Ran(GitProcessOutput {
        success,
        status: Some(if success { 0 } else { 1 }),
        stdout: stdout.to_owned(),
        stderr: stderr.to_owned(),
        args,
    })
}

fn start() -> ProbeSession {
    ProbeSession::new(
        "ssh://git@example.com/repo.git",
        "alpha",
        "run-1",
        "aaaaaaaaaaaaaaaaaaaaaaaaaaaaaaaaaaaaaaaa",
    )
}

fn findings(progress: ProbeProgress) -> ProbeFindings {
    match progress {
        ProbeProgress::Done(findings) => findings,
        ProbeProgress::Continue(_) => panic!("the probe goes on"),
        ProbeProgress::Failed(error) => panic!("the probe failed: {}", error.message()),
    }
}

fn further(progress: ProbeProgress) -> ProbeSession {
    match progress {
        ProbeProgress::Continue(session) => session,
        _ => panic!("the probe ended"),
    }
}

#[test]
fn an_upstream_that_denies_access_is_not_probed_further() {
    let session = start();
    let args = session.command();
    let found = findings(session.advance(ran(false, "", "Permission denied (publickey).", args)));
    assert_eq!(found.access.verdict, UpstreamAccessVerdict::AccessDenied);
    assert_eq!(
        found.disposable_namespace.verdict,
        DisposableNamespaceVerdict::NotAttempted
    );
}

/// What a probe finds of an upstream that takes and drops everything.
fn supported() -> ProbeFindings {
    let refs = disposable_probe_refs("run-1", "alpha");
    let listing = format!(
        "aaaaaaaaaaaaaaaaaaaaaaaaaaaaaaaaaaaaaaaa\t{}\naaaaaaaaaaaaaaaaaaaaaaaaaaaaaaaaaaaaaaaa\t{}",
        refs.branch_ref, refs.tag_ref
    );
    let session = start();
    let args = session.command();
    let session = further(session.advance(ran(true, "", "", args)));
    let args = session.command();
    assert!(args.contains(&"--atomic".to_owned()));
    let session = further(session.advance(ran(true, "", "", args)));
    let args = session.command();
    let session = further(session.advance(ran(true, "", "", args)));
    let args = session.command();
    let session = further(session.advance(ran(true, &listing, "", args)));
    let args = session.command();
    let session = further(session.advance(ran(true, "", "", args)));
    let args = session.command();
    findings(session.advance(ran(true, "", "", args)))
}

#[test]
fn an_upstream_that_takes_and_drops_references_is_supported() {
    let found = supported();
    assert_eq!(found.access.verdict, UpstreamAccessVerdict::Accessible);
    assert_eq!(
        found.disposable_namespace.verdict,
        DisposableNamespaceVerdict::Supported
    );
}

#[test]
fn git_that_does_not_start_ends_a_probe() {
    let progress = start().advance(GitReply::NotStarted {
        error: "no such file".to_owned(),
    });
    match progress {
        ProbeProgress::Failed(UpstreamProbeError::SpawnGit { error, .. }) => {
            assert_eq!(error, "no such file")
        }
        _ => panic!("the probe went on"),
    }
}

/// What a probe finds of an upstream that denies access.
fn denied() -> ProbeFindings {
    let session = start();
    let args = session.command();
    findings(session.advance(ran(false, "", "Permission denied (publickey).", args)))
}

fn upstream(name: &str) -> WriteUpstream {
    WriteUpstream {
        name: name.to_owned(),
        url: format!("ssh://git@{name}/repo.git"),
        auth_profile: None,
        require_atomic: true,
    }
}

fn descriptor() -> RepositoryDescriptor {
    RepositoryDescriptor {
        repo_id: "github.com/example/repo.git".to_owned(),
        canonical_identity: "github.com/example/repo.git".to_owned(),
        repo_path: "/srv/repos/repo.git".to_owned(),
        mode: RepositoryMode::Authoritative,
        lifecycle: RepositoryLifecycle::Ready,
        authority_model: AuthorityModel::RelayAuthoritative,
        tracking_refs: TrackingRefPlacement::SameRepoHidden,
        refresh: FreshnessPolicy::AuthoritativeLocal,
        push_ack: PushAckPolicy::LocalCommit,
        reconcile_policy: ReconcilePolicy::OnPushManual,
        exported_refs: vec!["refs/heads/*".to_owned()],
        read_upstreams: vec![],
        write_upstreams: vec![upstream("beta"), upstream("alpha")],
    }
}

fn refs() -> Vec<RefSnapshotEntry> {
    vec![RefSnapshotEntry {
        ref_name: "refs/heads/main".to_owned(),
        oid: "aaaaaaaaaaaaaaaaaaaaaaaaaaaaaaaaaaaaaaaa".to_owned(),
    }]
}

fn target(target_id: &str, same_repo_hidden_refs: bool) -> MatrixTargetEntry {
    MatrixTargetEntry {
        target_id: target_id.to_owned(),
        product: "forge".to_owned(),
        class: if same_repo_hidden_refs {
            MatrixTargetClass::SelfManaged
        } else {
            MatrixTargetClass::Managed
        },
        transport: MatrixTargetTransport::Ssh,
        url: format!("ssh://git@{target_id}/repo.git"),
        credential_source: "ssh-agent".to_owned(),
        host_key_policy: HostKeyPolicy::PinnedKnownHosts,
        require_atomic: true,
        same_repo_hidden_refs,
    }
}

#[test]
fn upstreams_are_probed_in_the_order_of_their_names() {
    let plan = probe_repository_upstreams(&descriptor(), &refs(), "run-1").expect("plan");
    let names: Vec<&str> = plan.probes.iter().map(|(upstream, _)| upstream.name.as_str()).collect();
    assert_eq!(names, vec!["alpha", "beta"]);
    assert!(matches!(
        probe_repository_upstreams(&descriptor(), &vec![], "run-1"),
        Err(UpstreamProbeError::NoLocalProbeSource { .. })
    ));
    let probed = vec![(upstream("alpha"), supported()), (upstream("beta"), denied())];
    let run = conformance_run(
        &descriptor(),
        "run-1".to_owned(),
        plan.source_oid,
        probed,
        1,
        2,
    );
    assert_eq!(run.repo_id, "github.com/example/repo.git");
    assert_eq!(run.results[0].upstream_id, "alpha");
    assert!(run.results[0].supported_for_policy);
    assert!(!run.results[1].supported_for_policy);
    assert_eq!((run.started_at_ms, run.completed_at_ms), (1, 2));
}

#[test]
fn targets_are_admitted_where_nothing_speaks_against_them() {
    let manifest = |targets: Vec<MatrixTargetEntry>| MatrixTargetManifest {
        schema_version: 1,
        targets,
    };
    let plan = probe_matrix_targets(
        &descriptor(),
        "/m.json",
        manifest(vec![target("b", true), target("a", false), target("c", false)]),
        &refs(),
        "run-1",
    )
    .expect("plan");
    let targets: Vec<MatrixTargetEntry> = plan.probes.into_iter().map(|(target, _)| target).collect();
    assert_eq!(targets[0].target_id, "a");
    match probe_matrix_targets(
        &descriptor(),
        "/m.json",
        manifest(vec![target("a", false), target("a", false)]),
        &refs(),
        "run-1",
    ) {
        Err(UpstreamProbeError::InvalidManifest { path, detail }) => {
            assert_eq!(path, "/m.json");
            assert_eq!(detail, "duplicate target_id a");
        }
        _ => panic!("the manifest was taken"),
    }
    let found = vec![supported(), supported(), denied()];
    let run = matrix_run(
        &descriptor(),
        "/m.json".to_owned(),
        "run-1".to_owned(),
        plan.source_oid,
        targets.into_iter().zip(found).collect(),
        1,
        2,
    );
    assert!(run.results[0].supported_for_policy && run.results[0].admission_reasons.is_empty());
    assert_eq!(run.results[1].admission_reasons.len(), 1);
    assert!(!run.results[1].same_repo_hidden_refs_supported);
    assert_eq!(run.results[2].admission_reasons[0], "access verdict access_denied");
    let release = build_release_manifest("/srv", &descriptor(), &run, 3);
    let admitted: Vec<bool> = release.entries.iter().map(|entry| entry.admitted).collect();
    assert_eq!(admitted, vec![true, false, false]);
    assert!(!release.all_entries_admitted);
    assert_eq!(
        release.probe_run_path,
        "/srv/upstream-probes/matrix-runs/github.com_example_repo.git/run-1.json"
    );
}
