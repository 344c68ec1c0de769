//! Evidence for a release.

use git_relay::config::{ServiceManager, SupportedPlatform};
use git_relay::release::{
    build_release_conformance_report, detect_host_id, exact_git_floor_from_evidence,
    git_version_not_after, host_evidence_path, load_repo_manifest_summary, mandatory_case_ids,
    parse_git_version_components, validate_git_conformance_evidence,
    validate_release_manifest_header, validate_stored_release_manifest, FloorStatus,
    HostVersionEvidence, ReleaseError, RepoReleaseManifestSummary,
    StoredGitConformanceBinaryDigests, StoredGitConformanceCase, StoredGitConformanceCaseStatus,
    StoredGitConformanceEvidence, StoredGitConformanceProfile, StoredReleaseManifest,
    StoredReleaseManifestEntry,
};
use git_relay::upstream::{
    HostKeyPolicy, MatrixTargetClass, MatrixTargetEntry, MatrixTargetManifest,
    MatrixTargetTransport,
};

fn evidence(platform: SupportedPlatform, version: &str) -> StoredGitConformanceEvidence {
    StoredGitConformanceEvidence {
        schema_version: 1,
        profile: StoredGitConformanceProfile::DeterministicCore,
        git_version_key: version.replace(' ', "_"),
        platform,
        nix_system: "x86_64-linux".to_owned(),
        service_manager: match platform {
            SupportedPlatform::Macos => ServiceManager::Launchd,
            SupportedPlatform::Linux => ServiceManager::Systemd,
        },
        git_version: version.to_owned(),
        openssh_version: "OpenSSH_9.9".to_owned(),
        filesystem_profile: "apfs".to_owned(),
        git_relay_commit: "abc".to_owned(),
        flake_lock_sha256: "def".to_owned(),
        binary_digests: StoredGitConformanceBinaryDigests {
            git_relay: "1".to_owned(),
            git_relayd: "2".to_owned(),
            git_relay_install_hooks: "3".to_owned(),
            git_relay_ssh_force_command: "4".to_owned(),
        },
        cases: mandatory_case_ids()
            .into_iter()
            .map(|case_id| StoredGitConformanceCase {
                case_id,
                status: StoredGitConformanceCaseStatus::Pass,
            })
            .collect(),
        all_mandatory_cases_passed: true,
        normalized_summary_sha256: "ghi".to_owned(),
        recorded_at_ms: 0,
    }
}

#[test]
fn complete_evidence_is_valid() {
    let record = evidence(SupportedPlatform::Linux, "git version 2.45.1");
    assert!(
        validate_git_conformance_evidence("/e/git_version_2.45.1.json", "linux", &record).is_ok()
    );
}

#[test]
fn evidence_that_is_off_is_refused() {
    let path = "/e/git_version_2.45.1.json";
    let good = || evidence(SupportedPlatform::Linux, "git version 2.45.1");
    let refused = |platform: &str, record: StoredGitConformanceEvidence| {
        matches!(
            validate_git_conformance_evidence(path, platform, &record),
            Err(ReleaseError::InvalidGitConformanceEvidence { .. })
        )
    };
    assert!(refused("windows", good()));
    assert!(refused("macos", good()));
    let mut record = good();
    record.schema_version = 2;
    assert!(refused("linux", record));
    let mut record = good();
    record.git_version_key = "other".to_owned();
    assert!(refused("linux", record));
    let mut record = good();
    record.service_manager = ServiceManager::Launchd;
    assert!(refused("linux", record));
    let mut record = good();
    record.cases.pop();
    assert!(refused("linux", record));
    let mut record = good();
    record.cases[0].status = StoredGitConformanceCaseStatus::Fail;
    assert!(refused("linux", record));
}

#[test]
fn versions_are_compared_by_their_numbers() {
    assert_eq!(
        parse_git_version_components("git version 2.45.1-rc2"),
        vec![2, 45, 1, 2]
    );
    assert!(git_version_not_after("git version 2.9.0", "git version 2.10.0"));
    assert!(!git_version_not_after("git version 2.10.0", "git version 2.9.0"));
}

#[test]
fn a_floor_needs_both_platforms() {
    let linux = |version: &str| evidence(SupportedPlatform::Linux, version);
    let macos = |version: &str| evidence(SupportedPlatform::Macos, version);
    assert_eq!(exact_git_floor_from_evidence(&vec![linux("git version 2.45.1")]), None);
    assert_eq!(
        exact_git_floor_from_evidence(&vec![
            linux("git version 2.45.1"),
            macos("git version 2.45.1"),
            linux("git version 2.9.0"),
            macos("git version 2.9.0"),
            linux("git version 2.1.0"),
        ]),
        Some("git version 2.9.0".to_owned())
    );
}

fn host(platform: SupportedPlatform, host_id: &str) -> HostVersionEvidence {
    HostVersionEvidence {
        host_id: host_id.to_owned(),
        platform,
        service_manager: match platform {
            SupportedPlatform::Macos => ServiceManager::Launchd,
            SupportedPlatform::Linux => ServiceManager::Systemd,
        },
        observed_git_version: "git version 2.45.1".to_owned(),
        observed_nix_version: "nix (Nix) 2.28.5".to_owned(),
        recorded_at_ms: 5,
    }
}

fn admitted() -> RepoReleaseManifestSummary {
    load_repo_manifest_summary("r", "/m", Some(&manifest()))
}

#[test]
fn a_release_is_closed_by_its_evidence() {
    let records = vec![
        evidence(SupportedPlatform::Linux, "git version 2.45.1"),
        evidence(SupportedPlatform::Macos, "git version 2.45.1"),
    ];
    let report = build_release_conformance_report(
        host(SupportedPlatform::Linux, "b"),
        vec![
            host(SupportedPlatform::Macos, "a"),
            host(SupportedPlatform::Linux, "b"),
        ],
        vec![admitted()],
        &records,
    );
    assert!(report.blocking_reasons.is_empty());
    assert_eq!(report.exact_git_floor_status, FloorStatus::Closed);
    assert_eq!(report.exact_nix_floor_status, FloorStatus::Closed);
    assert_eq!(report.exact_git_floor.as_deref(), Some("git version 2.45.1"));
    assert_eq!(
        report.exact_nix_floor.as_deref(),
        Some("nix (Determinate Nix 3.0.0) 2.26.3")
    );
    assert_eq!(report.platform_evidence[0].host_id, "b");
    assert_eq!(report.generated_at_ms, 5);
}

#[test]
fn a_release_without_evidence_is_blocked() {
    let report = build_release_conformance_report(
        host(SupportedPlatform::Linux, "b"),
        vec![host(SupportedPlatform::Linux, "b")],
        vec![],
        &vec![],
    );
    assert_eq!(report.blocking_reasons.len(), 3);
    assert_eq!(report.exact_git_floor, None);
    assert_eq!(report.exact_git_floor_status, FloorStatus::Open);
}

fn target() -> MatrixTargetEntry {
    MatrixTargetEntry {
        target_id: "t".to_owned(),
        product: "github".to_owned(),
        class: MatrixTargetClass::SelfManaged,
        transport: MatrixTargetTransport::Ssh,
        url: "ssh://git@github.com/o/r.git".to_owned(),
        credential_source: "agent".to_owned(),
        host_key_policy: HostKeyPolicy::PinnedKnownHosts,
        require_atomic: true,
        same_repo_hidden_refs: true,
    }
}

fn manifest() -> StoredReleaseManifest {
    let target = target();
    StoredReleaseManifest {
        generated_at_ms: 1,
        repo_id: "r".to_owned(),
        repo_path: "/r".to_owned(),
        manifest_path: "/targets.json".to_owned(),
        probe_run_id: "run".to_owned(),
        probe_run_path: "/run.json".to_owned(),
        all_entries_admitted: true,
        entries: vec![StoredReleaseManifestEntry {
            target_id: target.target_id,
            product: target.product,
            class: target.class,
            transport: target.transport,
            url: target.url,
            require_atomic: target.require_atomic,
            same_repo_hidden_refs: target.same_repo_hidden_refs,
            admitted: true,
            evidence_path: "/run.json".to_owned(),
            admission_reasons: vec![],
        }],
    }
}

fn declared() -> MatrixTargetManifest {
    MatrixTargetManifest {
        schema_version: 1,
        targets: vec![target()],
    }
}

#[test]
fn a_manifest_covers_the_declared_targets() {
    assert!(validate_release_manifest_header("/m", "r", &manifest(), true, true).is_ok());
    assert!(validate_stored_release_manifest("/m", &manifest(), &declared(), &vec![true]).is_ok());
    assert!(validate_release_manifest_header("/m", "other", &manifest(), true, true).is_err());
    assert!(validate_release_manifest_header("/m", "r", &manifest(), true, false).is_err());
    assert!(validate_stored_release_manifest("/m", &manifest(), &declared(), &vec![false]).is_err());
    let mut changed = manifest();
    changed.entries[0].url = "ssh://elsewhere".to_owned();
    assert!(validate_stored_release_manifest("/m", &changed, &declared(), &vec![true]).is_err());
    let mut empty = manifest();
    empty.entries.clear();
    assert!(validate_stored_release_manifest("/m", &empty, &declared(), &vec![]).is_err());
}

#[test]
fn summaries_count_what_was_admitted() {
    let summary = load_repo_manifest_summary("r", "/m", None);
    assert!(!summary.manifest_present);
    assert_eq!(summary.total_entries, 0);
    assert_eq!(admitted().admitted_entries, 1);
}

#[test]
fn hosts_are_named() {
    assert_eq!(detect_host_id(&Some(" h ".to_owned()), &None), "h");
    assert_eq!(
        detect_host_id(&Some(" ".to_owned()), &Some("name\n".to_owned())),
        "name"
    );
    assert!(host_evidence_path("/srv", SupportedPlatform::Macos, "a b").contains("a_b"));
}

#[test]
fn evidence_for_a_release_carries_no_time() {
    let mut record = evidence(SupportedPlatform::Linux, "git version 2.45.1");
    record.recorded_at_ms = 7;
    let error = validate_git_conformance_evidence("/e/git_version_2.45.1.json", "linux", &record)
        .expect_err("a time");
    assert_eq!(
        error.message(),
        "invalid git conformance evidence at /e/git_version_2.45.1.json: recorded_at_ms must be deterministic zero for release-admitting evidence, found 7"
    );
}
