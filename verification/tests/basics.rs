//! Names, paths, tables, audit records, crash checkpoints and what the command line reports.

use git_relay::audit::{
    current_client_identity, identity_variables, new_structured_log_event,
    structured_log_file_path, AuditError,
};
use git_relay::classification::{
    RepositorySafetyState, StartupClassification,
};
use git_relay::cli::{all_passed, build_migration_request, startup_valid, CliError};
use git_relay::config::{RepositoryLifecycle, ServiceManager, SupportedPlatform};
use git_relay::crash::{
    checkpointing_enabled, crash_requested, hit_checkpoint, CrashCheckpoint, CRASH_EXIT_CODE,
};
use git_relay::order::{not_after, sort};
use git_relay::path::{has_extension, is_absolute, join, same_path, starts_with};
use git_relay::platform::{platform_named, service_manager_supported, PlatformProbeError};
use git_relay::refs::{parse_ref_snapshot, retain_exported, same_snapshot};
use git_relay::sanitize::{sanitize_path_component, sanitize_ref_component};
use git_relay::table::TextMap;
use git_relay::upstream::{
    disposable_probe_refs, validate_matrix_manifest, HostKeyPolicy, MatrixTargetClass,
    MatrixTargetEntry, MatrixTargetManifest, MatrixTargetTransport, UpstreamProbeError,
};
use git_relay::validator::{ValidationReport, ValidationStatus};

#[test]
fn names_become_components() {
    assert_eq!(sanitize_path_component("github.com/a b"), "github.com_a_b");
    assert_eq!(sanitize_ref_component("a b/c:d"), "a_b/c_d");
    assert_eq!(sanitize_ref_component(""), "unknown");
}

#[test]
fn paths_are_joined_and_compared_by_component() {
    assert_eq!(join("/a", "b"), "/a/b");
    assert_eq!(join("/a", "/b"), "/b");
    assert!(is_absolute("/a") && !is_absolute("a"));
    assert!(starts_with("/a/b", "/a"));
    assert!(!starts_with("/ab", "/a"));
    assert!(same_path("/a//b/", "/a/b"));
    assert!(has_extension("/x/a.toml", "toml"));
    assert!(!has_extension("/x/.toml", "toml"));
}

#[test]
fn texts_are_sorted() {
    assert!(not_after("a", "b") && not_after("a", "a") && !not_after("b", "a"));
    assert_eq!(
        sort(vec!["b".to_owned(), "a".to_owned(), "ab".to_owned()]),
        vec!["a".to_owned(), "ab".to_owned(), "b".to_owned()]
    );
}

#[test]
fn tables_hold_one_value_of_each_name_in_order() {
    let table = TextMap::new()
        .with("b".to_owned(), 1)
        .with("a".to_owned(), 2)
        .with("b".to_owned(), 3);
    assert_eq!(table.len(), 2);
    assert_eq!(table.key(0), "a");
    assert_eq!(*table.value(1), 3);
    assert_eq!(table.get("b"), Some(&3));
    assert!(!table.has("c"));
}

#[test]
fn snapshots_are_read_and_compared() {
    let oid = "aaaaaaaaaaaaaaaaaaaaaaaaaaaaaaaaaaaaaaaa";
    let entries = parse_ref_snapshot(&format!("{oid} refs/heads/b\n{oid} refs/notes/x\n")).expect("refs");
    assert_eq!(entries.len(), 2);
    let kept = retain_exported(entries.clone(), &vec!["refs/heads/*".to_owned()]);
    assert_eq!(kept.len(), 1);
    assert!(same_snapshot(&entries, &entries));
    assert!(!same_snapshot(&entries, &kept));
    assert!(parse_ref_snapshot("x").is_err());
}

#[test]
fn clients_are_named_by_the_first_variable_that_is_set() {
    assert_eq!(identity_variables()[0], "GIT_RELAY_CLIENT_IDENTITY");
    let set = |values: [Option<&str>; 5]| {
        values
            .iter()
            .map(|value| value.map(str::to_owned))
            .collect::<Vec<_>>()
    };
    assert_eq!(
        current_client_identity(&set([None, Some("  "), Some(" ann "), Some("bob"), None]), &None),
        Some("ann".to_owned())
    );
    assert_eq!(
        current_client_identity(&set([None; 5]), &Some("1.2.3.4 5".to_owned())),
        Some("ssh:1.2.3.4 5".to_owned())
    );
    assert_eq!(current_client_identity(&set([None; 5]), &None), None);
    let event = new_structured_log_event("push".to_owned(), 7, Some("ann".to_owned()));
    assert_eq!(event.recorded_at_ms, 7);
    assert_eq!(event.client_identity.as_deref(), Some("ann"));
    assert!(event.repo_id.is_none());
    assert!(structured_log_file_path("/srv").starts_with("/srv/"));
    assert!(AuditError::Serialize("x".to_owned()).message().ends_with("x"));
}

#[test]
fn crashes_happen_where_they_are_asked_for() {
    let checkpoint = CrashCheckpoint::BeforePreReceive;
    assert!(crash_requested(Some(checkpoint.as_str()), checkpoint));
    assert!(!crash_requested(
        Some(CrashCheckpoint::AfterPreReceiveSuccess.as_str()),
        checkpoint
    ));
    assert!(!crash_requested(None, checkpoint));
    assert!(checkpointing_enabled(true, false) && checkpointing_enabled(false, true));
    assert!(!checkpointing_enabled(false, false));
    assert_eq!(CRASH_EXIT_CODE, 97);
    let steps = hit_checkpoint(checkpoint, true, Some("other, before_pre_receive"));
    assert_eq!(steps.log_line, Some("before_pre_receive"));
    assert!(steps.crash);
    let steps = hit_checkpoint(checkpoint, false, Some("other"));
    assert!(steps.log_line.is_none() && !steps.crash);
}

#[test]
fn platforms_have_their_service_managers() {
    assert!(matches!(platform_named("macos"), Ok(SupportedPlatform::Macos)));
    assert!(matches!(
        platform_named("plan9"),
        Err(PlatformProbeError::UnsupportedPlatform(_))
    ));
    assert!(service_manager_supported(SupportedPlatform::Linux, ServiceManager::Systemd));
    assert!(!service_manager_supported(SupportedPlatform::Linux, ServiceManager::Launchd));
}

#[test]
fn reports_pass_together() {
    let report = |status: ValidationStatus| ValidationReport {
        repo_id: "r".to_owned(),
        status,
        write_acceptance_allowed: false,
        issues: vec![],
    };
    assert!(all_passed(&vec![report(ValidationStatus::Passed)]));
    assert!(!all_passed(&vec![
        report(ValidationStatus::Passed),
        report(ValidationStatus::Failed)
    ]));
    let started = |write_acceptance_allowed: bool| StartupClassification {
        repo_id: "r".to_owned(),
        lifecycle: RepositoryLifecycle::Ready,
        safety: RepositorySafetyState::Degraded,
        write_acceptance_allowed,
        upstreams: vec![],
    };
    assert!(startup_valid(&vec![started(true)]));
    assert!(!startup_valid(&vec![started(true), started(false)]));
}

#[test]
fn migration_options_are_checked() {
    let request = build_migration_request(
        "/p".to_owned(),
        true,
        &vec!["a=git+ssh".to_owned()],
        &vec![],
        &vec![],
        &vec![],
    )
    .expect("request");
    assert!(request.allow_dirty);
    assert!(request.policy.input_targets.has("a"));
    assert!(matches!(
        build_migration_request("/p".to_owned(), true, &vec!["a".to_owned()], &vec![], &vec![], &vec![]),
        Err(CliError::Migration(_))
    ));
}

fn target(target_id: &str) -> MatrixTargetEntry {
    MatrixTargetEntry {
        target_id: target_id.to_owned(),
        product: "github".to_owned(),
        class: MatrixTargetClass::SelfManaged,
        transport: MatrixTargetTransport::Ssh,
        url: "ssh://git@github.com/o/r.git".to_owned(),
        credential_source: "agent".to_owned(),
        host_key_policy: HostKeyPolicy::PinnedKnownHosts,
        require_atomic: true,
        same_repo_hidden_refs: true,
    }
}

#[test]
fn targets_are_declared_once() {
    let manifest = |targets: Vec<MatrixTargetEntry>| MatrixTargetManifest {
        schema_version: 1,
        targets,
    };
    assert!(validate_matrix_manifest("/m", &manifest(vec![target("a"), target("b")])).is_ok());
    for targets in [vec![], vec![target("a"), target("a")], vec![target(" ")]] {
        assert!(matches!(
            validate_matrix_manifest("/m", &manifest(targets)),
            Err(UpstreamProbeError::InvalidManifest { .. })
        ));
    }
}

#[test]
fn probes_use_references_of_their_own() {
    let refs = disposable_probe_refs("run-1", "alpha");
    assert!(refs.branch_ref.starts_with("refs/heads/"));
    assert!(refs.tag_ref.starts_with("refs/tags/"));
    assert!(refs.branch_ref.contains("run-1") && refs.branch_ref.contains("alpha"));
}

#[test]
fn the_order_of_listed_lines_does_not_matter() {
    let forward = parse_ref_snapshot("1 refs/tags/v1\n2 refs/heads/a\n3 refs/tags/v1^{}\n\n4 refs/heads/b\n");
    let backward = parse_ref_snapshot("4 refs/heads/b\n\n3 refs/tags/v1^{}\n2 refs/heads/a\n1 refs/tags/v1\n");
    let entries = forward.expect("refs");
    assert_eq!(entries, backward.expect("refs"));
    let names: Vec<&str> = entries.iter().map(|entry| entry.ref_name.as_str()).collect();
    assert_eq!(names, vec!["refs/heads/a", "refs/heads/b", "refs/tags/v1"]);
}
