//! Keeping what is needed, and no more.

use git_relay::config::{
    AppConfig, AuthProfile, AuthProfileEntry, AuthProfileKind, AuthorityModel, DeploymentProfile,
    FreshnessPolicy, GitOnlyCommandMode, GitService, HumanDuration, ListenConfig, MigrationConfig,
    MigrationTransport, PathsConfig, PolicyConfig, PushAckPolicy, ReadUpstream, ReconcileConfig,
    ReconcilePolicy, RepositoryDescriptor, RepositoryLifecycle, RepositoryMode, RetentionConfig,
    ServiceManager, SupportedPlatform, TargetedRelockMode, TrackingRefPlacement, WorkerMode,
    WriteUpstream,
};
use git_relay::git::{GitProcessOutput, GitReply};
use git_relay::maintenance::{
    apply_authoritative_maintenance, authoritative_maintenance_commands, count_json_files,
    evicted_report, failed_report, git_approxidate, last_report_path, maintain_cache_repository,
    maintenance_due, prune_json_records, record_timestamp, reports_by_repository,
    retention_policy_report, retention_status_for_repo, run_retention_maintenance,
    selected_for_maintenance, terminal_record_timestamp, unpersisted_report, CacheDecision,
    CacheMaintenanceOutcome, CacheRetentionStatus, MaintenanceError, RepositoryMaintenanceReport,
    TerminalEvidenceCounts, TerminalRecord,
};
use git_relay::sweep::{SweepAction, SweepEvent, SweepSession, SweepStage};

fn duration(text: &str) -> HumanDuration {
    HumanDuration::from_str(text).expect("duration")
}

fn app_config() -> AppConfig {
    AppConfig {
        listen: ListenConfig {
            ssh: "127.0.0.1:4222".to_owned(),
            https: Some("127.0.0.1:4318".to_owned()),
            enable_http_read: false,
            enable_http_write: false,
        },
        paths: PathsConfig {
            state_root: "/srv/relay".to_owned(),
            repo_root: "/srv/relay/repos".to_owned(),
            repo_config_root: "/srv/relay/repos.d".to_owned(),
        },
        reconcile: ReconcileConfig {
            on_push: true,
            manual_enabled: true,
            periodic_enabled: false,
            worker_mode: WorkerMode::ShortLived,
            lock_timeout_ms: 5_000,
        },
        policy: PolicyConfig {
            default_repo_mode: RepositoryMode::CacheOnly,
            default_refresh: FreshnessPolicy::Ttl(duration("60s")),
            negative_cache_ttl: duration("5s"),
            default_push_ack: PushAckPolicy::LocalCommit,
        },
        retention: RetentionConfig::default(),
        migration: MigrationConfig {
            supported_targets: vec![MigrationTransport::GitHttps, MigrationTransport::GitSsh],
            refuse_dirty_worktree: true,
            targeted_relock_mode: TargetedRelockMode::ValidatedOnly,
        },
        deployment: DeploymentProfile {
            platform: SupportedPlatform::Macos,
            service_manager: ServiceManager::Launchd,
            service_label: "dev.git-relay".to_owned(),
            git_only_command_mode: GitOnlyCommandMode::OpensshForceCommand,
            forced_command_wrapper: "/usr/local/bin/git-relay-ssh-force-command".to_owned(),
            disable_forwarding: true,
            runtime_env_file: "/srv/relay/git-relay.env".to_owned(),
            required_secret_keys: vec![
                "GITHUB_READ_TOKEN".to_owned(),
                "GITHUB_WRITE_KEY".to_owned(),
            ],
            allowed_git_services: vec![GitService::GitUploadPack, GitService::GitReceivePack],
            supported_filesystems: vec!["apfs".to_owned()],
        },
        auth_profiles: vec![
            AuthProfileEntry {
                name: "github-read".to_owned(),
                profile: AuthProfile {
                    kind: AuthProfileKind::HttpsToken,
                    secret_ref: "env:GITHUB_READ_TOKEN".to_owned(),
                },
            },
            AuthProfileEntry {
                name: "github-write".to_owned(),
                profile: AuthProfile {
                    kind: AuthProfileKind::SshKey,
                    secret_ref: "env:GITHUB_WRITE_KEY".to_owned(),
                },
            },
        ],
    }
}

fn authoritative_descriptor(path: &str) -> RepositoryDescriptor {
    RepositoryDescriptor {
        repo_id: "github.com/example/repo.git".to_owned(),
        canonical_identity: "github.com/example/repo.git".to_owned(),
        repo_path: path.to_owned(),
        mode: RepositoryMode::Authoritative,
        lifecycle: RepositoryLifecycle::Ready,
        authority_model: AuthorityModel::RelayAuthoritative,
        tracking_refs: TrackingRefPlacement::SameRepoHidden,
        refresh: FreshnessPolicy::AuthoritativeLocal,
        push_ack: PushAckPolicy::LocalCommit,
        reconcile_policy: ReconcilePolicy::OnPushManual,
        exported_refs: vec!["refs/heads/*".to_owned(), "refs/tags/*".to_owned()],
        read_upstreams: vec![ReadUpstream {
            name: "github-read".to_owned(),
            url: "https://github.com/example/repo.git".to_owned(),
            auth_profile: Some("github-read".to_owned()),
        }],
        write_upstreams: vec![WriteUpstream {
            name: "github-write".to_owned(),
            url: "ssh://git@github.com/example/repo.git".to_owned(),
            auth_profile: Some("github-write".to_owned()),
            require_atomic: true,
        }],
    }
}

fn record(timestamp_ms: u128, path: &str) -> TerminalRecord {
    TerminalRecord {
        timestamp_ms,
        path: path.to_owned(),
    }
}

#[test]
fn pruning_keeps_the_newest_and_the_recent() {
    let records = vec![record(1_000, "a"), record(9_000, "b"), record(2_000, "c"), record(500, "d")];
    let pruned = prune_json_records(records, 2, duration("1s"), 10_000);
    assert_eq!(pruned, vec!["a".to_owned(), "d".to_owned()]);

    let records = vec![record(9_500, "a"), record(9_600, "b")];
    assert!(prune_json_records(records, 0, duration("1s"), 10_000).is_empty());
}

#[test]
fn records_of_one_moment_are_kept_by_name() {
    let records = vec![record(1, "a"), record(1, "b")];
    assert_eq!(
        prune_json_records(records, 1, duration("1s"), 10_000),
        vec!["a".to_owned()]
    );
}

#[test]
fn the_time_of_a_record_is_its_completion() {
    assert_eq!(
        terminal_record_timestamp("/r.json", "{\"completed_at_ms\": 7, \"started_at_ms\": 3}")
            .expect("record"),
        7
    );
    assert_eq!(
        terminal_record_timestamp("/r.json", "{\"completed_at_ms\": null, \"started_at_ms\": 3}")
            .expect("record"),
        3
    );
    assert_eq!(terminal_record_timestamp("/r.json", "{}").expect("record"), 0);
    assert!(matches!(
        terminal_record_timestamp("/r.json", "{"),
        Err(MaintenanceError::ParseJson { .. })
    ));
    assert_eq!(record_timestamp(None, Some(3)), 3);
}

fn cache_status() -> CacheRetentionStatus {
    CacheRetentionStatus {
        repo_accessible: true,
        pinned: false,
        has_visible_refs: Some(true),
        last_activity_at_ms: Some(0),
    }
}

fn cache_outcome(status: &CacheRetentionStatus, now_ms: u128) -> Option<CacheMaintenanceOutcome> {
    let mut descriptor = authoritative_descriptor("/srv/relay/repos/repo.git");
    descriptor.mode = RepositoryMode::CacheOnly;
    match maintain_cache_repository(&app_config(), &descriptor, status, now_ms).expect("decision") {
        CacheDecision::Retain(report) => Some(report.outcome),
        CacheDecision::Evict => None,
    }
}

#[test]
fn a_cache_is_evicted_only_where_it_is_known_to_be_idle() {
    let idle_ms: u128 = app_config().retention.cache_idle_ttl.as_duration().as_millis();
    assert_eq!(cache_outcome(&cache_status(), idle_ms), None);
    assert_eq!(
        cache_outcome(&cache_status(), idle_ms - 1),
        Some(CacheMaintenanceOutcome::RecentRetained)
    );
    let mut status = cache_status();
    status.pinned = true;
    assert_eq!(
        cache_outcome(&status, idle_ms),
        Some(CacheMaintenanceOutcome::PinnedRetained)
    );
    let mut status = cache_status();
    status.has_visible_refs = None;
    assert_eq!(
        cache_outcome(&status, idle_ms),
        Some(CacheMaintenanceOutcome::EmptyRetained)
    );
    let mut status = cache_status();
    status.last_activity_at_ms = None;
    assert_eq!(
        cache_outcome(&status, idle_ms),
        Some(CacheMaintenanceOutcome::NoActivityEvidenceRetained)
    );
    let mut status = cache_status();
    status.repo_accessible = false;
    assert!(matches!(
        maintain_cache_repository(
            &app_config(),
            &authoritative_descriptor("/srv/relay/repos/repo.git"),
            &status,
            idle_ms
        ),
        Err(MaintenanceError::RepositoryUnavailable { .. })
    ));
    let report = evicted_report(&cache_status(), 4);
    assert_eq!(report.outcome, CacheMaintenanceOutcome::Evicted);
    assert_eq!(report.removed_visible_ref_count, 4);
}

#[test]
fn durations_are_told_to_git_in_its_own_words() {
    for (text, expected) in [
        ("0s", "now"),
        ("48h", "2.days.ago"),
        ("5h", "5.hours.ago"),
        ("7m", "7.minutes.ago"),
        ("61s", "61.seconds.ago"),
    ] {
        assert_eq!(git_approxidate(duration(text)), expected);
    }
}

fn ran(success: bool) -> GitProcessOutput {
    GitProcessOutput {
        success,
        status: Some(if success { 0 } else { 128 }),
        stdout: String::new(),
        stderr: "fatal: no".to_owned(),
        args: vec!["gc".to_owned()],
    }
}

#[test]
fn authoritative_repositories_are_collected() {
    let config = app_config();
    let descriptor = authoritative_descriptor("/srv/relay/repos/repo.git");
    let (expire, collect) = authoritative_maintenance_commands(&config);
    assert_eq!(expire[0], "reflog");
    assert_eq!(collect[0], "gc");
    let report = apply_authoritative_maintenance(
        &config,
        &descriptor,
        true,
        Some(ran(true)),
        Some(ran(true)),
    )
    .expect("maintenance");
    assert!(report.applied);
    assert!(matches!(
        apply_authoritative_maintenance(&config, &descriptor, true, Some(ran(false)), None),
        Err(MaintenanceError::Git { .. })
    ));
    assert!(matches!(
        apply_authoritative_maintenance(&config, &descriptor, false, None, None),
        Err(MaintenanceError::RepositoryUnavailable { .. })
    ));
}

fn counts() -> TerminalEvidenceCounts {
    TerminalEvidenceCounts {
        reconcile_runs: 1,
        upstream_probe_runs: 2,
        matrix_probe_runs: 3,
    }
}

#[test]
fn maintenance_falls_due_an_interval_after_the_last() {
    let config = app_config();
    let descriptor = authoritative_descriptor("/srv/relay/repos/repo.git");
    let error = MaintenanceError::CacheControl("no".to_owned());
    let report = failed_report(&descriptor, &error, 10, 1_000);
    assert_eq!(report.error, Some(error.message()));
    let interval = config.retention.maintenance_interval;
    let interval_ms = interval.as_duration().as_millis();
    assert!(maintenance_due(&None, interval, 0));
    assert!(!maintenance_due(&Some(report.clone()), interval, 999 + interval_ms));
    assert!(maintenance_due(&Some(report.clone()), interval, 1_000 + interval_ms));

    let status = retention_status_for_repo(&config, Some(report.clone()), counts(), 1_001);
    assert!(!status.due_now);
    assert_eq!(status.next_due_at_ms, Some(1_000 + interval_ms));
    assert_eq!(status.policy, retention_policy_report(&config));
    assert!(!selected_for_maintenance(&descriptor, &Some(status)));
    assert!(selected_for_maintenance(&descriptor, &None));

    let lost = unpersisted_report(report, &MaintenanceError::CacheControl("disk".to_owned()));
    assert!(lost.error.expect("error").contains("disk"));
}

#[test]
fn reports_come_in_the_order_of_the_repositories() {
    let mut first = authoritative_descriptor("/a");
    first.repo_id = "a".to_owned();
    let mut second = authoritative_descriptor("/b");
    second.repo_id = "b".to_owned();
    let error = MaintenanceError::CacheControl("x".to_owned());
    let reports = reports_by_repository(vec![
        failed_report(&second, &error, 1, 2),
        failed_report(&first, &error, 1, 2),
    ]);
    assert_eq!(reports[0].repo_id, "a");
    assert_eq!(reports[1].repo_id, "b");
}

#[test]
fn only_records_are_counted() {
    assert_eq!(
        count_json_files(&vec!["a.json".to_owned(), "b.tmp".to_owned(), "c.json".to_owned()]),
        2
    );
    assert!(last_report_path("/srv", "r").starts_with("/srv/"));
}

/// Sweeps a repository; `records` are what each directory holds, and a report is kept or not.
fn sweep(session: SweepSession, status: CacheRetentionStatus, kept: bool) -> (Vec<String>, RepositoryMaintenanceReport) {
    let config = app_config();
    let now_ms: u128 = 4_000_000_000_000;
    let mut removed = Vec::new();
    let mut session = session;
    loop {
        let event = match session.action(&config) {
            SweepAction::ReadTime => SweepEvent::Started { now_ms },
            SweepAction::ReadRecords { directory } => {
                let count = config.retention.terminal_run_keep_count + 2;
                let records = (0..count as u128)
                    .map(|at| record(at, &format!("{directory}/{at:04}.json")))
                    .collect();
                SweepEvent::Records { records, now_ms }
            }
            SweepAction::RemoveFile { path } => {
                removed.push(path.clone());
                SweepEvent::Done { now_ms }
            }
            SweepAction::ReadCacheStatus => SweepEvent::CacheStatus {
                status: status.clone(),
                now_ms,
            },
            SweepAction::EvictCache => SweepEvent::Evicted {
                status: status.clone(),
                removed_visible_ref_count: 5,
                now_ms,
            },
            SweepAction::FindRepository => SweepEvent::Found {
                repo_exists: true,
                now_ms,
            },
            SweepAction::Git { .. } => SweepEvent::Git {
                reply: GitReply::Ran(ran(true)),
                now_ms,
            },
            SweepAction::WriteReport(_) => {
                if kept {
                    SweepEvent::Done { now_ms }
                } else {
                    SweepEvent::Failed {
                        error: MaintenanceError::CacheControl("disk full".to_owned()),
                        now_ms,
                    }
                }
            }
            SweepAction::Finish => match session.stage {
                SweepStage::Finished(report) => return (removed, report),
                _ => panic!("not finished"),
            },
        };
        session = session.advance(&config, event);
    }
}

fn only_session(descriptor: RepositoryDescriptor) -> SweepSession {
    let mut sessions = run_retention_maintenance(vec![descriptor], &vec![None]);
    assert_eq!(sessions.len(), 1);
    sessions.remove(0)
}

#[test]
fn an_authoritative_sweep_prunes_and_collects() {
    let session = only_session(authoritative_descriptor("/srv/relay/repos/repo.git"));
    let (removed, report) = sweep(session, cache_status(), true);
    assert_eq!(removed.len(), 6);
    assert!(removed[0].ends_with("/0001.json"));
    assert!(removed[1].ends_with("/0000.json"));
    assert_eq!(report.evidence_pruned.reconcile_runs_removed, 2);
    assert_eq!(report.evidence_pruned.upstream_probe_runs_removed, 2);
    assert_eq!(report.evidence_pruned.matrix_probe_runs_removed, 2);
    assert!(report.authoritative.expect("collected").applied);
    assert!(report.cache.is_none() && report.error.is_none());
}

#[test]
fn a_cache_sweep_evicts_the_idle() {
    let cache = || {
        let mut descriptor = authoritative_descriptor("/srv/relay/repos/cache.git");
        descriptor.mode = RepositoryMode::CacheOnly;
        descriptor
    };
    let (_, report) = sweep(only_session(cache()), cache_status(), true);
    let evicted = report.cache.expect("cache");
    assert_eq!(evicted.outcome, CacheMaintenanceOutcome::Evicted);
    assert_eq!(evicted.removed_visible_ref_count, 5);

    let mut pinned = cache_status();
    pinned.pinned = true;
    let (_, report) = sweep(only_session(cache()), pinned, false);
    assert_eq!(
        report.cache.expect("cache").outcome,
        CacheMaintenanceOutcome::PinnedRetained
    );
    assert!(report.error.expect("lost").contains("disk full"));
}

#[test]
fn repositories_that_are_not_ready_are_not_swept() {
    let mut descriptor = authoritative_descriptor("/srv/relay/repos/repo.git");
    descriptor.lifecycle = RepositoryLifecycle::Provisioning;
    assert!(run_retention_maintenance(vec![descriptor], &vec![None]).is_empty());
}

#[test]
fn a_sweep_that_fails_says_so() {
    let session = only_session(authoritative_descriptor("/srv/relay/repos/repo.git"));
    let config = app_config();
    let session = session.advance(&config, SweepEvent::Started { now_ms: 1 });
    let error = MaintenanceError::Read {
        path: "/x".to_owned(),
        error: "denied".to_owned(),
    };
    let session = session.advance(&config, SweepEvent::Failed { error, now_ms: 2 });
    match session.stage {
        SweepStage::Persist(report) => {
            assert_eq!(report.error.as_deref(), Some("failed to read /x: denied"));
            assert_eq!(report.completed_at_ms, 2);
        }
        _ => panic!("not ended"),
    }
}

#[test]
fn pruning_again_removes_nothing() {
    let records = vec![record(1_000, "a"), record(9_000, "b"), record(2_000, "c"), record(500, "d")];
    let pruned = prune_json_records(records.clone(), 2, duration("1s"), 10_000);
    let left: Vec<TerminalRecord> = records
        .into_iter()
        .filter(|record| !pruned.contains(&record.path))
        .collect();
    assert_eq!(left.len(), 2);
    assert!(prune_json_records(left, 2, duration("1s"), 10_000).is_empty());
}
