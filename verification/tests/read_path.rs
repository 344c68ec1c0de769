//! Preparing a repository for reading.

use git_relay::config::{
    AppConfig, AuthProfile, AuthProfileEntry, AuthProfileKind, AuthorityModel, DeploymentProfile,
    FreshnessPolicy, GitOnlyCommandMode, GitService, HumanDuration, ListenConfig, MigrationConfig,
    MigrationTransport, PathsConfig, PolicyConfig, PushAckPolicy, ReadUpstream, ReconcileConfig,
    ReconcilePolicy, RepositoryDescriptor, RepositoryLifecycle, RepositoryMode, RetentionConfig,
    ServiceManager, SupportedPlatform, TargetedRelockMode, TrackingRefPlacement, WorkerMode,
    WriteUpstream,
};
use git_relay::git::{GitProcessOutput, GitReply};
use git_relay::read_path::{
    active_negative_cache, can_serve_local_without_refresh, classify_refresh_failure,
    honor_initial_negative_cache, lock_is_stale, negative_cache_path,
    operator_prepare_repository_for_read, policy_allows_refresh, prepare_repository_for_read,
    refresh_from_upstreams, repository_has_visible_refs, LocalView, NegativeCacheEntry, ReadAction,
    ReadEvent, ReadOutcome, ReadPathError, ReadPreparationIntent, ReadProgress, ReadSession,
    ReadStep, RefreshLockMetadata, RefreshProgress, RefreshState,
};
use git_relay::upstream::ProbeFailureClass;

fn duration(text: &str) -> HumanDuration {
    HumanDuration::from_str(text).expect("duration")
}

fn app_config() -> AppConfig {
    AppConfig {
        listen: ListenConfig {
            ssh: "127.0.0.1:4222".to_owned(),
            https: Some("127.0.0.1:4318".to_owned()),
            enable_http_read: false,
            enable_http_write: false,
        },
        paths: PathsConfig {
            state_root: "/srv/relay".to_owned(),
            repo_root: "/srv/relay/repos".to_owned(),
            repo_config_root: "/srv/relay/repos.d".to_owned(),
        },
        reconcile: ReconcileConfig {
            on_push: true,
            manual_enabled: true,
            periodic_enabled: false,
            worker_mode: WorkerMode::ShortLived,
            lock_timeout_ms: 5_000,
        },
        policy: PolicyConfig {
            default_repo_mode: RepositoryMode::CacheOnly,
            default_refresh: FreshnessPolicy::Ttl(duration("60s")),
            negative_cache_ttl: duration("5s"),
            default_push_ack: PushAckPolicy::LocalCommit,
        },
        retention: RetentionConfig::default(),
        migration: MigrationConfig {
            supported_targets: vec![MigrationTransport::GitHttps, MigrationTransport::GitSsh],
            refuse_dirty_worktree: true,
            targeted_relock_mode: TargetedRelockMode::ValidatedOnly,
        },
        deployment: DeploymentProfile {
            platform: SupportedPlatform::Macos,
            service_manager: ServiceManager::Launchd,
            service_label: "dev.git-relay".to_owned(),
            git_only_command_mode: GitOnlyCommandMode::OpensshForceCommand,
            forced_command_wrapper: "/usr/local/bin/git-relay-ssh-force-command".to_owned(),
            disable_forwarding: true,
            runtime_env_file: "/srv/relay/git-relay.env".to_owned(),
            required_secret_keys: vec![
                "GITHUB_READ_TOKEN".to_owned(),
                "GITHUB_WRITE_KEY".to_owned(),
            ],
            allowed_git_services: vec![GitService::GitUploadPack, GitService::GitReceivePack],
            supported_filesystems: vec!["apfs".to_owned()],
        },
        auth_profiles: vec![
            AuthProfileEntry {
                name: "github-read".to_owned(),
                profile: AuthProfile {
                    kind: AuthProfileKind::HttpsToken,
                    secret_ref: "env:GITHUB_READ_TOKEN".to_owned(),
                },
            },
            AuthProfileEntry {
                name: "github-write".to_owned(),
                profile: AuthProfile {
                    kind: AuthProfileKind::SshKey,
                    secret_ref: "env:GITHUB_WRITE_KEY".to_owned(),
                },
            },
        ],
    }
}

fn authoritative_descriptor(path: &str) -> RepositoryDescriptor {
    RepositoryDescriptor {
        repo_id: "github.com/example/repo.git".to_owned(),
        canonical_identity: "github.com/example/repo.git".to_owned(),
        repo_path: path.to_owned(),
        mode: RepositoryMode::Authoritative,
        lifecycle: RepositoryLifecycle::Ready,
        authority_model: AuthorityModel::RelayAuthoritative,
        tracking_refs: TrackingRefPlacement::SameRepoHidden,
        refresh: FreshnessPolicy::AuthoritativeLocal,
        push_ack: PushAckPolicy::LocalCommit,
        reconcile_policy: ReconcilePolicy::OnPushManual,
        exported_refs: vec!["refs/heads/*".to_owned(), "refs/tags/*".to_owned()],
        read_upstreams: vec![ReadUpstream {
            name: "github-read".to_owned(),
            url: "https://github.com/example/repo.git".to_owned(),
            auth_profile: Some("github-read".to_owned()),
        }],
        write_upstreams: vec![WriteUpstream {
            name: "github-write".to_owned(),
            url: "ssh://git@github.com/example/repo.git".to_owned(),
            auth_profile: Some("github-write".to_owned()),
            require_atomic: true,
        }],
    }
}

fn cache_descriptor(refresh: FreshnessPolicy) -> RepositoryDescriptor {
    let mut descriptor = authoritative_descriptor("/srv/relay/repos/cache.git");
    descriptor.mode = RepositoryMode::CacheOnly;
    descriptor.authority_model = AuthorityModel::UpstreamSource;
    descriptor.refresh = refresh;
    descriptor.write_upstreams = Vec::new();
    descriptor
}

fn refreshed_at(at_ms: u128) -> RefreshState {
    RefreshState {
        repo_id: "github.com/example/repo.git".to_owned(),
        last_successful_refresh_at_ms: at_ms,
        last_upstream_id: "github-read".to_owned(),
    }
}

fn remembered(expires_at_ms: u128) -> NegativeCacheEntry {
    NegativeCacheEntry {
        repo_id: "github.com/example/repo.git".to_owned(),
        failure_class: ProbeFailureClass::TransportUnreachable,
        detail: "unreachable".to_owned(),
        expires_at_ms,
    }
}

/// The host of a preparation: what it finds, and how a refresh ends.
struct Host {
    state: Option<RefreshState>,
    has_local_refs: bool,
    now_ms: u128,
    negative_cache: Option<NegativeCacheEntry>,
    lock: bool,
    refresh: Result<RefreshState, String>,
    refreshes: usize,
}

fn host() -> Host {
    Host {
        state: None,
        has_local_refs: false,
        now_ms: 1_000_000,
        negative_cache: None,
        lock: true,
        refresh: Ok(refreshed_at(1_000_000)),
        refreshes: 0,
    }
}

fn prepare(session: ReadSession, host: &mut Host) -> ReadOutcome {
    let mut session = session;
    loop {
        let event = match session.step() {
            ReadStep::ReadRefreshState => ReadEvent::RefreshState(host.state.clone()),
            ReadStep::Look => ReadEvent::Looked(LocalView {
                state: host.state.clone(),
                has_local_refs: host.has_local_refs,
                now_ms: host.now_ms,
            }),
            ReadStep::ReadNegativeCache => ReadEvent::NegativeCache(active_negative_cache(
                host.negative_cache.clone(),
                host.now_ms,
            )),
            ReadStep::TryLock => ReadEvent::Lock(host.lock),
            ReadStep::Refresh => {
                host.refreshes += 1;
                match host.refresh.clone() {
                    Ok(state) => ReadEvent::Refreshed(state),
                    Err(detail) => ReadEvent::RefreshFailed(detail),
                }
            }
        };
        match session.advance(event) {
            ReadProgress::Continue(next) => session = next,
            ReadProgress::Finished(outcome) => return outcome,
        }
    }
}

fn serve(refresh: FreshnessPolicy, host: &mut Host) -> ReadOutcome {
    let session =
        prepare_repository_for_read(&app_config(), &cache_descriptor(refresh)).expect("session");
    prepare(session, host)
}

#[test]
fn a_fresh_cache_is_served_as_it_is() {
    let mut host = Host {
        state: Some(refreshed_at(999_000)),
        has_local_refs: true,
        ..host()
    };
    let outcome = serve(FreshnessPolicy::Ttl(duration("60s")), &mut host);
    let report = outcome.result.expect("report");
    assert_eq!(report.action, ReadAction::ServedLocal);
    assert_eq!(report.refresh_policy, "ttl:1m");
    assert_eq!(host.refreshes, 0);
}

#[test]
fn an_old_cache_is_refreshed() {
    let mut host = Host {
        state: Some(refreshed_at(1)),
        has_local_refs: true,
        ..host()
    };
    let outcome = serve(FreshnessPolicy::Ttl(duration("60s")), &mut host);
    let report = outcome.result.expect("report");
    assert_eq!(report.action, ReadAction::Refreshed);
    assert!(report.refreshed);
    assert_eq!(report.source_upstream.as_deref(), Some("github-read"));
    assert!(outcome.clear_negative_cache);
    assert_eq!(host.refreshes, 1);
}

#[test]
fn stale_content_is_served_only_where_the_policy_says_so() {
    let failing = || Host {
        state: Some(refreshed_at(1)),
        has_local_refs: true,
        refresh: Err("Could not resolve host".to_owned()),
        ..host()
    };
    let outcome = serve(FreshnessPolicy::StaleIfError, &mut failing());
    let report = outcome.result.expect("report");
    assert_eq!(report.action, ReadAction::ServedStale);
    assert!(report.stale_served);
    let entry = outcome.write_negative_cache.expect("remembered failure");
    assert_eq!(entry.expires_at_ms, 1_005_000);

    let outcome = serve(FreshnessPolicy::AlwaysRefresh, &mut failing());
    assert!(matches!(
        outcome.result,
        Err(ReadPathError::RefreshFailed { .. })
    ));
}

#[test]
fn a_remembered_failure_is_not_tried_again() {
    let mut host = Host {
        negative_cache: Some(remembered(1_000_500)),
        ..host()
    };
    let outcome = serve(FreshnessPolicy::Ttl(duration("60s")), &mut host);
    assert!(matches!(
        outcome.result,
        Err(ReadPathError::NegativeCacheActive { .. })
    ));
    assert_eq!(host.refreshes, 0);
    assert!(active_negative_cache(Some(remembered(10)), 11).is_none());
    assert!(active_negative_cache(Some(remembered(10)), 9).is_some());
}

#[test]
fn without_the_lock_nothing_is_refreshed() {
    let mut host = Host {
        lock: false,
        state: Some(refreshed_at(1_000_000)),
        has_local_refs: true,
        ..host()
    };
    let session = prepare_repository_for_read(
        &app_config(),
        &cache_descriptor(FreshnessPolicy::AlwaysRefresh),
    )
    .expect("session");
    let mut session = session;
    for _ in 0..20 {
        let event = match session.step() {
            ReadStep::ReadRefreshState => ReadEvent::RefreshState(host.state.clone()),
            ReadStep::Look => ReadEvent::Looked(LocalView {
                state: host.state.clone(),
                has_local_refs: host.has_local_refs,
                now_ms: host.now_ms,
            }),
            ReadStep::ReadNegativeCache => ReadEvent::NegativeCache(None),
            ReadStep::TryLock => ReadEvent::Lock(false),
            ReadStep::Refresh => {
                host.refreshes += 1;
                panic!("refreshed without the lock")
            }
        };
        match session.advance(event) {
            ReadProgress::Continue(next) => session = next,
            ReadProgress::Finished(_) => break,
        }
    }
    assert_eq!(host.refreshes, 0);
}

#[test]
fn an_authoritative_repository_is_served_from_itself() {
    let descriptor = authoritative_descriptor("/srv/relay/repos/repo.git");
    let session = prepare_repository_for_read(&app_config(), &descriptor).expect("session");
    let mut host = host();
    let report = prepare(session, &mut host).result.expect("report");
    assert_eq!(report.action, ReadAction::ServedLocal);
    assert_eq!(host.refreshes, 0);
}

#[test]
fn preparations_that_cannot_start_are_refused() {
    let config = app_config();
    let mut descriptor = cache_descriptor(FreshnessPolicy::AlwaysRefresh);
    descriptor.lifecycle = RepositoryLifecycle::Provisioning;
    assert!(matches!(
        prepare_repository_for_read(&config, &descriptor),
        Err(ReadPathError::RepositoryNotReady { .. })
    ));
    let descriptor = cache_descriptor(FreshnessPolicy::AuthoritativeLocal);
    assert!(matches!(
        prepare_repository_for_read(&config, &descriptor),
        Err(ReadPathError::InvalidCacheOnlyFreshness { .. })
    ));
    let mut descriptor = authoritative_descriptor("/r");
    descriptor.refresh = FreshnessPolicy::AlwaysRefresh;
    assert!(matches!(
        prepare_repository_for_read(&config, &descriptor),
        Err(ReadPathError::InvalidAuthoritativeFreshness { .. })
    ));
    let mut descriptor = cache_descriptor(FreshnessPolicy::AlwaysRefresh);
    descriptor.read_upstreams = Vec::new();
    assert!(matches!(
        operator_prepare_repository_for_read(&config, &descriptor),
        Err(ReadPathError::MissingReadUpstreams { .. })
    ));
}

#[test]
fn an_operator_refreshes_where_a_client_may_not() {
    assert!(!policy_allows_refresh(
        FreshnessPolicy::ManualOnly,
        ReadPreparationIntent::ClientServe
    ));
    assert!(policy_allows_refresh(
        FreshnessPolicy::ManualOnly,
        ReadPreparationIntent::OperatorPrepare
    ));
    let outcome = serve(FreshnessPolicy::ManualOnly, &mut host());
    assert!(matches!(
        outcome.result,
        Err(ReadPathError::NoLocalStateForServe { .. })
    ));
    let descriptor = cache_descriptor(FreshnessPolicy::ManualOnly);
    let session =
        operator_prepare_repository_for_read(&app_config(), &descriptor).expect("session");
    let report = prepare(session, &mut host()).result.expect("report");
    assert_eq!(report.action, ReadAction::Refreshed);
    assert!(!can_serve_local_without_refresh(
        FreshnessPolicy::AlwaysRefresh,
        &LocalView {
            state: None,
            has_local_refs: true,
            now_ms: 1
        },
        ReadPreparationIntent::ClientServe
    ));
    assert!(honor_initial_negative_cache(
        FreshnessPolicy::AlwaysRefresh,
        ReadPreparationIntent::ClientServe
    ));
}

#[test]
fn upstreams_are_tried_in_turn() {
    let mut descriptor = cache_descriptor(FreshnessPolicy::AlwaysRefresh);
    descriptor.read_upstreams.push(ReadUpstream {
        name: "mirror".to_owned(),
        url: "https://mirror.example.com/repo.git".to_owned(),
        auth_profile: None,
    });
    let reply = |success: bool, args: Vec<String>| {
        GitReply::Ran(GitProcessOutput {
            success,
            status: Some(if success { 0 } else { 1 }),
            stdout: String::new(),
            stderr: "Could not resolve host".to_owned(),
            args,
        })
    };
    let session = refresh_from_upstreams(&descriptor);
    let args = session.command();
    assert!(args.contains(&"https://github.com/example/repo.git".to_owned()));
    let RefreshProgress::Continue(session) = session.advance(reply(false, args), 5) else {
        panic!("the second upstream was not tried");
    };
    let args = session.command();
    assert!(args.contains(&"https://mirror.example.com/repo.git".to_owned()));
    match session.clone().advance(reply(true, args.clone()), 6) {
        RefreshProgress::Refreshed(state) => {
            assert_eq!(state.last_upstream_id, "mirror");
            assert_eq!(state.last_successful_refresh_at_ms, 6);
        }
        _ => panic!("not refreshed"),
    }
    match session.advance(reply(false, args), 6) {
        RefreshProgress::Failed(ReadPathError::RefreshFailed { detail, .. }) => {
            assert!(detail.contains("github-read") && detail.contains("mirror"))
        }
        _ => panic!("not failed"),
    }
}

#[test]
fn failures_and_locks_are_told_as_elsewhere() {
    assert_eq!(
        classify_refresh_failure("Permission denied (publickey)"),
        ProbeFailureClass::AccessDenied
    );
    let metadata = RefreshLockMetadata {
        repo_id: "r".to_owned(),
        pid: 3,
        acquired_at_ms: 100,
    };
    assert!(!lock_is_stale(Some(&metadata), 105, 10, true));
    assert!(repository_has_visible_refs("refs/heads/main\n"));
    assert!(!repository_has_visible_refs(" \n"));
    assert!(negative_cache_path("/srv", "a/b").starts_with("/srv/"));
}
