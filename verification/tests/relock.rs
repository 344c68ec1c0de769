//! Lock files and targeted relocking.

use git_relay::config::{
    AppConfig, DeploymentProfile, FreshnessPolicy, GitOnlyCommandMode, GitService, HumanDuration,
    ListenConfig, MigrationConfig, MigrationTransport, PathsConfig, PolicyConfig, PushAckPolicy,
    ReconcileConfig, RepositoryMode, RetentionConfig, ServiceManager, SupportedPlatform,
    TargetedRelockMode, WorkerMode,
};
use git_relay::lock::{
    allowed_changed_nodes, changed_lock_nodes, check_graph, collect_transitive_shorthand,
    ensure_root_input_exists, resolve_input_reference, settles, validate_lock_graph,
    validate_targeted_relock_result, validate_targeted_relock_scope, FlakeLock, FlakeLockNode,
    GraphMatter, InputReference, LockedSource, Resolved,
};
use git_relay::migration::{
    load_flake_project, migrate_flake_inputs, parse_policy_overrides, MigrationApplyReport,
    MigrationError, MigrationRequest,
};
use git_relay::relock::{
    LockSource, MigrationAction, MigrationEvent, MigrationStage, ProjectSources,
};
use git_relay::table::TextMap;

fn duration(text: &str) -> HumanDuration {
    HumanDuration::from_str(text).expect("duration")
}

fn config() -> AppConfig {
    AppConfig {
        listen: ListenConfig {
            ssh: "127.0.0.1:4222".to_owned(),
            https: None,
            enable_http_read: false,
            enable_http_write: false,
        },
        paths: PathsConfig {
            state_root: "/tmp".to_owned(),
            repo_root: "/tmp/repos".to_owned(),
            repo_config_root: "/tmp/repos.d".to_owned(),
        },
        reconcile: ReconcileConfig {
            on_push: true,
            manual_enabled: true,
            periodic_enabled: false,
            worker_mode: WorkerMode::ShortLived,
            lock_timeout_ms: 5_000,
        },
        policy: PolicyConfig {
            default_repo_mode: RepositoryMode::CacheOnly,
            default_refresh: FreshnessPolicy::Ttl(duration("60s")),
            negative_cache_ttl: duration("5s"),
            default_push_ack: PushAckPolicy::LocalCommit,
        },
        retention: RetentionConfig::default(),
        migration: MigrationConfig {
            supported_targets: vec![MigrationTransport::GitHttps, MigrationTransport::GitSsh],
            refuse_dirty_worktree: true,
            targeted_relock_mode: TargetedRelockMode::ValidatedOnly,
        },
        deployment: DeploymentProfile {
            platform: SupportedPlatform::Macos,
            service_manager: ServiceManager::Launchd,
            service_label: "dev.git-relay".to_owned(),
            git_only_command_mode: GitOnlyCommandMode::OpensshForceCommand,
            forced_command_wrapper: "/usr/local/bin/git-relay-ssh-force-command".to_owned(),
            disable_forwarding: true,
            runtime_env_file: "/tmp/runtime.env".to_owned(),
            required_secret_keys: vec![],
            allowed_git_services: vec![GitService::GitUploadPack, GitService::GitReceivePack],
            supported_filesystems: vec!["apfs".to_owned()],
        },
        auth_profiles: vec![],
    }
}

fn source(kind: &str, owner: &str, repo: &str) -> LockedSource {
    LockedSource {
        text: format!("{kind}:{owner}/{repo}"),
        kind: Some(kind.to_owned()),
        owner: Some(owner.to_owned()),
        repo: Some(repo.to_owned()),
    }
}

fn node(inputs: Vec<(&str, InputReference)>, locked: Option<LockedSource>, original: Option<LockedSource>) -> FlakeLockNode {
    let mut map = TextMap::new();
    for (name, reference) in inputs {
        map = map.with(name.to_owned(), reference);
    }
    FlakeLockNode {
        inputs: map,
        locked,
        original,
        parent: None,
    }
}

fn to(name: &str) -> InputReference {
    InputReference::Node(name.to_owned())
}

fn follows(path: &[&str]) -> InputReference {
    InputReference::Follows(path.iter().map(|item| (*item).to_owned()).collect())
}

fn lock(nodes: Vec<(&str, FlakeLockNode)>) -> FlakeLock {
    let mut map = TextMap::new();
    for (name, node) in nodes {
        map = map.with(name.to_owned(), node);
    }
    FlakeLock {
        nodes: map,
        root: "root".to_owned(),
        version: 7,
    }
}

/// A root with an input `app`, which has an input `lib` that the root's `lib` stands for.
fn sample(app_repo: &str, lib_repo: &str) -> FlakeLock {
    lock(vec![
        ("root", node(vec![("app", to("app")), ("lib", to("lib"))], None, None)),
        (
            "app",
            node(
                vec![("lib", follows(&["lib"])), ("deep", to("deep"))],
                Some(source("git", "o", app_repo)),
                Some(source("git", "o", "app")),
            ),
        ),
        (
            "lib",
            node(vec![], Some(source("github", "o", lib_repo)), Some(source("github", "o", "lib"))),
        ),
        (
            "deep",
            node(vec![], Some(source("github", "o", "deep")), Some(source("github", "o", "deep"))),
        ),
    ])
}

#[test]
fn references_are_followed_from_the_root() {
    let lock = sample("app", "lib");
    assert!(settles(&lock));
    assert!(validate_lock_graph("/l", &lock).is_ok());
    match resolve_input_reference(&lock, "app", &follows(&["app", "lib"])) {
        Resolved::Node(name) => assert_eq!(name, "lib"),
        _ => panic!("not resolved"),
    }
    assert!(matches!(
        resolve_input_reference(&lock, "app", &follows(&["missing"])),
        Resolved::Flaw(_)
    ));
    assert!(matches!(
        resolve_input_reference(&lock, "root", &to("missing")),
        Resolved::Flaw(_)
    ));
}

#[test]
fn references_that_follow_each_other_never_settle() {
    let lock = lock(vec![(
        "root",
        node(vec![("a", follows(&["b"])), ("b", follows(&["a"]))], None, None),
    )]);
    assert!(!settles(&lock));
    assert!(matches!(check_graph(&lock), GraphMatter::Endless));
    assert!(matches!(
        resolve_input_reference(&lock, "root", &follows(&["a"])),
        Resolved::Endless
    ));
}

#[test]
fn graphs_outside_the_contract_are_refused() {
    let mut old = sample("app", "lib");
    old.version = 6;
    assert!(matches!(
        validate_lock_graph("/l", &old),
        Err(MigrationError::InvalidLockGraph { .. })
    ));
    let mut rootless = sample("app", "lib");
    rootless.root = "missing".to_owned();
    assert!(validate_lock_graph("/l", &rootless).is_err());
    let lock = sample("app", "lib");
    assert!(ensure_root_input_exists("/l", &lock, "app").is_ok());
    assert!(ensure_root_input_exists("/l", &lock, "deep").is_err());
}

#[test]
fn shorthand_beyond_the_direct_inputs_is_collected() {
    let found = collect_transitive_shorthand("/l", &sample("app", "lib")).expect("nodes");
    assert_eq!(found.len(), 1);
    assert_eq!(found[0].node_id, "deep");
    assert_eq!(found[0].shorthand_type, "github");
    assert_eq!(found[0].repo.as_deref(), Some("deep"));
}

#[test]
fn a_relock_may_change_what_it_was_asked_for() {
    let before = sample("app", "lib");
    let after = sample("app-2", "lib");
    let changed = changed_lock_nodes(&before, &after);
    assert_eq!(changed.len(), 1);
    assert!(changed.has("app"));
    assert!(validate_targeted_relock_scope("/l", &before, "app").is_ok());
    let allowed = allowed_changed_nodes("/l", &before, "app").expect("allowed");
    assert!(allowed.has("app"));
    assert!(validate_targeted_relock_result("/l", "app", &before, &after).is_ok());
}

#[test]
fn a_relock_may_change_nothing_else() {
    let before = sample("app", "lib");
    let after = sample("app-2", "lib-2");
    match validate_targeted_relock_result("/l", "app", &before, &after) {
        Err(MigrationError::RelockScopeViolation { input_name, detail }) => {
            assert_eq!(input_name, "app");
            assert!(detail.contains("lib"));
        }
        other => panic!("{other:?}"),
    }
}

const NIX: &str = "nix (Determinate Nix 3.0.0) 2.26.3";
const FLAKE: &str = "{ inputs.app.url = \"github:o/app\"; inputs.lib.url = \"git+https://x/lib\"; }";

/// The lock file of a project, with the given repository behind `app`.
fn project_lock(app_kind: &str, app_repo: &str) -> FlakeLock {
    lock(vec![
        ("root", node(vec![("app", to("app"))], None, None)),
        (
            "app",
            node(vec![], Some(source(app_kind, "o", app_repo)), Some(source(app_kind, "o", "app"))),
        ),
    ])
}

fn request() -> MigrationRequest {
    MigrationRequest {
        flake_path: "/p".to_owned(),
        allow_dirty: false,
        policy: parse_policy_overrides(
            &vec!["app=git+https".to_owned()],
            &vec![],
            &vec![],
            &vec![],
        )
        .expect("policy"),
    }
}

/// What the project's files come to hold.
#[derive(Default)]
struct Files {
    flake_writes: Vec<String>,
    restored: bool,
    updates: usize,
}

/// Runs a migration; an update of the lock file brings what `locks` says of it.
fn migrate(dirty: bool, nix: &str, locks: &[&str]) -> (Files, Result<MigrationApplyReport, MigrationError>) {
    let project = load_flake_project("/p", true, Some("p"), Some("/")).expect("project");
    let request = request();
    let mut files = Files::default();
    let mut session = migrate_flake_inputs(&config(), &request, project);
    loop {
        let current = || {
            if files.updates == 0 {
                ("before".to_owned(), project_lock("github", "app"))
            } else {
                let name = locks[files.updates - 1];
                (name.to_owned(), project_lock("git", name))
            }
        };
        let event = match session.action() {
            MigrationAction::Git { args } => {
                if args.contains(&"rev-parse".to_owned()) {
                    MigrationEvent::Output(Ok("/p".to_owned()))
                } else {
                    MigrationEvent::Output(Ok(if dirty { " M flake.nix" } else { "" }.to_owned()))
                }
            }
            MigrationAction::Nix { args, .. } => {
                if args.contains(&"--version".to_owned()) {
                    MigrationEvent::Output(Ok(nix.to_owned()))
                } else if files.updates == locks.len() {
                    MigrationEvent::Output(Err(MigrationError::Command {
                        program: "nix".to_owned(),
                        args,
                        status: Some(1),
                        detail: "no network".to_owned(),
                    }))
                } else {
                    files.updates += 1;
                    MigrationEvent::Output(Ok(String::new()))
                }
            }
            MigrationAction::ReadProject => {
                let (lock_source, lock) = current();
                MigrationEvent::Project(Ok(ProjectSources {
                    flake_source: files.flake_writes.last().cloned().unwrap_or(FLAKE.to_owned()),
                    lock_source,
                    lock,
                }))
            }
            MigrationAction::WriteFlake { source } => {
                files.flake_writes.push(source);
                MigrationEvent::Written(Ok(()))
            }
            MigrationAction::ReadLock => {
                let (source, lock) = current();
                MigrationEvent::Lock(Ok(LockSource { source, lock }))
            }
            MigrationAction::ReadLockText => MigrationEvent::Text(Ok(current().0)),
            MigrationAction::RenderDiff { before_flake, after_flake, .. } => {
                MigrationEvent::Output(Ok(format!("-{before_flake}\n+{after_flake}")))
            }
            MigrationAction::Restore { flake_source, lock_source } => {
                assert_eq!(flake_source, FLAKE);
                assert_eq!(lock_source, "before");
                files.restored = true;
                MigrationEvent::Restored
            }
            MigrationAction::Finish => match session.stage {
                MigrationStage::Finished(result) => return (files, result),
                _ => panic!("not finished"),
            },
        };
        session = session.advance(&config(), &request, event);
    }
}

#[test]
fn a_migration_rewrites_and_relocks() {
    let (files, result) = migrate(false, NIX, &["app-2", "app-2"]);
    let report = result.expect("report");
    assert_eq!(report.relocked_inputs, vec!["app".to_owned()]);
    assert_eq!(files.flake_writes.len(), 1);
    assert!(files.flake_writes[0].contains("git+https://github.com/o/app"));
    assert!(report.diff.contains("git+https://github.com/o/app"));
    assert!(!files.restored);
}

#[test]
fn a_dirty_worktree_is_left_alone() {
    let (files, result) = migrate(true, NIX, &[]);
    assert!(matches!(result, Err(MigrationError::DirtyWorktree { .. })));
    assert!(files.flake_writes.is_empty());
}

#[test]
fn an_unknown_version_of_nix_is_refused() {
    let (files, result) = migrate(false, "nix (Nix) 1.0", &[]);
    assert!(matches!(
        result,
        Err(MigrationError::UnsupportedNixVersion { .. })
    ));
    assert!(files.flake_writes.is_empty());
}

#[test]
fn a_failed_relock_restores_both_files() {
    let (files, result) = migrate(false, NIX, &[]);
    assert!(matches!(result, Err(MigrationError::Command { .. })));
    assert!(files.restored);
}

#[test]
fn a_relock_must_come_to_rest() {
    let (files, result) = migrate(false, NIX, &["app-2", "app-3"]);
    assert!(matches!(
        result,
        Err(MigrationError::RelockNotIdempotent { .. })
    ));
    assert!(files.restored);
}

#[test]
fn a_direct_shorthand_that_is_not_assigned_is_refused() {
    let mut request = request();
    request.allow_dirty = true;
    for flake in ["{ }", "{ inputs.lib.url = \"github:o/lib\"; }"] {
        let project = load_flake_project("/p", true, Some("p"), Some("/")).expect("project");
        let session = migrate_flake_inputs(&config(), &request, project);
        let session = session.advance(
            &config(),
            &request,
            MigrationEvent::Project(Ok(ProjectSources {
                flake_source: flake.to_owned(),
                lock_source: "before".to_owned(),
                lock: project_lock("github", "app"),
            })),
        );
        match session.stage {
            MigrationStage::Finished(Err(MigrationError::UnsupportedExpression {
                input_name,
                ..
            })) => assert_eq!(input_name, "app"),
            _ => panic!("not refused"),
        }
    }
}
