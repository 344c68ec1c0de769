//! Hooks.

use git_relay::config::{
    AppConfig, AuthProfile, AuthProfileEntry, AuthProfileKind, AuthorityModel, DeploymentProfile,
    FreshnessPolicy, GitOnlyCommandMode, GitService, HumanDuration, ListenConfig, MigrationConfig,
    MigrationTransport, PathsConfig, PolicyConfig, PushAckPolicy, ReadUpstream, ReconcileConfig,
    ReconcilePolicy, RepositoryDescriptor, RepositoryLifecycle, RepositoryMode, RetentionConfig,
    ServiceManager, SupportedPlatform, TargetedRelockMode, TrackingRefPlacement, WorkerMode,
    WriteUpstream,
};
use git_relay::git::{GitCommandError, GitExecutor};
use git_relay::hooks::{
    dispatch_hook_action, find_descriptor_for_repo, install_hooks, judge_update, read_ref_updates,
    shell_quote, HookDispatchError, HookInstallError, HookStatus, RefUpdate, RepositoryScene,
};
use git_relay::platform::{PlatformProbe, PlatformProbeError};
use git_relay::refs::matches_exported_ref;
use git_relay::validator::required_git_config;

fn duration(text: &str) -> HumanDuration {
    HumanDuration::from_str(text).expect("duration")
}

fn app_config() -> AppConfig {
    AppConfig {
        listen: ListenConfig {
            ssh: "127.0.0.1:4222".to_owned(),
            https: Some("127.0.0.1:4318".to_owned()),
            enable_http_read: false,
            enable_http_write: false,
        },
        paths: PathsConfig {
            state_root: "/srv/relay".to_owned(),
            repo_root: "/srv/relay/repos".to_owned(),
            repo_config_root: "/srv/relay/repos.d".to_owned(),
        },
        reconcile: ReconcileConfig {
            on_push: true,
            manual_enabled: true,
            periodic_enabled: false,
            worker_mode: WorkerMode::ShortLived,
            lock_timeout_ms: 5_000,
        },
        policy: PolicyConfig {
            default_repo_mode: RepositoryMode::CacheOnly,
            default_refresh: FreshnessPolicy::Ttl(duration("60s")),
            negative_cache_ttl: duration("5s"),
            default_push_ack: PushAckPolicy::LocalCommit,
        },
        retention: RetentionConfig::default(),
        migration: MigrationConfig {
            supported_targets: vec![MigrationTransport::GitHttps, MigrationTransport::GitSsh],
            refuse_dirty_worktree: true,
            targeted_relock_mode: TargetedRelockMode::ValidatedOnly,
        },
        deployment: DeploymentProfile {
            platform: SupportedPlatform::Macos,
            service_manager: ServiceManager::Launchd,
            service_label: "dev.git-relay".to_owned(),
            git_only_command_mode: GitOnlyCommandMode::OpensshForceCommand,
            forced_command_wrapper: "/usr/local/bin/git-relay-ssh-force-command".to_owned(),
            disable_forwarding: true,
            runtime_env_file: "/srv/relay/git-relay.env".to_owned(),
            required_secret_keys: vec![
                "GITHUB_READ_TOKEN".to_owned(),
                "GITHUB_WRITE_KEY".to_owned(),
            ],
            allowed_git_services: vec![GitService::GitUploadPack, GitService::GitReceivePack],
            supported_filesystems: vec!["apfs".to_owned()],
        },
        auth_profiles: vec![
            AuthProfileEntry {
                name: "github-read".to_owned(),
                profile: AuthProfile {
                    kind: AuthProfileKind::HttpsToken,
                    secret_ref: "env:GITHUB_READ_TOKEN".to_owned(),
                },
            },
            AuthProfileEntry {
                name: "github-write".to_owned(),
                profile: AuthProfile {
                    kind: AuthProfileKind::SshKey,
                    secret_ref: "env:GITHUB_WRITE_KEY".to_owned(),
                },
            },
        ],
    }
}

fn authoritative_descriptor(path: &str) -> RepositoryDescriptor {
    RepositoryDescriptor {
        repo_id: "github.com/example/repo.git".to_owned(),
        canonical_identity: "github.com/example/repo.git".to_owned(),
        repo_path: path.to_owned(),
        mode: RepositoryMode::Authoritative,
        lifecycle: RepositoryLifecycle::Ready,
        authority_model: AuthorityModel::RelayAuthoritative,
        tracking_refs: TrackingRefPlacement::SameRepoHidden,
        refresh: FreshnessPolicy::AuthoritativeLocal,
        push_ack: PushAckPolicy::LocalCommit,
        reconcile_policy: ReconcilePolicy::OnPushManual,
        exported_refs: vec!["refs/heads/*".to_owned(), "refs/tags/*".to_owned()],
        read_upstreams: vec![ReadUpstream {
            name: "github-read".to_owned(),
            url: "https://github.com/example/repo.git".to_owned(),
            auth_profile: Some("github-read".to_owned()),
        }],
        write_upstreams: vec![WriteUpstream {
            name: "github-write".to_owned(),
            url: "ssh://git@github.com/example/repo.git".to_owned(),
            auth_profile: Some("github-write".to_owned()),
            require_atomic: true,
        }],
    }
}

/// A host with the given platform and file system.
struct FakePlatformProbe {
    platform: SupportedPlatform,
    filesystem: String,
}

impl PlatformProbe for FakePlatformProbe {
    fn current_platform(&self) -> Result<SupportedPlatform, PlatformProbeError> {
        Ok(self.platform)
    }

    fn filesystem_type(&self, _path: &str) -> Result<String, PlatformProbeError> {
        Ok(self.filesystem.clone())
    }

    fn service_manager_supported(
        &self,
        platform: SupportedPlatform,
        service_manager: ServiceManager,
    ) -> bool {
        matches!(
            (platform, service_manager),
            (SupportedPlatform::Macos, ServiceManager::Launchd)
                | (SupportedPlatform::Linux, ServiceManager::Systemd)
        )
    }
}

fn macos() -> FakePlatformProbe {
    FakePlatformProbe {
        platform: SupportedPlatform::Macos,
        filesystem: "apfs".to_owned(),
    }
}

/// A bare repository with the required settings, but for those that are left out. An old object
/// that is listed is an ancestor of every new one.
struct FakeGit {
    unset: Vec<&'static str>,
    ancestors: Vec<&'static str>,
}

fn sound_git() -> FakeGit {
    FakeGit {
        unset: Vec::new(),
        ancestors: Vec::new(),
    }
}

fn refusal(args: &[&str], status: i32, stderr: &str) -> GitCommandError {
    GitCommandError::NonZeroExit {
        args: args.iter().map(|item| (*item).to_owned()).collect(),
        status: Some(status),
        stderr: stderr.to_owned(),
    }
}

impl GitExecutor for FakeGit {
    fn git(&self, _git_dir: &str, args: &[&str]) -> Result<String, GitCommandError> {
        match args {
            ["rev-parse", "--is-bare-repository"] => Ok("true".to_owned()),
            ["config", "--get", key] => {
                let found = required_git_config()
                    .into_iter()
                    .find(|(name, _)| name == key && !self.unset.contains(key));
                match found {
                    Some((_, value)) => Ok(value.to_owned()),
                    None => Err(refusal(args, 1, "")),
                }
            }
            ["merge-base", "--is-ancestor", old, _new] => {
                if self.ancestors.contains(old) {
                    Ok(String::new())
                } else if *old == "broken" {
                    Err(refusal(args, 128, "fatal: bad object"))
                } else {
                    Err(refusal(args, 1, ""))
                }
            }
            _ => Err(refusal(args, 2, "unexpected")),
        }
    }
}

const REPO: &str = "/srv/relay/repos/repo.git";
const ZERO_OID: &str = "0000000000000000000000000000000000000000";

#[test]
fn installs_executable_git_hooks() {
    let hooks =
        install_hooks("/srv/repo.git", "/srv/dispatcher", "/srv/config.toml", true).expect("install hooks");
    assert_eq!(hooks.len(), 3);
    for hook in &hooks {
        assert_eq!(hook.mode & 0o111, 0o111);
        assert!(hook.path.starts_with("/srv/repo.git/hooks/"));
        assert!(hook.script.starts_with("#!/bin/sh\n"));
    }
}

#[test]
fn hooks_need_a_repository() {
    assert!(matches!(
        install_hooks("/srv/repo.git", "/d", "/c", false),
        Err(HookInstallError::MissingRepository(_))
    ));
}

#[test]
fn parses_ref_updates_from_hook_stdin() {
    let updates = read_ref_updates(
        "0000000000000000000000000000000000000000 aaaaaaaaaaaaaaaaaaaaaaaaaaaaaaaaaaaaaaaa refs/heads/main\n",
    )
    .expect("read updates");
    assert_eq!(updates.len(), 1);
    assert_eq!(updates[0].ref_name, "refs/heads/main");
}

#[test]
fn malformed_updates_are_refused() {
    let error = read_ref_updates("only two\n").expect_err("malformed");
    assert!(matches!(error, HookDispatchError::MalformedUpdateLine(_)));
    assert!(read_ref_updates("\n\n").expect("blank").is_empty());
}

#[test]
fn matches_exported_patterns_by_prefix() {
    assert!(matches_exported_ref(
        &vec!["refs/heads/*".to_owned()],
        "refs/heads/main"
    ));
    assert!(!matches_exported_ref(
        &vec!["refs/heads/*".to_owned()],
        "refs/git-relay/internal"
    ));
}

fn scene() -> RepositoryScene {
    let mut descriptor = authoritative_descriptor(REPO);
    descriptor.read_upstreams = Vec::new();
    RepositoryScene {
        config: app_config(),
        descriptors: vec![descriptor],
        resolved_paths: vec![Some(REPO.to_owned())],
        path_exists: vec![true],
    }
}

fn pre_receive(git: &FakeGit, input: &str) -> (HookStatus, Option<String>) {
    let updates = read_ref_updates(input).expect("updates");
    let outcome = dispatch_hook_action(
        Some(&scene()),
        "pre-receive".to_owned(),
        REPO.to_owned(),
        Vec::new(),
        updates,
        git,
        &macos(),
    )
    .expect("dispatch hook");
    (outcome.status, outcome.message)
}

#[test]
fn pre_receive_rejects_internal_refs() {
    let (status, message) = pre_receive(
        &sound_git(),
        &format!("{ZERO_OID} aaaaaaaaaaaaaaaaaaaaaaaaaaaaaaaaaaaaaaaa refs/git-relay/internal\n"),
    );
    assert_eq!(status, HookStatus::Rejected);
    assert!(message.expect("message").contains("must never be pushed"));
}

#[test]
fn pre_receive_accepts_fast_forwards_and_new_references() {
    let git = FakeGit {
        unset: Vec::new(),
        ancestors: vec!["1111111111111111111111111111111111111111"],
    };
    let (status, message) = pre_receive(
        &git,
        &format!(
            "{ZERO_OID} aaaaaaaaaaaaaaaaaaaaaaaaaaaaaaaaaaaaaaaa refs/heads/new\n1111111111111111111111111111111111111111 aaaaaaaaaaaaaaaaaaaaaaaaaaaaaaaaaaaaaaaa refs/heads/main\n"
        ),
    );
    assert_eq!((status, message), (HookStatus::Accepted, None));
}

#[test]
fn pre_receive_rejects_rewrites_deletions_and_other_references() {
    for input in [
        "2222222222222222222222222222222222222222 aaaaaaaaaaaaaaaaaaaaaaaaaaaaaaaaaaaaaaaa refs/heads/main\n".to_owned(),
        format!("2222222222222222222222222222222222222222 {ZERO_OID} refs/heads/main\n"),
        format!("{ZERO_OID} aaaaaaaaaaaaaaaaaaaaaaaaaaaaaaaaaaaaaaaa refs/notes/x\n"),
    ] {
        let (status, message) = pre_receive(&sound_git(), &input);
        assert_eq!(status, HookStatus::Rejected, "{input}");
        assert!(message.is_some());
    }
}

#[test]
fn a_repository_that_is_not_sound_takes_no_push() {
    let git = FakeGit {
        unset: vec!["core.fsync"],
        ancestors: Vec::new(),
    };
    let (status, message) = pre_receive(
        &git,
        &format!("{ZERO_OID} aaaaaaaaaaaaaaaaaaaaaaaaaaaaaaaaaaaaaaaa refs/heads/main\n"),
    );
    assert_eq!(status, HookStatus::Rejected);
    assert!(message.expect("message").contains("core.fsync"));
}

#[test]
fn other_hooks_pass_or_are_refused_by_name() {
    let dispatch = |scene: Option<&RepositoryScene>, hook: &str, repo: &str| {
        dispatch_hook_action(
            scene,
            hook.to_owned(),
            repo.to_owned(),
            vec!["committed".to_owned()],
            Vec::new(),
            &sound_git(),
            &macos(),
        )
    };
    let event = dispatch(None, "reference-transaction", REPO).expect("transaction");
    assert!(event.accepted());
    assert_eq!(event.args, vec!["committed".to_owned()]);
    assert!(dispatch(None, "post-receive", REPO).expect("post").accepted());
    assert!(matches!(
        dispatch(None, "update", REPO),
        Err(HookDispatchError::UnsupportedHook(_))
    ));
    assert!(matches!(
        dispatch(Some(&scene()), "pre-receive", "/elsewhere.git"),
        Err(HookDispatchError::RepositoryNotFound(_))
    ));
}

#[test]
fn git_that_cannot_tell_ancestry_is_an_error() {
    let updates = read_ref_updates(
        "broken aaaaaaaaaaaaaaaaaaaaaaaaaaaaaaaaaaaaaaaa refs/heads/main\n",
    )
    .expect("updates");
    let outcome = dispatch_hook_action(
        Some(&scene()),
        "pre-receive".to_owned(),
        REPO.to_owned(),
        Vec::new(),
        updates,
        &sound_git(),
        &macos(),
    );
    assert!(matches!(outcome, Err(HookDispatchError::Git(_))));
}

#[test]
fn updates_are_judged_one_by_one() {
    let update = RefUpdate {
        old_oid: "1".to_owned(),
        new_oid: "2".to_owned(),
        ref_name: "refs/heads/main".to_owned(),
    };
    let patterns = vec!["refs/heads/*".to_owned()];
    assert!(judge_update(&patterns, &update, true).is_none());
    assert!(judge_update(&patterns, &update, false).is_some());
}

#[test]
fn shell_words_are_quoted() {
    assert_eq!(shell_quote("a b"), "'a b'");
    assert_eq!(shell_quote("it's"), "'it'\"'\"'s'");
}

#[test]
fn repositories_are_found_by_their_resolved_path() {
    let paths = vec![None, Some("/b".to_owned()), Some("/c".to_owned())];
    assert_eq!(find_descriptor_for_repo(&paths, "/c"), 2);
    assert_eq!(find_descriptor_for_repo(&paths, "/d"), 3);
}

#[test]
fn hook_paths_must_be_absolute() {
    assert!(matches!(
        install_hooks("/srv/repo.git", "dispatcher", "/c", true),
        Err(HookInstallError::RelativeDispatcher(_))
    ));
    let error = install_hooks("/srv/repo.git", "/d", "config.toml", true).expect_err("relative");
    assert_eq!(error.message(), "config path must be absolute: config.toml");
}
