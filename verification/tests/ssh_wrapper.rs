//! Commands over SSH.

use git_relay::config::{
    AppConfig, AuthProfile, AuthProfileEntry, AuthProfileKind, AuthorityModel, DeploymentProfile,
    FreshnessPolicy, GitOnlyCommandMode, GitService, HumanDuration, ListenConfig, MigrationConfig,
    MigrationTransport, PathsConfig, PolicyConfig, PushAckPolicy, ReadUpstream, ReconcileConfig,
    ReconcilePolicy, RepositoryDescriptor, RepositoryLifecycle, RepositoryMode, RetentionConfig,
    ServiceManager, SupportedPlatform, TargetedRelockMode, TrackingRefPlacement, WorkerMode,
    WriteUpstream,
};
use git_relay::git::{GitCommandError, GitExecutor};
use git_relay::hooks::RepositoryScene;
use git_relay::platform::{PlatformProbe, PlatformProbeError};
use git_relay::reconcile::DivergenceMarker;
use git_relay::ssh_wrapper::{
    authorize_ssh_command, candidate_repo, conclude_authorization, parse_ssh_command,
    resolve_and_authorize_ssh_command, resolve_ssh_command, AuthorizedSshCommand,
    ResolveAndAuthorizeError, ResolvedSshCommand, SshAuthorizationError, SshVerdict,
    SshWrapperError,
};
use git_relay::validator::required_git_config;

fn duration(text: &str) -> HumanDuration {
    HumanDuration::from_str(text).expect("duration")
}

fn app_config() -> AppConfig {
    AppConfig {
        listen: ListenConfig {
            ssh: "127.0.0.1:4222".to_owned(),
            https: Some("127.0.0.1:4318".to_owned()),
            enable_http_read: false,
            enable_http_write: false,
        },
        paths: PathsConfig {
            state_root: "/srv/relay".to_owned(),
            repo_root: "/srv/relay/repos".to_owned(),
            repo_config_root: "/srv/relay/repos.d".to_owned(),
        },
        reconcile: ReconcileConfig {
            on_push: true,
            manual_enabled: true,
            periodic_enabled: false,
            worker_mode: WorkerMode::ShortLived,
            lock_timeout_ms: 5_000,
        },
        policy: PolicyConfig {
            default_repo_mode: RepositoryMode::CacheOnly,
            default_refresh: FreshnessPolicy::Ttl(duration("60s")),
            negative_cache_ttl: duration("5s"),
            default_push_ack: PushAckPolicy::LocalCommit,
        },
        retention: RetentionConfig::default(),
        migration: MigrationConfig {
            supported_targets: vec![MigrationTransport::GitHttps, MigrationTransport::GitSsh],
            refuse_dirty_worktree: true,
            targeted_relock_mode: TargetedRelockMode::ValidatedOnly,
        },
        deployment: DeploymentProfile {
            platform: SupportedPlatform::Macos,
            service_manager: ServiceManager::Launchd,
            service_label: "dev.git-relay".to_owned(),
            git_only_command_mode: GitOnlyCommandMode::OpensshForceCommand,
            forced_command_wrapper: "/usr/local/bin/git-relay-ssh-force-command".to_owned(),
            disable_forwarding: true,
            runtime_env_file: "/srv/relay/git-relay.env".to_owned(),
            required_secret_keys: vec![
                "GITHUB_READ_TOKEN".to_owned(),
                "GITHUB_WRITE_KEY".to_owned(),
            ],
            allowed_git_services: vec![GitService::GitUploadPack, GitService::GitReceivePack],
            supported_filesystems: vec!["apfs".to_owned()],
        },
        auth_profiles: vec![
            AuthProfileEntry {
                name: "github-read".to_owned(),
                profile: AuthProfile {
                    kind: AuthProfileKind::HttpsToken,
                    secret_ref: "env:GITHUB_READ_TOKEN".to_owned(),
                },
            },
            AuthProfileEntry {
                name: "github-write".to_owned(),
                profile: AuthProfile {
                    kind: AuthProfileKind::SshKey,
                    secret_ref: "env:GITHUB_WRITE_KEY".to_owned(),
                },
            },
        ],
    }
}

fn authoritative_descriptor(path: &str) -> RepositoryDescriptor {
    RepositoryDescriptor {
        repo_id: "github.com/example/repo.git".to_owned(),
        canonical_identity: "github.com/example/repo.git".to_owned(),
        repo_path: path.to_owned(),
        mode: RepositoryMode::Authoritative,
        lifecycle: RepositoryLifecycle::Ready,
        authority_model: AuthorityModel::RelayAuthoritative,
        tracking_refs: TrackingRefPlacement::SameRepoHidden,
        refresh: FreshnessPolicy::AuthoritativeLocal,
        push_ack: PushAckPolicy::LocalCommit,
        reconcile_policy: ReconcilePolicy::OnPushManual,
        exported_refs: vec!["refs/heads/*".to_owned(), "refs/tags/*".to_owned()],
        read_upstreams: vec![ReadUpstream {
            name: "github-read".to_owned(),
            url: "https://github.com/example/repo.git".to_owned(),
            auth_profile: Some("github-read".to_owned()),
        }],
        write_upstreams: vec![WriteUpstream {
            name: "github-write".to_owned(),
            url: "ssh://git@github.com/example/repo.git".to_owned(),
            auth_profile: Some("github-write".to_owned()),
            require_atomic: true,
        }],
    }
}

/// A host with the given platform and file system.
struct FakePlatformProbe {
    platform: SupportedPlatform,
    filesystem: String,
}

impl PlatformProbe for FakePlatformProbe {
    fn current_platform(&self) -> Result<SupportedPlatform, PlatformProbeError> {
        Ok(self.platform)
    }

    fn filesystem_type(&self, _path: &str) -> Result<String, PlatformProbeError> {
        Ok(self.filesystem.clone())
    }

    fn service_manager_supported(
        &self,
        platform: SupportedPlatform,
        service_manager: ServiceManager,
    ) -> bool {
        matches!(
            (platform, service_manager),
            (SupportedPlatform::Macos, ServiceManager::Launchd)
                | (SupportedPlatform::Linux, ServiceManager::Systemd)
        )
    }
}

fn macos() -> FakePlatformProbe {
    FakePlatformProbe {
        platform: SupportedPlatform::Macos,
        filesystem: "apfs".to_owned(),
    }
}

/// A bare repository with the required settings, but for those that are left out. An old object
/// that is listed is an ancestor of every new one.
struct FakeGit {
    unset: Vec<&'static str>,
    ancestors: Vec<&'static str>,
}

fn sound_git() -> FakeGit {
    FakeGit {
        unset: Vec::new(),
        ancestors: Vec::new(),
    }
}

fn refusal(args: &[&str], status: i32, stderr: &str) -> GitCommandError {
    GitCommandError::NonZeroExit {
        args: args.iter().map(|item| (*item).to_owned()).collect(),
        status: Some(status),
        stderr: stderr.to_owned(),
    }
}

impl GitExecutor for FakeGit {
    fn git(&self, _git_dir: &str, args: &[&str]) -> Result<String, GitCommandError> {
        match args {
            ["rev-parse", "--is-bare-repository"] => Ok("true".to_owned()),
            ["config", "--get", key] => {
                let found = required_git_config()
                    .into_iter()
                    .find(|(name, _)| name == key && !self.unset.contains(key));
                match found {
                    Some((_, value)) => Ok(value.to_owned()),
                    None => Err(refusal(args, 1, "")),
                }
            }
            ["merge-base", "--is-ancestor", old, _new] => {
                if self.ancestors.contains(old) {
                    Ok(String::new())
                } else if *old == "broken" {
                    Err(refusal(args, 128, "fatal: bad object"))
                } else {
                    Err(refusal(args, 1, ""))
                }
            }
            _ => Err(refusal(args, 2, "unexpected")),
        }
    }
}

const ROOT: &str = "/srv/relay/repos";

fn cache_only_descriptor(path: &str) -> RepositoryDescriptor {
    RepositoryDescriptor {
        repo_id: "github.com/example/cache.git".to_owned(),
        canonical_identity: "github.com/example/cache.git".to_owned(),
        repo_path: path.to_owned(),
        mode: RepositoryMode::CacheOnly,
        lifecycle: RepositoryLifecycle::Ready,
        authority_model: AuthorityModel::UpstreamSource,
        tracking_refs: TrackingRefPlacement::SameRepoHidden,
        refresh: FreshnessPolicy::Ttl(duration("60s")),
        push_ack: PushAckPolicy::LocalCommit,
        reconcile_policy: ReconcilePolicy::OnPushManual,
        exported_refs: vec!["refs/heads/*".to_owned()],
        read_upstreams: Vec::new(),
        write_upstreams: Vec::new(),
    }
}

fn resolve(command: &str) -> Result<ResolvedSshCommand, SshWrapperError> {
    let request = parse_ssh_command(command)?;
    let candidate = candidate_repo(ROOT, &request);
    resolve_ssh_command(ROOT, command, Ok(ROOT.to_owned()), Ok(candidate))
}

fn scene(descriptor: RepositoryDescriptor) -> RepositoryScene {
    RepositoryScene {
        config: app_config(),
        resolved_paths: vec![Some(descriptor.repo_path.clone())],
        descriptors: vec![descriptor],
        path_exists: vec![true],
    }
}

#[test]
fn resolves_allowed_git_service_under_repo_root() {
    let resolved = resolve("git-receive-pack example.git").expect("resolve");
    assert_eq!(resolved.service, "git-receive-pack");
    assert_eq!(resolved.repo_path, "/srv/relay/repos/example.git");
}

#[test]
fn rejects_non_git_services() {
    let error = resolve("sh -c whoami").expect_err("reject service");
    assert!(matches!(
        error,
        SshWrapperError::UnsupportedService(_) | SshWrapperError::MalformedCommand(_)
    ));
}

#[test]
fn words_are_split_as_a_shell_does() {
    let request = parse_ssh_command("git-upload-pack '/team/a b.git'").expect("quoted");
    assert_eq!(request.service, "git-upload-pack");
    assert_eq!(request.requested_repo, "/team/a b.git");
    assert_eq!(candidate_repo(ROOT, &request), "/team/a b.git");
    assert!(matches!(
        parse_ssh_command("git-upload-pack 'unclosed"),
        Err(SshWrapperError::MalformedCommand(_))
    ));
    assert!(matches!(
        parse_ssh_command("sh x"),
        Err(SshWrapperError::UnsupportedService(_))
    ));
}

#[test]
fn repositories_outside_the_root_are_refused() {
    assert!(matches!(
        resolve_ssh_command(
            ROOT,
            "git-upload-pack ../secret.git",
            Ok(ROOT.to_owned()),
            Ok("/srv/relay/secret.git".to_owned())
        ),
        Err(SshWrapperError::RepoOutsideRoot { .. })
    ));
}

#[test]
fn authorize_receive_pack_requires_authoritative_repo() {
    let resolved = resolve("git-receive-pack cache.git").expect("resolve");
    let error = authorize_ssh_command(
        &scene(cache_only_descriptor("/srv/relay/repos/cache.git")),
        resolved,
        &sound_git(),
        &macos(),
    )
    .expect_err("reject receive-pack");
    assert!(matches!(
        error,
        SshAuthorizationError::WritesRequireAuthoritative { .. }
    ));
}

fn authorized(descriptor: RepositoryDescriptor, command: &str) -> AuthorizedSshCommand {
    let resolved = resolve(command).expect("resolve");
    match authorize_ssh_command(&scene(descriptor), resolved, &sound_git(), &macos())
        .expect("authorize")
    {
        SshVerdict::Authorized(command) => command,
        SshVerdict::UnlessDivergent(command) => {
            conclude_authorization(command, &vec![]).expect("no divergence")
        }
    }
}

#[test]
fn authorize_receive_pack_allows_valid_authoritative_repo() {
    let authorized = authorized(
        authoritative_descriptor("/srv/relay/repos/example.git"),
        "git-receive-pack example.git",
    );
    assert_eq!(authorized.repo_mode, RepositoryMode::Authoritative);
    assert_eq!(authorized.repo_id, "github.com/example/repo.git");
}

#[test]
fn reads_of_a_cache_are_allowed() {
    let authorized = authorized(
        cache_only_descriptor("/srv/relay/repos/cache.git"),
        "git-upload-pack cache.git",
    );
    assert_eq!(authorized.repo_mode, RepositoryMode::CacheOnly);
    assert_eq!(authorized.service, "git-upload-pack");
}

#[test]
fn divergent_repositories_take_no_push() {
    let command = authorized(
        authoritative_descriptor("/srv/relay/repos/example.git"),
        "git-receive-pack example.git",
    );
    let marker = DivergenceMarker {
        repo_id: command.repo_id.clone(),
        upstream_id: "alpha".to_owned(),
        run_id: "run-1".to_owned(),
        recorded_at_ms: 1,
        detail: None,
    };
    match conclude_authorization(command, &vec![marker]) {
        Err(SshAuthorizationError::RepositoryDivergent { upstreams, .. }) => {
            assert_eq!(upstreams, "alpha")
        }
        other => panic!("{other:?}"),
    }
}

#[test]
fn unknown_and_unready_repositories_are_refused() {
    let resolved = resolve("git-upload-pack other.git").expect("resolve");
    assert!(matches!(
        authorize_ssh_command(
            &scene(cache_only_descriptor("/srv/relay/repos/cache.git")),
            resolved,
            &sound_git(),
            &macos()
        ),
        Err(SshAuthorizationError::RepositoryNotConfigured(_))
    ));
    let mut descriptor = cache_only_descriptor("/srv/relay/repos/cache.git");
    descriptor.lifecycle = RepositoryLifecycle::Provisioning;
    let resolved = resolve("git-upload-pack cache.git").expect("resolve");
    assert!(matches!(
        authorize_ssh_command(&scene(descriptor), resolved, &sound_git(), &macos()),
        Err(SshAuthorizationError::LifecycleNotReady { .. })
    ));
}

#[test]
fn an_unsound_authoritative_repository_takes_no_push() {
    let git = FakeGit {
        unset: vec!["receive.fsckObjects"],
        ancestors: Vec::new(),
    };
    let resolved = resolve("git-receive-pack example.git").expect("resolve");
    match authorize_ssh_command(
        &scene(authoritative_descriptor("/srv/relay/repos/example.git")),
        resolved,
        &git,
        &macos(),
    ) {
        Err(SshAuthorizationError::ValidationFailed { details, .. }) => {
            assert!(details.contains("receive.fsckObjects"))
        }
        other => panic!("{other:?}"),
    }
}

#[test]
fn paths_that_do_not_resolve_are_reported_in_turn() {
    let command = "git-upload-pack missing.git";
    let resolve = |root: Result<String, String>, path: Result<String, String>| {
        resolve_ssh_command(ROOT, command, root, path).expect_err("unresolved")
    };
    match resolve(Err("gone".to_owned()), Err("gone".to_owned())) {
        SshWrapperError::CanonicalizeRepoRoot { path, .. } => assert_eq!(path, ROOT),
        other => panic!("{other:?}"),
    }
    match resolve(Ok("/srv/r".to_owned()), Err("gone".to_owned())) {
        SshWrapperError::CanonicalizeRepoPath { path, error } => {
            assert_eq!(path, "/srv/r/missing.git");
            assert_eq!(error, "gone");
        }
        other => panic!("{other:?}"),
    }
}

#[test]
fn a_command_is_resolved_and_then_judged() {
    let judge = |command: &str, repo: &str| {
        resolve_and_authorize_ssh_command(
            &scene(cache_only_descriptor("/srv/relay/repos/cache.git")),
            command,
            Ok(ROOT.to_owned()),
            Ok(repo.to_owned()),
            &sound_git(),
            &macos(),
        )
    };
    assert!(matches!(
        judge("git-upload-pack cache.git", "/srv/relay/repos/cache.git"),
        Ok(SshVerdict::Authorized(_))
    ));
    assert!(matches!(
        judge("git-receive-pack cache.git", "/srv/relay/repos/cache.git"),
        Err(ResolveAndAuthorizeError::Authorization(
            SshAuthorizationError::WritesRequireAuthoritative { .. }
        ))
    ));
    assert!(matches!(
        judge("sh", "/srv/relay/repos/cache.git"),
        Err(ResolveAndAuthorizeError::Resolve(
            SshWrapperError::MalformedCommand(_)
        ))
    ));
}
