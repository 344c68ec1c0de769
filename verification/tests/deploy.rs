//! Deployment.

use git_relay::config::{
    AppConfig, AuthProfile, AuthProfileEntry, AuthProfileKind, AuthorityModel, DeploymentProfile,
    FreshnessPolicy, GitOnlyCommandMode, GitService, HumanDuration, ListenConfig, MigrationConfig,
    MigrationTransport, PathsConfig, PolicyConfig, PushAckPolicy, ReadUpstream, ReconcileConfig,
    ReconcilePolicy, RepositoryDescriptor, RepositoryLifecycle, RepositoryMode, RetentionConfig,
    ServiceManager, SupportedPlatform, TargetedRelockMode, TrackingRefPlacement, WorkerMode,
    WriteUpstream,
};
use git_relay::deploy::{
    load_env_file, render_service, validate_runtime_profile, RuntimeValidationReport,
    ServiceFormat, ServiceRenderRequest,
};
use git_relay::git::{GitCommandError, GitExecutor};
use git_relay::platform::{PlatformProbe, PlatformProbeError};
use git_relay::validator::{required_git_config, Validator};

fn duration(text: &str) -> HumanDuration {
    HumanDuration::from_str(text).expect("duration")
}

fn app_config() -> AppConfig {
    AppConfig {
        listen: ListenConfig {
            ssh: "127.0.0.1:4222".to_owned(),
            https: Some("127.0.0.1:4318".to_owned()),
            enable_http_read: false,
            enable_http_write: false,
        },
        paths: PathsConfig {
            state_root: "/srv/relay".to_owned(),
            repo_root: "/srv/relay/repos".to_owned(),
            repo_config_root: "/srv/relay/repos.d".to_owned(),
        },
        reconcile: ReconcileConfig {
            on_push: true,
            manual_enabled: true,
            periodic_enabled: false,
            worker_mode: WorkerMode::ShortLived,
            lock_timeout_ms: 5_000,
        },
        policy: PolicyConfig {
            default_repo_mode: RepositoryMode::CacheOnly,
            default_refresh: FreshnessPolicy::Ttl(duration("60s")),
            negative_cache_ttl: duration("5s"),
            default_push_ack: PushAckPolicy::LocalCommit,
        },
        retention: RetentionConfig::default(),
        migration: MigrationConfig {
            supported_targets: vec![MigrationTransport::GitHttps, MigrationTransport::GitSsh],
            refuse_dirty_worktree: true,
            targeted_relock_mode: TargetedRelockMode::ValidatedOnly,
        },
        deployment: DeploymentProfile {
            platform: SupportedPlatform::Macos,
            service_manager: ServiceManager::Launchd,
            service_label: "dev.git-relay".to_owned(),
            git_only_command_mode: GitOnlyCommandMode::OpensshForceCommand,
            forced_command_wrapper: "/usr/local/bin/git-relay-ssh-force-command".to_owned(),
            disable_forwarding: true,
            runtime_env_file: "/srv/relay/git-relay.env".to_owned(),
            required_secret_keys: vec![
                "GITHUB_READ_TOKEN".to_owned(),
                "GITHUB_WRITE_KEY".to_owned(),
            ],
            allowed_git_services: vec![GitService::GitUploadPack, GitService::GitReceivePack],
            supported_filesystems: vec!["apfs".to_owned()],
        },
        auth_profiles: vec![
            AuthProfileEntry {
                name: "github-read".to_owned(),
                profile: AuthProfile {
                    kind: AuthProfileKind::HttpsToken,
                    secret_ref: "env:GITHUB_READ_TOKEN".to_owned(),
                },
            },
            AuthProfileEntry {
                name: "github-write".to_owned(),
                profile: AuthProfile {
                    kind: AuthProfileKind::SshKey,
                    secret_ref: "env:GITHUB_WRITE_KEY".to_owned(),
                },
            },
        ],
    }
}

fn authoritative_descriptor(path: &str) -> RepositoryDescriptor {
    RepositoryDescriptor {
        repo_id: "github.com/example/repo.git".to_owned(),
        canonical_identity: "github.com/example/repo.git".to_owned(),
        repo_path: path.to_owned(),
        mode: RepositoryMode::Authoritative,
        lifecycle: RepositoryLifecycle::Ready,
        authority_model: AuthorityModel::RelayAuthoritative,
        tracking_refs: TrackingRefPlacement::SameRepoHidden,
        refresh: FreshnessPolicy::AuthoritativeLocal,
        push_ack: PushAckPolicy::LocalCommit,
        reconcile_policy: ReconcilePolicy::OnPushManual,
        exported_refs: vec!["refs/heads/*".to_owned(), "refs/tags/*".to_owned()],
        read_upstreams: vec![ReadUpstream {
            name: "github-read".to_owned(),
            url: "https://github.com/example/repo.git".to_owned(),
            auth_profile: Some("github-read".to_owned()),
        }],
        write_upstreams: vec![WriteUpstream {
            name: "github-write".to_owned(),
            url: "ssh://git@github.com/example/repo.git".to_owned(),
            auth_profile: Some("github-write".to_owned()),
            require_atomic: true,
        }],
    }
}

/// A host with the given platform and file system.
struct FakePlatformProbe {
    platform: SupportedPlatform,
    filesystem: String,
}

impl PlatformProbe for FakePlatformProbe {
    fn current_platform(&self) -> Result<SupportedPlatform, PlatformProbeError> {
        Ok(self.platform)
    }

    fn filesystem_type(&self, _path: &str) -> Result<String, PlatformProbeError> {
        Ok(self.filesystem.clone())
    }

    fn service_manager_supported(
        &self,
        platform: SupportedPlatform,
        service_manager: ServiceManager,
    ) -> bool {
        matches!(
            (platform, service_manager),
            (SupportedPlatform::Macos, ServiceManager::Launchd)
                | (SupportedPlatform::Linux, ServiceManager::Systemd)
        )
    }
}

fn macos() -> FakePlatformProbe {
    FakePlatformProbe {
        platform: SupportedPlatform::Macos,
        filesystem: "apfs".to_owned(),
    }
}

/// A bare repository with the required settings, but for those that are left out. An old object
/// that is listed is an ancestor of every new one.
struct FakeGit {
    unset: Vec<&'static str>,
    ancestors: Vec<&'static str>,
}

fn sound_git() -> FakeGit {
    FakeGit {
        unset: Vec::new(),
        ancestors: Vec::new(),
    }
}

fn refusal(args: &[&str], status: i32, stderr: &str) -> GitCommandError {
    GitCommandError::NonZeroExit {
        args: args.iter().map(|item| (*item).to_owned()).collect(),
        status: Some(status),
        stderr: stderr.to_owned(),
    }
}

impl GitExecutor for FakeGit {
    fn git(&self, _git_dir: &str, args: &[&str]) -> Result<String, GitCommandError> {
        match args {
            ["rev-parse", "--is-bare-repository"] => Ok("true".to_owned()),
            ["config", "--get", key] => {
                let found = required_git_config()
                    .into_iter()
                    .find(|(name, _)| name == key && !self.unset.contains(key));
                match found {
                    Some((_, value)) => Ok(value.to_owned()),
                    None => Err(refusal(args, 1, "")),
                }
            }
            ["merge-base", "--is-ancestor", old, _new] => {
                if self.ancestors.contains(old) {
                    Ok(String::new())
                } else if *old == "broken" {
                    Err(refusal(args, 128, "fatal: bad object"))
                } else {
                    Err(refusal(args, 1, ""))
                }
            }
            _ => Err(refusal(args, 2, "unexpected")),
        }
    }
}

fn validate(config: &AppConfig, env: &str) -> RuntimeValidationReport {
    let descriptor = authoritative_descriptor("/srv/relay/repos/repo.git");
    let git = sound_git();
    let platform = macos();
    let validator = Validator::new(&git, &platform);
    let env = load_env_file(&config.deployment.runtime_env_file, Ok(env.to_owned()));
    validate_runtime_profile(config, &env, &vec![descriptor], &vec![true], &validator)
        .expect("runtime validation")
}

#[test]
fn runtime_validation_requires_env_file_outside_nix_store_and_repo_contracts() {
    let config = app_config();
    let report = validate(&config, "GITHUB_READ_TOKEN=alpha\nGITHUB_WRITE_KEY=beta\n");

    assert!(report.passed());
    assert_eq!(report.secret_count, 2);
}

#[test]
fn runtime_validation_fails_when_required_secret_is_missing() {
    let config = app_config();
    let report = validate(&config, "GITHUB_READ_TOKEN=alpha\n");

    assert!(!report.passed());
    assert!(report
        .issues
        .iter()
        .any(|issue| issue.code == "deployment.required_secret_keys"));
}

#[test]
fn an_env_file_in_the_nix_store_is_refused() {
    let mut config = app_config();
    config.deployment.runtime_env_file = "/nix/store/x/git-relay.env".to_owned();
    let report = validate(&config, "GITHUB_READ_TOKEN=alpha\nGITHUB_WRITE_KEY=beta\n");
    assert!(!report.passed());
}

#[test]
fn env_files_are_read_line_by_line() {
    let env = load_env_file(
        "/e",
        Ok("# comment\n\nA=1\nexport B='two'\nA=3\n".to_owned()),
    )
    .expect("env");
    assert_eq!(env.get("A").map(String::as_str), Some("3"));
    assert!(load_env_file("/e", Ok("no value\n".to_owned())).is_err());
    assert_eq!(env.get("B").map(String::as_str), Some("'two'"));
    assert!(load_env_file("/e", Err("gone".to_owned())).is_err());
}

#[test]
fn renders_systemd_and_launchd_units_from_the_same_profile() {
    let config = app_config();
    let request = ServiceRenderRequest {
        binary_path: "/nix/store/git-relay/bin/git-relayd".to_owned(),
        config_path: "/srv/relay/config.toml".to_owned(),
        format: ServiceFormat::Systemd,
    };
    let systemd = render_service(&config, &request);
    assert!(systemd.contains("EnvironmentFile="));
    assert!(systemd.contains("ExecStart=/nix/store/git-relay/bin/git-relayd serve --config"));

    let launchd = render_service(
        &config,
        &ServiceRenderRequest {
            format: ServiceFormat::Launchd,
            ..request
        },
    );
    assert!(launchd.contains("<key>Label</key>"));
    assert!(launchd.contains("serve --config"));
}

#[test]
fn a_systemd_unit_is_rendered_exactly() {
    let request = ServiceRenderRequest {
        binary_path: "/b".to_owned(),
        config_path: "/c".to_owned(),
        format: ServiceFormat::Systemd,
    };
    assert_eq!(
        render_service(&app_config(), &request),
        "[Unit]\nDescription=Git Relay\nAfter=network.target\n\n[Service]\nType=simple\nWorkingDirectory=/srv/relay\nEnvironmentFile=/srv/relay/git-relay.env\nExecStart=/b serve --config /c\nRestart=on-failure\nRestartSec=2\n\n[Install]\nWantedBy=multi-user.target\n"
    );
}
