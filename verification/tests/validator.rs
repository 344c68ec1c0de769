//! The contract of a repository.

use git_relay::config::{
    AppConfig, AuthProfile, AuthProfileEntry, AuthProfileKind, AuthorityModel, DeploymentProfile,
    FreshnessPolicy, GitOnlyCommandMode, GitService, HumanDuration, ListenConfig, MigrationConfig,
    MigrationTransport, PathsConfig, PolicyConfig, PushAckPolicy, ReadUpstream, ReconcileConfig,
    ReconcilePolicy, RepositoryDescriptor, RepositoryLifecycle, RepositoryMode, RetentionConfig,
    ServiceManager, SupportedPlatform, TargetedRelockMode, TrackingRefPlacement, WorkerMode,
    WriteUpstream,
};
use git_relay::git::{GitCommandError, GitExecutor};
use git_relay::platform::{PlatformProbe, PlatformProbeError};
use git_relay::validator::{
    required_git_config, ValidationInfrastructureError, ValidationStatus, Validator,
};

fn duration(text: &str) -> HumanDuration {
    HumanDuration::from_str(text).expect("duration")
}

fn app_config() -> AppConfig {
    AppConfig {
        listen: ListenConfig {
            ssh: "127.0.0.1:4222".to_owned(),
            https: Some("127.0.0.1:4318".to_owned()),
            enable_http_read: false,
            enable_http_write: false,
        },
        paths: PathsConfig {
            state_root: "/srv/relay".to_owned(),
            repo_root: "/srv/relay/repos".to_owned(),
            repo_config_root: "/srv/relay/repos.d".to_owned(),
        },
        reconcile: ReconcileConfig {
            on_push: true,
            manual_enabled: true,
            periodic_enabled: false,
            worker_mode: WorkerMode::ShortLived,
            lock_timeout_ms: 5_000,
        },
        policy: PolicyConfig {
            default_repo_mode: RepositoryMode::CacheOnly,
            default_refresh: FreshnessPolicy::Ttl(duration("60s")),
            negative_cache_ttl: duration("5s"),
            default_push_ack: PushAckPolicy::LocalCommit,
        },
        retention: RetentionConfig::default(),
        migration: MigrationConfig {
            supported_targets: vec![MigrationTransport::GitHttps, MigrationTransport::GitSsh],
            refuse_dirty_worktree: true,
            targeted_relock_mode: TargetedRelockMode::ValidatedOnly,
        },
        deployment: DeploymentProfile {
            platform: SupportedPlatform::Macos,
            service_manager: ServiceManager::Launchd,
            service_label: "dev.git-relay".to_owned(),
            git_only_command_mode: GitOnlyCommandMode::OpensshForceCommand,
            forced_command_wrapper: "/usr/local/bin/git-relay-ssh-force-command".to_owned(),
            disable_forwarding: true,
            runtime_env_file: "/srv/relay/git-relay.env".to_owned(),
            required_secret_keys: vec![
                "GITHUB_READ_TOKEN".to_owned(),
                "GITHUB_WRITE_KEY".to_owned(),
            ],
            allowed_git_services: vec![GitService::GitUploadPack, GitService::GitReceivePack],
            supported_filesystems: vec!["apfs".to_owned()],
        },
        auth_profiles: vec![
            AuthProfileEntry {
                name: "github-read".to_owned(),
                profile: AuthProfile {
                    kind: AuthProfileKind::HttpsToken,
                    secret_ref: "env:GITHUB_READ_TOKEN".to_owned(),
                },
            },
            AuthProfileEntry {
                name: "github-write".to_owned(),
                profile: AuthProfile {
                    kind: AuthProfileKind::SshKey,
                    secret_ref: "env:GITHUB_WRITE_KEY".to_owned(),
                },
            },
        ],
    }
}

fn authoritative_descriptor(path: &str) -> RepositoryDescriptor {
    RepositoryDescriptor {
        repo_id: "github.com/example/repo.git".to_owned(),
        canonical_identity: "github.com/example/repo.git".to_owned(),
        repo_path: path.to_owned(),
        mode: RepositoryMode::Authoritative,
        lifecycle: RepositoryLifecycle::Ready,
        authority_model: AuthorityModel::RelayAuthoritative,
        tracking_refs: TrackingRefPlacement::SameRepoHidden,
        refresh: FreshnessPolicy::AuthoritativeLocal,
        push_ack: PushAckPolicy::LocalCommit,
        reconcile_policy: ReconcilePolicy::OnPushManual,
        exported_refs: vec!["refs/heads/*".to_owned(), "refs/tags/*".to_owned()],
        read_upstreams: vec![ReadUpstream {
            name: "github-read".to_owned(),
            url: "https://github.com/example/repo.git".to_owned(),
            auth_profile: Some("github-read".to_owned()),
        }],
        write_upstreams: vec![WriteUpstream {
            name: "github-write".to_owned(),
            url: "ssh://git@github.com/example/repo.git".to_owned(),
            auth_profile: Some("github-write".to_owned()),
            require_atomic: true,
        }],
    }
}

/// A host with the given platform and file system.
struct FakePlatformProbe {
    platform: SupportedPlatform,
    filesystem: String,
}

impl PlatformProbe for FakePlatformProbe {
    fn current_platform(&self) -> Result<SupportedPlatform, PlatformProbeError> {
        Ok(self.platform)
    }

    fn filesystem_type(&self, _path: &str) -> Result<String, PlatformProbeError> {
        Ok(self.filesystem.clone())
    }

    fn service_manager_supported(
        &self,
        platform: SupportedPlatform,
        service_manager: ServiceManager,
    ) -> bool {
        matches!(
            (platform, service_manager),
            (SupportedPlatform::Macos, ServiceManager::Launchd)
                | (SupportedPlatform::Linux, ServiceManager::Systemd)
        )
    }
}

fn macos() -> FakePlatformProbe {
    FakePlatformProbe {
        platform: SupportedPlatform::Macos,
        filesystem: "apfs".to_owned(),
    }
}

/// A bare repository with the required settings, but for those that are left out. An old object
/// that is listed is an ancestor of every new one.
struct FakeGit {
    unset: Vec<&'static str>,
    ancestors: Vec<&'static str>,
}

fn sound_git() -> FakeGit {
    FakeGit {
        unset: Vec::new(),
        ancestors: Vec::new(),
    }
}

fn refusal(args: &[&str], status: i32, stderr: &str) -> GitCommandError {
    GitCommandError::NonZeroExit {
        args: args.iter().map(|item| (*item).to_owned()).collect(),
        status: Some(status),
        stderr: stderr.to_owned(),
    }
}

impl GitExecutor for FakeGit {
    fn git(&self, _git_dir: &str, args: &[&str]) -> Result<String, GitCommandError> {
        match args {
            ["rev-parse", "--is-bare-repository"] => Ok("true".to_owned()),
            ["config", "--get", key] => {
                let found = required_git_config()
                    .into_iter()
                    .find(|(name, _)| name == key && !self.unset.contains(key));
                match found {
                    Some((_, value)) => Ok(value.to_owned()),
                    None => Err(refusal(args, 1, "")),
                }
            }
            ["merge-base", "--is-ancestor", old, _new] => {
                if self.ancestors.contains(old) {
                    Ok(String::new())
                } else if *old == "broken" {
                    Err(refusal(args, 128, "fatal: bad object"))
                } else {
                    Err(refusal(args, 1, ""))
                }
            }
            _ => Err(refusal(args, 2, "unexpected")),
        }
    }
}

const REPO: &str = "/srv/relay/repos/repo.git";

#[test]
fn authoritative_repo_passes_when_section_13_2_contract_is_present() {
    let git = sound_git();
    let platform = macos();
    let validator = Validator::new(&git, &platform);
    let report = validator
        .validate(&app_config(), &authoritative_descriptor(REPO), true)
        .expect("validation");

    assert_eq!(report.status, ValidationStatus::Passed);
    assert!(report.write_acceptance_allowed);
    assert!(report.issues.is_empty());
}

#[test]
fn authoritative_repo_fails_closed_when_hidden_ref_contract_is_missing() {
    let git = FakeGit {
        unset: vec!["uploadpack.allowAnySHA1InWant"],
        ancestors: Vec::new(),
    };
    let platform = macos();
    let validator = Validator::new(&git, &platform);
    let report = validator
        .validate(&app_config(), &authoritative_descriptor(REPO), true)
        .expect("validation");

    assert_eq!(report.status, ValidationStatus::Failed);
    assert!(!report.write_acceptance_allowed);
    assert!(report
        .issues
        .iter()
        .any(|issue| issue.code == "uploadpack.allowAnySHA1InWant"));
}

#[test]
fn authoritative_repo_fails_when_filesystem_is_outside_supported_profile() {
    let mut config = app_config();
    config.deployment.platform = SupportedPlatform::Linux;
    config.deployment.service_manager = ServiceManager::Systemd;
    config.deployment.supported_filesystems = vec!["ext2/ext3".to_owned()];
    let git = sound_git();
    let platform = FakePlatformProbe {
        platform: SupportedPlatform::Linux,
        filesystem: "nfs".to_owned(),
    };
    let validator = Validator::new(&git, &platform);
    let report = validator
        .validate(&config, &authoritative_descriptor(REPO), true)
        .expect("validation");

    assert_eq!(report.status, ValidationStatus::Failed);
    assert!(report.issues.iter().any(|issue| issue.code == "repo_path"));
}

struct FailingGitExecutor;

impl GitExecutor for FailingGitExecutor {
    fn git(&self, _git_dir: &str, args: &[&str]) -> Result<String, GitCommandError> {
        Err(refusal(args, 1, "boom"))
    }
}

#[test]
fn infrastructure_errors_surface_cleanly() {
    let git = FailingGitExecutor;
    let platform = macos();
    let validator = Validator::new(&git, &platform);
    let error = validator
        .validate(&app_config(), &authoritative_descriptor(REPO), true)
        .expect_err("infrastructure error");
    assert!(matches!(error, ValidationInfrastructureError::Git(_)));
    assert_eq!(
        error.message(),
        "git command failed: git failed for args [\"rev-parse\", \"--is-bare-repository\"] with status Some(1): boom"
    );
}

#[test]
fn a_repository_that_does_not_exist_fails() {
    let git = sound_git();
    let platform = macos();
    let validator = Validator::new(&git, &platform);
    let report = validator
        .validate(&app_config(), &authoritative_descriptor(REPO), false)
        .expect("validation");
    assert_eq!(report.status, ValidationStatus::Failed);
    assert!(report.issues.iter().any(|issue| issue.code == "repo_path"));
}

#[test]
fn an_unknown_auth_profile_is_an_issue() {
    let mut descriptor = authoritative_descriptor(REPO);
    descriptor.write_upstreams[0].auth_profile = Some("missing".to_owned());
    let git = sound_git();
    let platform = macos();
    let validator = Validator::new(&git, &platform);
    let report = validator
        .validate(&app_config(), &descriptor, true)
        .expect("validation");
    assert!(report
        .issues
        .iter()
        .any(|issue| issue.code == "write_upstreams" && issue.message.contains("missing")));
    assert!(!report.write_acceptance_allowed);
}

struct SilentHost;

impl PlatformProbe for SilentHost {
    fn current_platform(&self) -> Result<SupportedPlatform, PlatformProbeError> {
        Err(PlatformProbeError::UnsupportedPlatform("plan9".to_owned()))
    }

    fn filesystem_type(&self, path: &str) -> Result<String, PlatformProbeError> {
        Err(PlatformProbeError::CommandFailed {
            program: "stat".to_owned(),
            path: path.to_owned(),
            status: None,
            stderr: "gone".to_owned(),
        })
    }

    fn service_manager_supported(&self, _: SupportedPlatform, _: ServiceManager) -> bool {
        false
    }
}

#[test]
fn a_host_that_does_not_answer_is_an_infrastructure_error() {
    let git = sound_git();
    let platform = SilentHost;
    let validator = Validator::new(&git, &platform);
    let error = validator
        .validate(&app_config(), &authoritative_descriptor(REPO), true)
        .expect_err("no platform");
    assert_eq!(
        error.message(),
        "platform probe failed: unsupported platform plan9; only macOS and Linux are supported"
    );
    assert_eq!(
        platform.filesystem_type("/x").expect_err("no file system").message(),
        "stat failed for /x with status None: gone"
    );
}

/// A Git that can say whether a repository is bare and nothing else.
struct SilentGit {
    bare: &'static str,
}

impl GitExecutor for SilentGit {
    fn git(&self, _git_dir: &str, args: &[&str]) -> Result<String, GitCommandError> {
        match args {
            ["rev-parse", "--is-bare-repository"] => Ok(self.bare.to_owned()),
            _ => Err(GitCommandError::Spawn {
                args: args.iter().map(|item| (*item).to_owned()).collect(),
                error: "no git".to_owned(),
            }),
        }
    }
}

#[test]
fn settings_are_read_of_bare_authoritative_repositories_alone() {
    let platform = macos();
    let config = app_config();
    let validate = |bare: &'static str, descriptor: &RepositoryDescriptor| {
        let git = SilentGit { bare };
        Validator::new(&git, &platform).validate(&config, descriptor, true)
    };
    let authoritative = authoritative_descriptor("/srv/relay/repos/repo.git");
    assert!(matches!(
        validate("true", &authoritative),
        Err(ValidationInfrastructureError::Git(GitCommandError::Spawn { .. }))
    ));
    assert!(validate("false", &authoritative).is_ok());
    let mut cache = authoritative;
    cache.mode = RepositoryMode::CacheOnly;
    assert!(validate("true", &cache).is_ok());
}
