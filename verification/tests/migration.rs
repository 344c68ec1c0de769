//! Moving flake inputs to Git transports.

use git_relay::config::{
    AppConfig, DeploymentProfile, FreshnessPolicy, GitOnlyCommandMode, GitService, HumanDuration,
    ListenConfig, MigrationConfig, MigrationTransport, PathsConfig, PolicyConfig, PushAckPolicy,
    ReconcileConfig, RepositoryMode, RetentionConfig, ServiceManager, SupportedPlatform,
    TargetedRelockMode, WorkerMode,
};
use git_relay::flake::{
    parse_direct_input_assignments, quote_string, DirectInputAssignment, Span,
};
use git_relay::lock::{
    ensure_supported_direct_coverage, FlakeLock, FlakeLockNode, InputReference, LockedSource,
};
use git_relay::migration::{
    build_rewrite_plan, classify_assignment, combine_diffs, command_result, ensure_project_files,
    inspect_migration, inspect_report, load_flake_project, parse_policy_overrides,
    select_transport, validated_targeted_relock_nix_versions, CommandOutput, DirectInputState,
    MigrationError, MigrationPolicySelection, MigrationRepoClass, MigrationRequest,
};
use git_relay::shorthand::{
    matches_git_transport, matches_shorthand_prefix, parse_query, parse_shorthand_url,
    render_git_url, ShorthandKind,
};
use git_relay::table::TextMap;

fn duration(text: &str) -> HumanDuration {
    HumanDuration::from_str(text).expect("duration")
}

fn config() -> AppConfig {
    AppConfig {
        listen: ListenConfig {
            ssh: "127.0.0.1:4222".to_owned(),
            https: None,
            enable_http_read: false,
            enable_http_write: false,
        },
        paths: PathsConfig {
            state_root: "/tmp".to_owned(),
            repo_root: "/tmp/repos".to_owned(),
            repo_config_root: "/tmp/repos.d".to_owned(),
        },
        reconcile: ReconcileConfig {
            on_push: true,
            manual_enabled: true,
            periodic_enabled: false,
            worker_mode: WorkerMode::ShortLived,
            lock_timeout_ms: 5_000,
        },
        policy: PolicyConfig {
            default_repo_mode: RepositoryMode::CacheOnly,
            default_refresh: FreshnessPolicy::Ttl(duration("60s")),
            negative_cache_ttl: duration("5s"),
            default_push_ack: PushAckPolicy::LocalCommit,
        },
        retention: RetentionConfig::default(),
        migration: MigrationConfig {
            supported_targets: vec![MigrationTransport::GitHttps, MigrationTransport::GitSsh],
            refuse_dirty_worktree: true,
            targeted_relock_mode: TargetedRelockMode::ValidatedOnly,
        },
        deployment: DeploymentProfile {
            platform: SupportedPlatform::Macos,
            service_manager: ServiceManager::Launchd,
            service_label: "dev.git-relay".to_owned(),
            git_only_command_mode: GitOnlyCommandMode::OpensshForceCommand,
            forced_command_wrapper: "/usr/local/bin/git-relay-ssh-force-command".to_owned(),
            disable_forwarding: true,
            runtime_env_file: "/tmp/runtime.env".to_owned(),
            required_secret_keys: vec![],
            allowed_git_services: vec![GitService::GitUploadPack, GitService::GitReceivePack],
            supported_filesystems: vec!["apfs".to_owned()],
        },
        auth_profiles: vec![],
    }
}

#[test]
fn parses_github_ref_and_dir_shorthand() {
    let parsed = parse_shorthand_url(
        "nixpkgs",
        "github:NixOS/nixpkgs/nixos-unstable?dir=pkgs/top-level",
    )
    .expect("parse shorthand");
    assert_eq!(parsed.kind, ShorthandKind::Github);
    assert_eq!(
        render_git_url(&parsed, MigrationTransport::GitHttps),
        "git+https://github.com/NixOS/nixpkgs?dir=pkgs/top-level&ref=nixos-unstable"
    );
}

#[test]
fn parses_gitlab_subgroup_with_host_query() {
    let parsed = parse_shorthand_url(
        "example",
        "gitlab:group/subgroup/project?host=gitlab.example.com&dir=subdir",
    )
    .expect("parse shorthand");
    assert_eq!(parsed.kind, ShorthandKind::Gitlab);
    assert_eq!(
        render_git_url(&parsed, MigrationTransport::GitHttps),
        "git+https://gitlab.example.com/group/subgroup/project?dir=subdir"
    );
}

#[test]
fn parses_sourcehut_rev_shorthand() {
    let parsed = parse_shorthand_url("src", "sourcehut:~user/project?rev=abcdef").expect("parse");
    assert_eq!(
        render_git_url(&parsed, MigrationTransport::GitSsh),
        "git+ssh://git@git.sr.ht/~user/project?rev=abcdef"
    );
}

#[test]
fn rejects_ambiguous_github_ref_query() {
    let error = parse_shorthand_url("nixpkgs", "github:NixOS/nixpkgs/nixos-unstable?ref=main")
        .expect_err("ambiguous");
    assert!(error.message().contains("ambiguous"));
}

#[test]
fn parses_direct_input_assignments_and_rewrites_idempotently() {
    let flake = r#"
          {
            inputs.nixpkgs.url = "github:NixOS/nixpkgs/nixos-unstable";
            inputs.foo.url = "git+https://github.com/example/foo?ref=main";
          }
        "#;
    let assignments = parse_direct_input_assignments(flake).expect("assignments");
    let policy = parse_policy_overrides(
        &vec!["nixpkgs=git+https".to_owned()],
        &vec![],
        &vec![],
        &vec![],
    )
    .expect("policy");
    let request = MigrationRequest {
        flake_path: ".".to_owned(),
        allow_dirty: false,
        policy,
    };
    let plan = build_rewrite_plan(&config(), &request, flake, &assignments).expect("plan");
    assert_eq!(plan.planned_rewrites.len(), 1);
    assert_eq!(plan.direct_inputs[0].state, DirectInputState::PlannedRewrite);
    assert_eq!(
        plan.direct_inputs[1].state,
        DirectInputState::AlreadyGitTransport
    );
    assert!(plan
        .rewritten_source
        .contains("git+https://github.com/NixOS/nixpkgs?ref=nixos-unstable"));

    let second_assignments =
        parse_direct_input_assignments(&plan.rewritten_source).expect("assignments");
    let second_plan = build_rewrite_plan(
        &config(),
        &request,
        &plan.rewritten_source,
        &second_assignments,
    )
    .expect("second plan");
    assert!(second_plan.planned_rewrites.is_empty());
    assert_eq!(plan.rewritten_source, second_plan.rewritten_source);
}

#[test]
fn policy_selection_supports_host_input_and_class() {
    let policy = parse_policy_overrides(
        &vec!["special=git+ssh".to_owned()],
        &vec!["github.com=git+https".to_owned()],
        &vec!["private=git+ssh".to_owned()],
        &vec!["private-repo=private".to_owned()],
    )
    .expect("policy");
    assert_eq!(
        policy.input_targets.get("special"),
        Some(&MigrationTransport::GitSsh)
    );
    assert_eq!(
        policy.host_targets.get("github.com"),
        Some(&MigrationTransport::GitHttps)
    );
    assert_eq!(
        policy.class_targets.get(&MigrationRepoClass::Private),
        Some(&MigrationTransport::GitSsh)
    );
    assert_eq!(
        policy.input_classes.get("private-repo"),
        Some(&MigrationRepoClass::Private)
    );
    assert!(validated_targeted_relock_nix_versions()
        .iter()
        .any(|value| value.contains("2.26.3")));
}

#[test]
fn parses_github_basic_ssh_rewrite() {
    let parsed = parse_shorthand_url("nixpkgs", "github:NixOS/nixpkgs").expect("parse");
    assert_eq!(
        render_git_url(&parsed, MigrationTransport::GitSsh),
        "git+ssh://git@github.com/NixOS/nixpkgs"
    );
}

#[test]
fn parses_gitlab_nested_groups_https_rewrite() {
    let parsed = parse_shorthand_url("example", "gitlab:group/subgroup/deeper/project?ref=main")
        .expect("parse shorthand");
    assert_eq!(
        render_git_url(&parsed, MigrationTransport::GitHttps),
        "git+https://gitlab.com/group/subgroup/deeper/project?ref=main"
    );
}

#[test]
fn rejects_non_literal_direct_input_expression() {
    let error = parse_direct_input_assignments(
        r#"
            {
              inputs.nixpkgs.url = builtins.getEnv "NIXPKGS_URL";
            }
            "#,
    )
    .expect_err("non-literal input should fail");
    assert!(error.message().contains("double-quoted literal string"));
}

#[test]
fn rejects_dynamic_interpolated_direct_input_expression() {
    let error = parse_direct_input_assignments(
        r#"
            {
              inputs.nixpkgs.url = "github:NixOS/${"nixpkgs"}";
            }
            "#,
    )
    .expect_err("dynamic input should fail");
    assert!(error.message().contains("interpolated strings"));
}

fn github(owner: &str, repo: &str) -> LockedSource {
    LockedSource {
        text: format!("{{\"owner\":\"{owner}\",\"repo\":\"{repo}\",\"type\":\"github\"}}"),
        kind: Some("github".to_owned()),
        owner: Some(owner.to_owned()),
        repo: Some(repo.to_owned()),
    }
}

fn one_input_lock() -> FlakeLock {
    FlakeLock {
        nodes: TextMap::new()
            .with(
                "root".to_owned(),
                FlakeLockNode {
                    inputs: TextMap::new().with(
                        "nixpkgs".to_owned(),
                        InputReference::Node("nixpkgs".to_owned()),
                    ),
                    locked: None,
                    original: None,
                    parent: None,
                },
            )
            .with(
                "nixpkgs".to_owned(),
                FlakeLockNode {
                    inputs: TextMap::new(),
                    locked: Some(github("NixOS", "nixpkgs")),
                    original: Some(github("NixOS", "nixpkgs")),
                    parent: None,
                },
            ),
        root: "root".to_owned(),
        version: 7,
    }
}

#[test]
fn rejects_lock_visible_direct_shorthand_outside_supported_grammar() {
    let lock = one_input_lock();
    let assignments = vec![DirectInputAssignment {
        input_name: "other".to_owned(),
        value: "github:example/other".to_owned(),
        value_span: Span { start: 0, end: 0 },
    }];

    let error = ensure_supported_direct_coverage("flake.lock", &lock, &assignments)
        .expect_err("unsupported grammar should fail");
    assert!(error.message().contains("supported literal grammar"));
}

fn policy(input_targets: Vec<String>) -> MigrationPolicySelection {
    parse_policy_overrides(&input_targets, &vec![], &vec![], &vec![]).expect("policy")
}

fn request(input_targets: Vec<String>) -> MigrationRequest {
    MigrationRequest {
        flake_path: ".".to_owned(),
        allow_dirty: false,
        policy: policy(input_targets),
    }
}

#[test]
fn the_spans_of_assigned_values_hold_their_literals() {
    let source = "{ inputs.a.url = \"github:o/a\"; # é inputs.x.url = \"y\"\n inputs.b.url = \"c\\\"d\"; }";
    let assignments = parse_direct_input_assignments(source).expect("assignments");
    assert_eq!(assignments.len(), 2);
    let text = |span: &Span| source[span.start..span.end].to_owned();
    assert_eq!(assignments[0].input_name, "a");
    assert_eq!(text(&assignments[0].value_span), "\"github:o/a\"");
    assert_eq!(assignments[1].value, "c\"d");
    assert_eq!(text(&assignments[1].value_span), "\"c\\\"d\"");
    assert_eq!(quote_string(&assignments[1].value), "\"c\\\"d\"");
}

#[test]
fn scanning_accepts_any_character() {
    let source = "{ description = \"\u{e9}\"; inputs.a.url = \"github:o/a\"; /* \u{2603} */ }";
    let assignments = parse_direct_input_assignments(source).expect("assignments");
    assert_eq!(assignments.len(), 1);
    assert_eq!(assignments[0].value, "github:o/a");
}

#[test]
fn unfinished_texts_are_refused() {
    for source in [
        "{ inputs.a.url = \"github:o/a",
        "{ /* never closed",
        "{ inputs.a.url = \"github:o/a\" }",
    ] {
        assert!(
            matches!(
                parse_direct_input_assignments(source),
                Err(MigrationError::UnsupportedExpression { .. })
            ),
            "{source}"
        );
    }
}

#[test]
fn shorthand_is_told_by_its_prefix() {
    assert!(matches_shorthand_prefix("github:o/r"));
    assert!(matches_shorthand_prefix("gitlab:o/r"));
    assert!(matches_shorthand_prefix("sourcehut:~o/r"));
    assert!(!matches_shorthand_prefix("git+https://github.com/o/r"));
    assert!(matches_git_transport("git+https://github.com/o/r"));
    assert!(matches_git_transport("git+ssh://git@github.com/o/r"));
    assert!(!matches_git_transport("github:o/r"));
    assert_eq!(ShorthandKind::Sourcehut.label(), "sourcehut");
}

#[test]
fn queries_are_read_member_by_member() {
    let query = parse_query("dir=a&ref=b&host=c").expect("query");
    assert_eq!(query.dir.as_deref(), Some("a"));
    assert_eq!(query.ref_name.as_deref(), Some("b"));
    assert_eq!(query.host.as_deref(), Some("c"));
    assert_eq!(query.rev, None);
    assert!(parse_query("narHash=x").is_err());
    assert!(parse_query("dir").is_err());
}

#[test]
fn shorthand_without_owner_or_repository_is_refused() {
    for value in ["github:owner", "gitlab:", "sourcehut:user/project", "indirect:x"] {
        assert!(
            matches!(
                parse_shorthand_url("a", value),
                Err(MigrationError::UnsupportedShorthand { .. })
            ),
            "{value}"
        );
    }
}

#[test]
fn the_input_decides_before_the_class_and_the_host() {
    let policy = parse_policy_overrides(
        &vec!["special=git+ssh".to_owned()],
        &vec!["github.com=git+https".to_owned()],
        &vec!["private=git+ssh".to_owned()],
        &vec![],
    )
    .expect("policy");
    assert_eq!(
        select_transport(&config(), &policy, "special", "github.com", None),
        Some(MigrationTransport::GitSsh)
    );
    assert_eq!(
        select_transport(&config(), &policy, "other", "github.com", None),
        Some(MigrationTransport::GitHttps)
    );
    assert_eq!(
        select_transport(
            &config(),
            &policy,
            "other",
            "gitlab.com",
            Some(MigrationRepoClass::Private)
        ),
        Some(MigrationTransport::GitSsh)
    );
    assert_eq!(
        select_transport(&config(), &policy, "other", "gitlab.com", None),
        None
    );
}

#[test]
fn inputs_without_a_policy_are_blocked() {
    let source = "{ inputs.a.url = \"github:o/a\"; }";
    let assignments = parse_direct_input_assignments(source).expect("assignments");
    let report = classify_assignment(&config(), &policy(vec![]), &assignments[0]).expect("report");
    assert_eq!(report.state, DirectInputState::BlockedNoPolicy);
    let plan = build_rewrite_plan(&config(), &request(vec![]), source, &assignments).expect("plan");
    assert!(plan.planned_rewrites.is_empty());
    assert_eq!(plan.rewritten_source, source);
}

#[test]
fn policy_options_that_are_wrong_are_named() {
    let error = parse_policy_overrides(&vec!["nixpkgs".to_owned()], &vec![], &vec![], &vec![])
        .expect_err("no value");
    assert!(matches!(error, MigrationError::InvalidPolicyOption { .. }));
    assert!(error
        .message()
        .starts_with("failed to parse migration policy option "));
    assert!(parse_policy_overrides(
        &vec![],
        &vec!["github.com=svn".to_owned()],
        &vec![],
        &vec![]
    )
    .is_err());
    assert!(parse_policy_overrides(&vec![], &vec![], &vec!["secret=git+ssh".to_owned()], &vec![])
        .is_err());
}

#[test]
fn a_project_is_found_by_its_directory_or_its_flake() {
    let by_directory = load_flake_project("/work/p", true, Some("p"), Some("/work")).expect("dir");
    assert_eq!(by_directory.flake_file, "/work/p/flake.nix");
    assert_eq!(by_directory.lock_file, "/work/p/flake.lock");
    let by_file = load_flake_project("/work/p/flake.nix", false, Some("flake.nix"), Some("/work/p"))
        .expect("file");
    assert_eq!(by_file.flake_file, "/work/p/flake.nix");
    assert!(matches!(
        load_flake_project("/work/p/other.nix", false, Some("other.nix"), Some("/work/p")),
        Err(MigrationError::MissingFlake(_))
    ));
    assert!(matches!(
        ensure_project_files(&by_file, false, true),
        Err(MigrationError::MissingFlake(_))
    ));
    assert!(matches!(
        ensure_project_files(&by_file, true, false),
        Err(MigrationError::MissingLock(_))
    ));
    assert!(ensure_project_files(&by_file, true, true).is_ok());
}

#[test]
fn commands_fail_by_their_status() {
    let output = |success: bool, status: i32| CommandOutput {
        success,
        status: Some(status),
        stdout: "out".to_owned(),
        stderr: "err".to_owned(),
    };
    let args = vec!["flake".to_owned(), "lock".to_owned()];
    assert_eq!(
        command_result("nix", &args, output(true, 0), false).expect("success"),
        "out"
    );
    assert_eq!(
        command_result("git", &args, output(false, 1), true).expect("a difference"),
        "out"
    );
    let error = command_result("nix", &args, output(false, 1), false).expect_err("failure");
    assert_eq!(
        error.message(),
        "nix failed for args [\"flake\", \"lock\"] with status Some(1): err"
    );
}

#[test]
fn an_inspection_reports_what_a_migration_would_do() {
    let source = "{ inputs.nixpkgs.url = \"github:NixOS/nixpkgs\"; }";
    let request = request(vec!["nixpkgs=git+https".to_owned()]);
    let inspection = inspect_migration(&config(), &request, "/p/flake.lock", source, &one_input_lock())
        .expect("inspection");
    let project = load_flake_project("/p", true, Some("p"), Some("/")).expect("project");
    let report = inspect_report(&project, inspection, combine_diffs("a".to_owned(), "".to_owned()));
    assert_eq!(report.flake_file, "/p/flake.nix");
    assert_eq!(report.planned_rewrites.len(), 1);
    assert_eq!(
        report.planned_rewrites[0].after_url,
        "git+https://github.com/NixOS/nixpkgs"
    );
    assert!(report.unresolved_transitive_shorthand.is_empty());
    assert_eq!(report.preview_diff, "a");
}

#[test]
fn the_default_policy_selects_no_transport() {
    let selection = MigrationPolicySelection::default();
    assert!(selection.input_targets.get("a").is_none());
    assert!(selection.host_targets.get("github.com").is_none());
    assert!(selection
        .class_targets
        .get(&MigrationRepoClass::Public)
        .is_none());
    assert!(selection.input_classes.get("a").is_none());
}

#[test]
fn a_migrated_flake_is_at_rest() {
    let source = "{ inputs.a.url = \"github:o/a?dir=$x\"; inputs.b.url = \"gitlab:g/s/{b}\"; }";
    let request = request(vec!["a=git+https".to_owned(), "b=git+ssh".to_owned()]);
    let assignments = parse_direct_input_assignments(source).expect("assignments");
    let plan = build_rewrite_plan(&config(), &request, source, &assignments).expect("plan");
    assert_eq!(plan.planned_rewrites.len(), 2);
    assert_eq!(
        plan.rewritten_source,
        "{ inputs.a.url = \"git+https://github.com/o/a?dir=$x\"; inputs.b.url = \"git+ssh://git@gitlab.com/g/s/{b}\"; }"
    );
    let again = parse_direct_input_assignments(&plan.rewritten_source).expect("assignments");
    let second =
        build_rewrite_plan(&config(), &request, &plan.rewritten_source, &again).expect("plan");
    assert!(second.planned_rewrites.is_empty());
    assert_eq!(second.rewritten_source, plan.rewritten_source);
}

#[test]
fn spans_count_bytes() {
    let source = "# \u{e9}\u{4e16}\u{1f30d}\n{ inputs.a.url = \"github:o/a\"; }";
    let assignments = parse_direct_input_assignments(source).expect("assignments");
    assert_eq!(assignments[0].value_span, Span { start: 29, end: 41 });
    assert_eq!(&source[29..41], "\"github:o/a\"");
    let request = request(vec!["a=git+https".to_owned()]);
    let plan = build_rewrite_plan(&config(), &request, source, &assignments).expect("plan");
    assert_eq!(
        plan.rewritten_source,
        "# \u{e9}\u{4e16}\u{1f30d}\n{ inputs.a.url = \"git+https://github.com/o/a\"; }"
    );
}

#[test]
fn assignments_are_rewritten_in_any_order() {
    let source = "{ inputs.a.url = \"github:o/a\"; inputs.b.url = \"github:o/b\"; }";
    let request = request(vec!["a=git+https".to_owned(), "b=git+ssh".to_owned()]);
    let mut assignments = parse_direct_input_assignments(source).expect("assignments");
    assignments.reverse();
    let plan = build_rewrite_plan(&config(), &request, source, &assignments).expect("plan");
    assert_eq!(plan.direct_inputs[0].input_name, "b");
    assert_eq!(
        plan.rewritten_source,
        "{ inputs.a.url = \"git+https://github.com/o/a\"; inputs.b.url = \"git+ssh://git@github.com/o/b\"; }"
    );
}
