//! Whether a repository meets the contract under which the relay serves it.

use crate::config::{
    AppConfig, AuthProfileEntry, AuthorityModel, FreshnessPolicy, GitOnlyCommandMode, GitService,
    PushAckPolicy, ReadUpstream, ReconcilePolicy, RepositoryDescriptor, RepositoryLifecycle,
    RepositoryMode, SupportedPlatform, TrackingRefPlacement, WriteUpstream,
};
use crate::git::{ask2, ask3, may_answer, GitCommandError, GitExecutor};
use crate::path::{self, absolute, under};
use crate::platform::{ask_filesystem, may_report_filesystem, PlatformProbe, PlatformProbeError};
use crate::text::{
    begins, concat2, concat3, concat4, is_blank, list_holds, same, starts_with, texts, trimmed,
};
use vstd::prelude::*;

verus! {

#[derive(Debug, Clone, Copy)]
pub struct Validator<'a, G, P> {
    pub git: &'a G,
    pub platform: &'a P,
}

#[derive(Debug, Clone, Copy, PartialEq, Eq, Structural)]
pub enum ValidationStatus {
    Passed,
    Failed,
}

#[derive(Debug, Clone, PartialEq, Eq)]
pub struct ValidationIssue {
    pub code: String,
    pub message: String,
}

#[derive(Debug, Clone, PartialEq, Eq)]
pub struct ValidationReport {
    pub repo_id: String,
    pub status: ValidationStatus,
    pub write_acceptance_allowed: bool,
    pub issues: Vec<ValidationIssue>,
}

/// Why a repository could not be examined.
#[derive(Debug, Clone)]
pub enum ValidationInfrastructureError {
    Platform(PlatformProbeError),
    Git(GitCommandError),
    MissingGitConfig { repo_path: String, key: String },
    ReadRepository { path: String, error: String },
}

impl ValidationInfrastructureError {
    pub open spec fn message_text(self) -> Seq<char> {
        match self {
            ValidationInfrastructureError::Platform(error) => "platform probe failed: "@ + error.message_text(),
            ValidationInfrastructureError::Git(error) => "git command failed: "@ + error.message_text(),
            ValidationInfrastructureError::MissingGitConfig { repo_path, key } => "required git config "@ + key@ + " is missing for repository "@ + repo_path@,
            ValidationInfrastructureError::ReadRepository { path, error } => "failed to read repository state at "@ + path@ + ": "@ + error@,
        }
    }

    /// The error in words.
    pub fn message(&self) -> (r: String)
        ensures
            r@ == self.message_text(),
    {
        match self {
            ValidationInfrastructureError::Platform(error) => concat2("platform probe failed: ", &error.message()),
            ValidationInfrastructureError::Git(error) => concat2("git command failed: ", &error.message()),
            ValidationInfrastructureError::MissingGitConfig { repo_path, key } => concat4("required git config ", key, " is missing for repository ", repo_path),
            ValidationInfrastructureError::ReadRepository { path, error } => concat4("failed to read repository state at ", path, ": ", error),
        }
    }
}

impl ValidationReport {
    pub fn passed(&self) -> (r: bool)
        ensures
            r == (self.status == ValidationStatus::Passed),
    {
        self.status == ValidationStatus::Passed
    }
}

impl ValidationIssue {
    pub fn new(code: &str, message: &str) -> (r: Self)
        ensures
            r.code@ == code@,
            r.message@ == message@,
    {
        ValidationIssue { code: code.to_owned(), message: message.to_owned() }
    }
}

/// What a list of issues says: the code and the message of each.
pub open spec fn issue_texts(issues: Seq<ValidationIssue>) -> Seq<(Seq<char>, Seq<char>)> {
    Seq::new(issues.len(), |i: int| (issues[i].code@, issues[i].message@))
}

/// One issue where `found` holds, none otherwise.
pub open spec fn issue_if(found: bool, code: Seq<char>, message: Seq<char>) -> Seq<
    (Seq<char>, Seq<char>),
> {
    if found {
        seq![(code, message)]
    } else {
        Seq::empty()
    }
}

/// Adds an issue to the list where `found` holds.
fn report(issues: &mut Vec<ValidationIssue>, found: bool, code: &str, message: &str)
    ensures
        issue_texts(final(issues)@) == issue_texts(old(issues)@) + issue_if(found, code@, message@),
{
    if found {
        issues.push(ValidationIssue::new(code, message));
    }
    assert(issue_texts(issues@) =~= issue_texts(old(issues)@) + issue_if(found, code@, message@));
}

// ---------------------------------------------------------------------------
// What the descriptor says

/// Whether a pattern stays within branches and tags.
pub open spec fn exportable(pattern: Seq<char>) -> bool {
    begins(pattern, "refs/heads/"@) || begins(pattern, "refs/tags/"@)
}

/// Whether every pattern of a list stays within branches and tags.
pub open spec fn all_exportable(patterns: Seq<String>) -> bool {
    forall|i: int| 0 <= i < patterns.len() ==> exportable(#[trigger] patterns[i]@)
}

fn check_exportable(patterns: &Vec<String>) -> (r: bool)
    ensures
        r == all_exportable(patterns@),
{
    let mut i: usize = 0;
    while i < patterns.len()
        invariant
            i <= patterns@.len(),
            forall|j: int| 0 <= j < i ==> exportable(#[trigger] patterns@[j]@),
        decreases patterns@.len() - i,
    {
        if !(starts_with(&patterns[i], "refs/heads/") || starts_with(&patterns[i], "refs/tags/")) {
            assert(!exportable(patterns@[i as int]@));
            return false;
        }
        i += 1;
    }
    true
}

/// Whether an upstream names no profile or one that is configured.
pub open spec fn profile_known(profiles: Seq<AuthProfileEntry>, profile: Option<String>) -> bool {
    match profile {
        None => true,
        Some(name) => exists|i: int|
            0 <= i < profiles.len() && (#[trigger] profiles[i]).name@ == name@,
    }
}

/// The text of the profile that an upstream names.
pub open spec fn profile_text(profile: Option<String>) -> Seq<char> {
    match profile {
        None => Seq::empty(),
        Some(name) => name@,
    }
}

fn check_profile(profiles: &Vec<AuthProfileEntry>, profile: &Option<String>) -> (r: bool)
    ensures
        r == profile_known(profiles@, *profile),
{
    match profile {
        None => true,
        Some(name) => {
            let mut i: usize = 0;
            while i < profiles.len()
                invariant
                    i <= profiles@.len(),
                    *profile == Some(*name),
                    forall|j: int| 0 <= j < i ==> (#[trigger] profiles@[j]).name@ != name@,
                decreases profiles@.len() - i,
            {
                if same(&profiles[i].name, name) {
                    assert(profiles@[i as int].name@ == name@);
                    return true;
                }
                i += 1;
            }
            false
        },
    }
}

/// The issues of read upstreams that name a profile which is not configured.
pub open spec fn read_binding_issues(
    profiles: Seq<AuthProfileEntry>,
    upstreams: Seq<ReadUpstream>,
) -> Seq<(Seq<char>, Seq<char>)>
    decreases upstreams.len(),
{
    if upstreams.len() == 0 {
        Seq::empty()
    } else {
        let last = upstreams.last();
        read_binding_issues(profiles, upstreams.drop_last()) + issue_if(
            !profile_known(profiles, last.auth_profile),
            "read_upstreams"@,
            "read upstream "@ + last.name@ + " references unknown auth profile "@ + profile_text(
                last.auth_profile,
            ),
        )
    }
}

/// The issues of write upstreams that name a profile which is not configured.
pub open spec fn write_binding_issues(
    profiles: Seq<AuthProfileEntry>,
    upstreams: Seq<WriteUpstream>,
) -> Seq<(Seq<char>, Seq<char>)>
    decreases upstreams.len(),
{
    if upstreams.len() == 0 {
        Seq::empty()
    } else {
        let last = upstreams.last();
        write_binding_issues(profiles, upstreams.drop_last()) + issue_if(
            !profile_known(profiles, last.auth_profile),
            "write_upstreams"@,
            "write upstream "@ + last.name@ + " references unknown auth profile "@ + profile_text(
                last.auth_profile,
            ),
        )
    }
}

fn profile_name(profile: &Option<String>) -> (r: String)
    ensures
        r@ == profile_text(*profile),
{
    match profile {
        None => String::new(),
        Some(name) => name.clone(),
    }
}

fn validate_auth_profile_bindings(
    config: &AppConfig,
    descriptor: &RepositoryDescriptor,
    issues: &mut Vec<ValidationIssue>,
)
    ensures
        issue_texts(final(issues)@) == issue_texts(old(issues)@) + read_binding_issues(
            config.auth_profiles@,
            descriptor.read_upstreams@,
        ) + write_binding_issues(config.auth_profiles@, descriptor.write_upstreams@),
{
    let ghost start = issue_texts(issues@);
    let ghost profiles = config.auth_profiles@;
    let reads = &descriptor.read_upstreams;
    let mut i: usize = 0;
    assert(start + read_binding_issues(profiles, reads@.take(0)) =~= start);
    while i < reads.len()
        invariant
            i <= reads@.len(),
            profiles == config.auth_profiles@,
            issue_texts(issues@) == start + read_binding_issues(profiles, reads@.take(i as int)),
        decreases reads@.len() - i,
    {
        let upstream = &reads[i];
        let name = profile_name(&upstream.auth_profile);
        let message = concat4(
            "read upstream ",
            &upstream.name,
            " references unknown auth profile ",
            &name,
        );
        let known = check_profile(&config.auth_profiles, &upstream.auth_profile);
        report(issues, !known, "read_upstreams", &message);
        proof {
            let part = reads@.take(i + 1);
            assert(part.drop_last() =~= reads@.take(i as int));
            assert(issue_texts(issues@) =~= start + read_binding_issues(profiles, part));
        }
        i += 1;
    }
    assert(reads@.take(i as int) =~= reads@);
    let writes = &descriptor.write_upstreams;
    let ghost middle = issue_texts(issues@);
    let mut k: usize = 0;
    assert(middle + write_binding_issues(profiles, writes@.take(0)) =~= middle);
    while k < writes.len()
        invariant
            k <= writes@.len(),
            profiles == config.auth_profiles@,
            issue_texts(issues@) == middle + write_binding_issues(profiles, writes@.take(k as int)),
        decreases writes@.len() - k,
    {
        let upstream = &writes[k];
        let name = profile_name(&upstream.auth_profile);
        let message = concat4(
            "write upstream ",
            &upstream.name,
            " references unknown auth profile ",
            &name,
        );
        let known = check_profile(&config.auth_profiles, &upstream.auth_profile);
        report(issues, !known, "write_upstreams", &message);
        proof {
            let part = writes@.take(k + 1);
            assert(part.drop_last() =~= writes@.take(k as int));
            assert(issue_texts(issues@) =~= middle + write_binding_issues(profiles, part));
        }
        k += 1;
    }
    assert(writes@.take(k as int) =~= writes@);
}

/// The issues that the configuration and the descriptor show by themselves.
pub open spec fn shape_issues(config: AppConfig, d: RepositoryDescriptor) -> Seq<
    (Seq<char>, Seq<char>),
> {
    let authoritative = d.mode == RepositoryMode::Authoritative;
    issue_if(trimmed(d.repo_id@).len() == 0, "repo_id"@, "repository id must not be empty"@)
        + issue_if(
        trimmed(d.canonical_identity@).len() == 0,
        "canonical_identity"@,
        "canonical identity must not be empty"@,
    ) + issue_if(!absolute(d.repo_path@), "repo_path"@, "repository path must be absolute"@)
        + issue_if(
        !under(d.repo_path@, config.paths.repo_root@),
        "repo_path"@,
        "repository path must remain under paths.repo_root"@,
    ) + issue_if(
        authoritative && d.authority_model != AuthorityModel::RelayAuthoritative,
        "authority_model"@,
        "authoritative repositories must use relay-authoritative authority"@,
    ) + issue_if(
        !authoritative && d.authority_model != AuthorityModel::UpstreamSource,
        "authority_model"@,
        "cache-only repositories must use upstream-source authority"@,
    ) + issue_if(
        d.push_ack != PushAckPolicy::LocalCommit,
        "push_ack"@,
        "only local-commit acknowledgement is supported"@,
    ) + issue_if(
        d.reconcile_policy != ReconcilePolicy::OnPushManual,
        "reconcile_policy"@,
        "only on-push+manual reconciliation is supported"@,
    ) + issue_if(
        authoritative && d.refresh != FreshnessPolicy::AuthoritativeLocal,
        "refresh"@,
        "authoritative repositories must use authoritative-local freshness"@,
    ) + issue_if(
        !authoritative && d.refresh == FreshnessPolicy::AuthoritativeLocal,
        "refresh"@,
        "cache-only repositories cannot use authoritative-local freshness"@,
    ) + issue_if(
        !authoritative && d.read_upstreams@.len() == 0,
        "read_upstreams"@,
        "cache-only repositories require at least one read upstream"@,
    ) + issue_if(
        !authoritative && d.write_upstreams@.len() > 0,
        "write_upstreams"@,
        "cache-only repositories must not define write upstreams"@,
    ) + issue_if(
        !config.reconcile.on_push || !config.reconcile.manual_enabled
            || config.reconcile.periodic_enabled,
        "reconcile"@,
        "deployment reconcile profile must be on_push + manual only"@,
    ) + issue_if(
        d.exported_refs@.len() == 0,
        "exported_refs"@,
        "exported_refs must not be empty"@,
    ) + issue_if(
        !all_exportable(d.exported_refs@),
        "exported_refs"@,
        "exported refs may only include refs/heads/* and refs/tags/* patterns in the initial implementation"@,
    ) + read_binding_issues(config.auth_profiles@, d.read_upstreams@) + write_binding_issues(
        config.auth_profiles@,
        d.write_upstreams@,
    )
}

/// Adds the issues that the configuration and the descriptor show by themselves.
fn validate_descriptor_shape(
    config: &AppConfig,
    descriptor: &RepositoryDescriptor,
    issues: &mut Vec<ValidationIssue>,
)
    ensures
        issue_texts(final(issues)@) == issue_texts(old(issues)@) + shape_issues(
            *config,
            *descriptor,
        ),
{
    let d = descriptor;
    let mut own: Vec<ValidationIssue> = Vec::new();
    let authoritative = d.mode == RepositoryMode::Authoritative;
    report(&mut own, is_blank(&d.repo_id), "repo_id", "repository id must not be empty");
    assert(issue_texts(own@) =~= issue_if(
        trimmed(d.repo_id@).len() == 0,
        "repo_id"@,
        "repository id must not be empty"@,
    ));
    report(
        &mut own,
        is_blank(&d.canonical_identity),
        "canonical_identity",
        "canonical identity must not be empty",
    );
    report(
        &mut own,
        !path::is_absolute(&d.repo_path),
        "repo_path",
        "repository path must be absolute",
    );
    report(
        &mut own,
        !path::starts_with(&d.repo_path, &config.paths.repo_root),
        "repo_path",
        "repository path must remain under paths.repo_root",
    );
    report(
        &mut own,
        authoritative && d.authority_model != AuthorityModel::RelayAuthoritative,
        "authority_model",
        "authoritative repositories must use relay-authoritative authority",
    );
    report(
        &mut own,
        !authoritative && d.authority_model != AuthorityModel::UpstreamSource,
        "authority_model",
        "cache-only repositories must use upstream-source authority",
    );
    report(
        &mut own,
        d.push_ack != PushAckPolicy::LocalCommit,
        "push_ack",
        "only local-commit acknowledgement is supported",
    );
    report(
        &mut own,
        d.reconcile_policy != ReconcilePolicy::OnPushManual,
        "reconcile_policy",
        "only on-push+manual reconciliation is supported",
    );
    report(
        &mut own,
        authoritative && d.refresh != FreshnessPolicy::AuthoritativeLocal,
        "refresh",
        "authoritative repositories must use authoritative-local freshness",
    );
    report(
        &mut own,
        !authoritative && d.refresh == FreshnessPolicy::AuthoritativeLocal,
        "refresh",
        "cache-only repositories cannot use authoritative-local freshness",
    );
    report(
        &mut own,
        !authoritative && d.read_upstreams.len() == 0,
        "read_upstreams",
        "cache-only repositories require at least one read upstream",
    );
    report(
        &mut own,
        !authoritative && d.write_upstreams.len() > 0,
        "write_upstreams",
        "cache-only repositories must not define write upstreams",
    );
    report(
        &mut own,
        !config.reconcile.on_push || !config.reconcile.manual_enabled
            || config.reconcile.periodic_enabled,
        "reconcile",
        "deployment reconcile profile must be on_push + manual only",
    );
    report(
        &mut own,
        d.exported_refs.len() == 0,
        "exported_refs",
        "exported_refs must not be empty",
    );
    report(
        &mut own,
        !check_exportable(&d.exported_refs),
        "exported_refs",
        "exported refs may only include refs/heads/* and refs/tags/* patterns in the initial implementation",
    );
    validate_auth_profile_bindings(config, descriptor, &mut own);
    let ghost found = own@;
    issues.append(&mut own);
    assert(issue_texts(issues@) =~= issue_texts(old(issues)@) + issue_texts(found));
}

// ---------------------------------------------------------------------------
// What the host and the repository show

/// What was found out about the host and a repository on it.
#[derive(Debug, Clone)]
pub struct RepositoryFacts {
    pub platform: SupportedPlatform,
    pub service_manager_supported: bool,
    pub state_root_filesystem: String,
    /// `None` where nothing exists at the repository's path.
    pub repository: Option<RepositoryState>,
}

/// What was found out about a repository that exists.
#[derive(Debug, Clone)]
pub struct RepositoryState {
    pub filesystem: String,
    /// What `git rev-parse --is-bare-repository` printed.
    pub bare_answer: String,
    /// What `git config --get` printed for each required key, `None` where it is not set.
    pub config_answers: Vec<Option<String>>,
}

/// The Git settings that an authoritative repository must have: each key with its value.
pub open spec fn required_config() -> Seq<(Seq<char>, Seq<char>)> {
    seq![
        ("receive.fsckObjects"@, "true"@),
        ("transfer.hideRefs"@, "refs/git-relay"@),
        ("uploadpack.hideRefs"@, "refs/git-relay"@),
        ("receive.hideRefs"@, "refs/git-relay"@),
        ("uploadpack.allowReachableSHA1InWant"@, "false"@),
        ("uploadpack.allowAnySHA1InWant"@, "false"@),
        ("uploadpack.allowTipSHA1InWant"@, "false"@),
        ("core.fsync"@, "all"@),
        ("core.fsyncMethod"@, "fsync"@),
    ]
}

/// The Git settings that an authoritative repository must have.
pub fn required_git_config() -> (r: Vec<(&'static str, &'static str)>)
    ensures
        r@.len() == required_config().len(),
        forall|i: int|
            0 <= i < r@.len() ==> (#[trigger] r@[i]).0@ == required_config()[i].0 && r@[i].1@
                == required_config()[i].1,
{
    vec![
        ("receive.fsckObjects", "true"),
        ("transfer.hideRefs", "refs/git-relay"),
        ("uploadpack.hideRefs", "refs/git-relay"),
        ("receive.hideRefs", "refs/git-relay"),
        ("uploadpack.allowReachableSHA1InWant", "false"),
        ("uploadpack.allowAnySHA1InWant", "false"),
        ("uploadpack.allowTipSHA1InWant", "false"),
        ("core.fsync", "all"),
        ("core.fsyncMethod", "fsync"),
    ]
}

/// The Git command that prints one setting.
pub open spec fn config_query(key: Seq<char>) -> Seq<Seq<char>> {
    seq!["config"@, "--get"@, key]
}

/// The Git command that prints whether a repository is bare.
pub open spec fn bare_query() -> Seq<Seq<char>> {
    seq!["rev-parse"@, "--is-bare-repository"@]
}

/// Whether a list of services holds `git-upload-pack` and `git-receive-pack`; it can hold no
/// others.
pub open spec fn both_services(services: Seq<GitService>) -> bool {
    services.contains(GitService::GitUploadPack) && services.contains(GitService::GitReceivePack)
}

fn check_services(services: &Vec<GitService>) -> (r: bool)
    ensures
        r == both_services(services@),
{
    let mut upload = false;
    let mut receive = false;
    let mut i: usize = 0;
    while i < services.len()
        invariant
            i <= services@.len(),
            upload == services@.take(i as int).contains(GitService::GitUploadPack),
            receive == services@.take(i as int).contains(GitService::GitReceivePack),
        decreases services@.len() - i,
    {
        let ghost done = services@.take(i as int);
        let ghost next = services@.take(i + 1);
        assert(next =~= done.push(services@[i as int]));
        assert(next[i as int] == services@[i as int]);
        assert forall|x: GitService| next.contains(x) == (done.contains(x) || services@[i as int]
            == x) by {
            if done.contains(x) {
                let k = choose|k: int| 0 <= k < done.len() && done[k] == x;
                assert(next[k] == x);
            }
        }
        match services[i] {
            GitService::GitUploadPack => {
                upload = true;
            },
            GitService::GitReceivePack => {
                receive = true;
            },
        }
        i += 1;
    }
    assert(services@.take(i as int) =~= services@);
    upload && receive
}

/// The issues of the deployment on the host that was found.
pub open spec fn deployment_issues(config: AppConfig, facts: RepositoryFacts) -> Seq<
    (Seq<char>, Seq<char>),
> {
    let profile = config.deployment;
    let supported = texts(profile.supported_filesystems@);
    issue_if(
        facts.platform != profile.platform,
        "deployment.platform"@,
        "configured deployment platform does not match the running host"@,
    ) + issue_if(
        !facts.service_manager_supported,
        "deployment.service_manager"@,
        "supported deployment pairs are macOS+launchd and Linux+systemd only"@,
    ) + issue_if(
        profile.git_only_command_mode != GitOnlyCommandMode::OpensshForceCommand,
        "deployment.git_only_command_mode"@,
        "OpenSSH ForceCommand is the only supported SSH command restriction mode"@,
    ) + issue_if(
        !profile.disable_forwarding,
        "deployment.disable_forwarding"@,
        "SSH forwarding must be disabled for Git ingress"@,
    ) + issue_if(
        !absolute(profile.forced_command_wrapper@),
        "deployment.forced_command_wrapper"@,
        "forced command wrapper path must be absolute"@,
    ) + issue_if(
        !both_services(profile.allowed_git_services@),
        "deployment.allowed_git_services"@,
        "allowed Git services must be exactly git-upload-pack and git-receive-pack"@,
    ) + issue_if(
        profile.supported_filesystems@.len() == 0,
        "deployment.supported_filesystems"@,
        "supported filesystem list must not be empty"@,
    ) + issue_if(
        !supported.contains(facts.state_root_filesystem@),
        "paths.state_root"@,
        "state root filesystem "@ + facts.state_root_filesystem@
            + " is not in the supported deployment profile"@,
    ) + match facts.repository {
        Some(state) => issue_if(
            !supported.contains(state.filesystem@),
            "repo_path"@,
            "repository filesystem "@ + state.filesystem@
                + " is not in the supported deployment profile"@,
        ),
        None => Seq::empty(),
    }
}

/// Adds the issues of the deployment on the host that was found.
fn validate_deployment_contract(
    config: &AppConfig,
    facts: &RepositoryFacts,
    issues: &mut Vec<ValidationIssue>,
)
    ensures
        issue_texts(final(issues)@) == issue_texts(old(issues)@) + deployment_issues(
            *config,
            *facts,
        ),
{
    let profile = &config.deployment;
    let mut own: Vec<ValidationIssue> = Vec::new();
    report(
        &mut own,
        facts.platform != profile.platform,
        "deployment.platform",
        "configured deployment platform does not match the running host",
    );
    assert(issue_texts(own@) =~= issue_if(
        facts.platform != profile.platform,
        "deployment.platform"@,
        "configured deployment platform does not match the running host"@,
    ));
    report(
        &mut own,
        !facts.service_manager_supported,
        "deployment.service_manager",
        "supported deployment pairs are macOS+launchd and Linux+systemd only",
    );
    report(
        &mut own,
        profile.git_only_command_mode != GitOnlyCommandMode::OpensshForceCommand,
        "deployment.git_only_command_mode",
        "OpenSSH ForceCommand is the only supported SSH command restriction mode",
    );
    report(
        &mut own,
        !profile.disable_forwarding,
        "deployment.disable_forwarding",
        "SSH forwarding must be disabled for Git ingress",
    );
    report(
        &mut own,
        !path::is_absolute(&profile.forced_command_wrapper),
        "deployment.forced_command_wrapper",
        "forced command wrapper path must be absolute",
    );
    report(
        &mut own,
        !check_services(&profile.allowed_git_services),
        "deployment.allowed_git_services",
        "allowed Git services must be exactly git-upload-pack and git-receive-pack",
    );
    report(
        &mut own,
        profile.supported_filesystems.len() == 0,
        "deployment.supported_filesystems",
        "supported filesystem list must not be empty",
    );
    let root_message = concat3(
        "state root filesystem ",
        &facts.state_root_filesystem,
        " is not in the supported deployment profile",
    );
    report(
        &mut own,
        !list_holds(&profile.supported_filesystems, &facts.state_root_filesystem),
        "paths.state_root",
        &root_message,
    );
    match &facts.repository {
        Some(state) => {
            let message = concat3(
                "repository filesystem ",
                &state.filesystem,
                " is not in the supported deployment profile",
            );
            report(
                &mut own,
                !list_holds(&profile.supported_filesystems, &state.filesystem),
                "repo_path",
                &message,
            );
        },
        None => {},
    }
    proof {
        assert(issue_texts(own@) =~= deployment_issues(*config, *facts));
        assert(issue_texts(issues@ + own@) =~= issue_texts(issues@) + issue_texts(own@));
    }
    issues.append(&mut own);
}

/// The issue, if any, of one required setting that reads `answer`.
pub open spec fn setting_issue(required: (Seq<char>, Seq<char>), answer: Option<String>) -> Seq<
    (Seq<char>, Seq<char>),
> {
    match answer {
        Some(found) => issue_if(
            found@ != required.1,
            required.0,
            "expected "@ + required.0 + "="@ + required.1 + ", found "@ + found@,
        ),
        None => issue_if(
            true,
            required.0,
            "missing required git config "@ + required.0 + "="@ + required.1,
        ),
    }
}

/// The issues of the first `n` required settings.
pub open spec fn setting_issues(answers: Seq<Option<String>>, n: int) -> Seq<
    (Seq<char>, Seq<char>),
>
    decreases n,
{
    if n <= 0 {
        Seq::empty()
    } else {
        setting_issues(answers, n - 1) + setting_issue(required_config()[n - 1], answers[n - 1])
    }
}

/// Adds the issue, if any, of one required setting that reads `actual`.
fn require_git_config(
    key: &str,
    expected: &str,
    actual: &Option<String>,
    issues: &mut Vec<ValidationIssue>,
)
    ensures
        issue_texts(final(issues)@) == issue_texts(old(issues)@) + setting_issue(
            (key@, expected@),
            *actual,
        ),
{
    match actual {
        Some(found) => {
            let head = concat4("expected ", key, "=", expected);
            let message = concat3(&head, ", found ", found);
            report(issues, !same(found, expected), key, &message);
        },
        None => {
            let message = concat4("missing required git config ", key, "=", expected);
            report(issues, true, key, &message);
        },
    }
}

/// The issues of an authoritative repository.
pub open spec fn authoritative_issues(d: RepositoryDescriptor, facts: RepositoryFacts) -> Seq<
    (Seq<char>, Seq<char>),
> {
    issue_if(
        d.tracking_refs != TrackingRefPlacement::SameRepoHidden,
        "tracking_refs"@,
        "same-repo-hidden tracking refs are mandatory in the initial implementation"@,
    ) + issue_if(
        d.write_upstreams@.len() == 0,
        "write_upstreams"@,
        "authoritative repositories require at least one write upstream"@,
    ) + match facts.repository {
        None => issue_if(
            true,
            "repo_path"@,
            "authoritative repositories must already exist on disk"@,
        ),
        Some(state) => if state.bare_answer@ != "true"@ {
            issue_if(
                true,
                "repo_path"@,
                "authoritative repository path must point to a bare Git repository"@,
            )
        } else {
            setting_issues(state.config_answers@, required_config().len() as int)
        },
    }
}

/// Adds the issues of an authoritative repository.
fn validate_authoritative_repository(
    descriptor: &RepositoryDescriptor,
    facts: &RepositoryFacts,
    issues: &mut Vec<ValidationIssue>,
)
    requires
        facts.repository matches Some(state) ==> state.bare_answer@ == "true"@
            ==> state.config_answers@.len() == required_config().len(),
    ensures
        issue_texts(final(issues)@) == issue_texts(old(issues)@) + authoritative_issues(
            *descriptor,
            *facts,
        ),
{
    let mut own: Vec<ValidationIssue> = Vec::new();
    report(
        &mut own,
        descriptor.tracking_refs != TrackingRefPlacement::SameRepoHidden,
        "tracking_refs",
        "same-repo-hidden tracking refs are mandatory in the initial implementation",
    );
    report(
        &mut own,
        descriptor.write_upstreams.len() == 0,
        "write_upstreams",
        "authoritative repositories require at least one write upstream",
    );
    let ghost start = issue_texts(own@);
    match &facts.repository {
        None => {
            report(
                &mut own,
                true,
                "repo_path",
                "authoritative repositories must already exist on disk",
            );
        },
        Some(state) => {
            if !same(&state.bare_answer, "true") {
                report(
                    &mut own,
                    true,
                    "repo_path",
                    "authoritative repository path must point to a bare Git repository",
                );
            } else {
                let required = required_git_config();
                let answers = &state.config_answers;
                let mut i: usize = 0;
                assert(start + setting_issues(answers@, 0) =~= start);
                while i < required.len()
                    invariant
                        i <= required@.len(),
                        required@.len() == required_config().len(),
                        answers@.len() == required@.len(),
                        forall|k: int|
                            0 <= k < required@.len() ==> (#[trigger] required@[k]).0@
                                == required_config()[k].0 && required@[k].1@
                                == required_config()[k].1,
                        issue_texts(own@) == start + setting_issues(answers@, i as int),
                    decreases required@.len() - i,
                {
                    let (key, expected) = required[i];
                    require_git_config(key, expected, &answers[i], &mut own);
                    proof {
                        assert((key@, expected@) == required_config()[i as int]);
                        assert(issue_texts(own@) =~= start + setting_issues(answers@, i + 1));
                    }
                    i += 1;
                }
            }
        },
    }
    proof {
        assert(issue_texts(own@) =~= authoritative_issues(*descriptor, *facts));
        assert(issue_texts(issues@ + own@) =~= issue_texts(issues@) + issue_texts(own@));
    }
    issues.append(&mut own);
}

/// The issues of a cache-only repository.
pub open spec fn cache_only_issues(facts: RepositoryFacts) -> Seq<(Seq<char>, Seq<char>)> {
    match facts.repository {
        None => issue_if(
            true,
            "repo_path"@,
            "cache-only repositories must already exist on disk before entering ready"@,
        ),
        Some(state) => issue_if(
            state.bare_answer@ != "true"@,
            "repo_path"@,
            "cache-only repository path must point to a bare Git repository"@,
        ),
    }
}

/// Adds the issues of a cache-only repository.
fn validate_cache_only_repository(facts: &RepositoryFacts, issues: &mut Vec<ValidationIssue>)
    ensures
        issue_texts(final(issues)@) == issue_texts(old(issues)@) + cache_only_issues(*facts),
{
    match &facts.repository {
        None => report(
            issues,
            true,
            "repo_path",
            "cache-only repositories must already exist on disk before entering ready",
        ),
        Some(state) => report(
            issues,
            !same(&state.bare_answer, "true"),
            "repo_path",
            "cache-only repository path must point to a bare Git repository",
        ),
    }
}

/// All issues of a repository, in the order in which they are reported.
pub open spec fn all_issues(
    config: AppConfig,
    d: RepositoryDescriptor,
    facts: RepositoryFacts,
) -> Seq<(Seq<char>, Seq<char>)> {
    shape_issues(config, d) + deployment_issues(config, facts) + match d.mode {
        RepositoryMode::Authoritative => authoritative_issues(d, facts),
        RepositoryMode::CacheOnly => cache_only_issues(facts),
    }
}

/// Whether the facts hold an answer for each setting that the repository's mode asks for.
pub open spec fn facts_complete(d: RepositoryDescriptor, facts: RepositoryFacts) -> bool {
    facts.repository matches Some(state) ==> d.mode == RepositoryMode::Authoritative
        && state.bare_answer@ == "true"@ ==> state.config_answers@.len() == required_config().len()
}

/// Whether `report` is the one that a repository with these issues gets: it passes where there
/// is no issue, and accepts writes where it also is authoritative and ready.
pub open spec fn reports(
    report: ValidationReport,
    d: RepositoryDescriptor,
    issues: Seq<(Seq<char>, Seq<char>)>,
) -> bool {
    &&& report.repo_id@ == d.repo_id@
    &&& issue_texts(report.issues@) == issues
    &&& (report.status == ValidationStatus::Passed <==> issues.len() == 0)
    &&& report.write_acceptance_allowed == (issues.len() == 0 && d.mode
        == RepositoryMode::Authoritative && d.lifecycle == RepositoryLifecycle::Ready)
}

proof fn lemma_after_none(
    none: Seq<(Seq<char>, Seq<char>)>,
    issues: Seq<(Seq<char>, Seq<char>)>,
)
    requires
        none.len() == 0,
    ensures
        none + issues == issues,
{
    assert(none + issues =~= issues);
}

/// The report on a repository of which the facts are known.
pub fn assess(config: &AppConfig, descriptor: &RepositoryDescriptor, facts: &RepositoryFacts) -> (r:
    ValidationReport)
    requires
        facts_complete(*descriptor, *facts),
    ensures
        reports(r, *descriptor, all_issues(*config, *descriptor, *facts)),
{
    let mut issues: Vec<ValidationIssue> = Vec::new();
    proof {
        let none = issue_texts(issues@);
        assert(none =~= Seq::empty());
        lemma_after_none(none, shape_issues(*config, *descriptor));
    }
    validate_descriptor_shape(config, descriptor, &mut issues);
    validate_deployment_contract(config, facts, &mut issues);
    match descriptor.mode {
        RepositoryMode::Authoritative => validate_authoritative_repository(
            descriptor,
            facts,
            &mut issues,
        ),
        RepositoryMode::CacheOnly => validate_cache_only_repository(facts, &mut issues),
    }
    let passed = issues.len() == 0;
    assert(issue_texts(issues@).len() == issues@.len());
    ValidationReport {
        repo_id: descriptor.repo_id.clone(),
        status: if passed {
            ValidationStatus::Passed
        } else {
            ValidationStatus::Failed
        },
        write_acceptance_allowed: passed && descriptor.mode == RepositoryMode::Authoritative
            && descriptor.lifecycle == RepositoryLifecycle::Ready,
        issues,
    }
}

impl<'a, G: GitExecutor, P: PlatformProbe> Validator<'a, G, P> {
    pub fn new(git: &'a G, platform: &'a P) -> (r: Self)
        ensures
            r.git == git,
            r.platform == platform,
    {
        Validator { git, platform }
    }

    /// Whether `answer` may be what Git says of the setting `key`: a failed `git config --get`
    /// means that it is not set.
    pub open spec fn may_read_setting(
        self,
        dir: Seq<char>,
        key: Seq<char>,
        answer: Option<String>,
    ) -> bool {
        match answer {
            Some(value) => may_answer(self.git, dir, config_query(key), Ok(value)),
            None => exists|e: GitCommandError|
                e is NonZeroExit && #[trigger] may_answer(
                    self.git,
                    dir,
                    config_query(key),
                    Err(e),
                ),
        }
    }

    /// Whether the facts may be what the host and Git answer about a repository.
    pub open spec fn may_observe(
        self,
        config: AppConfig,
        d: RepositoryDescriptor,
        repo_exists: bool,
        facts: RepositoryFacts,
    ) -> bool {
        &&& call_ensures(P::current_platform, (self.platform,), Ok(facts.platform))
        &&& call_ensures(
            P::service_manager_supported,
            (self.platform, config.deployment.platform, config.deployment.service_manager),
            facts.service_manager_supported,
        )
        &&& may_report_filesystem(
            self.platform,
            config.paths.state_root@,
            Ok(facts.state_root_filesystem),
        )
        &&& repo_exists == facts.repository is Some
        &&& facts.repository matches Some(state) ==> {
            &&& may_report_filesystem(self.platform, d.repo_path@, Ok(state.filesystem))
            &&& may_answer(
                self.git,
                d.repo_path@,
                bare_query(),
                Ok(state.bare_answer),
            )
            &&& d.mode == RepositoryMode::Authoritative && state.bare_answer@ == "true"@ ==> {
                &&& state.config_answers@.len() == required_config().len()
                &&& forall|i: int|
                    0 <= i < required_config().len() ==> self.may_read_setting(
                        d.repo_path@,
                        #[trigger] required_config()[i].0,
                        state.config_answers@[i],
                    )
            }
        }
    }

    /// Whether Git may say that a repository is bare.
    pub open spec fn may_be_bare(self, dir: Seq<char>) -> bool {
        exists|answer: String|
            answer@ == "true"@ && #[trigger] may_answer(self.git, dir, bare_query(), Ok(answer))
    }

    /// Whether a repository may fail to be examined with `error`: the host or Git did not answer.
    /// The settings are read of a bare authoritative repository alone.
    pub open spec fn may_fail(
        self,
        config: AppConfig,
        d: RepositoryDescriptor,
        repo_exists: bool,
        error: ValidationInfrastructureError,
    ) -> bool {
        match error {
            ValidationInfrastructureError::Platform(e) => {
                ||| call_ensures(P::current_platform, (self.platform,), Err(e))
                ||| may_report_filesystem(self.platform, config.paths.state_root@, Err(e))
                ||| repo_exists && may_report_filesystem(self.platform, d.repo_path@, Err(e))
            },
            ValidationInfrastructureError::Git(e) => {
                ||| repo_exists && may_answer(self.git, d.repo_path@, bare_query(), Err(e))
                ||| repo_exists && d.mode == RepositoryMode::Authoritative && self.may_be_bare(
                    d.repo_path@,
                ) && e is Spawn && exists|i: int|
                    0 <= i < required_config().len() && may_answer(
                        self.git,
                        d.repo_path@,
                        config_query(#[trigger] required_config()[i].0),
                        Err(e),
                    )
            },
            _ => false,
        }
    }

    fn is_bare_repository(&self, repo_path: &str) -> (r: Result<
        String,
        ValidationInfrastructureError,
    >)
        ensures
            match r {
                Ok(answer) => may_answer(
                    self.git,
                    repo_path@,
                    bare_query(),
                    Ok(answer),
                ),
                Err(ValidationInfrastructureError::Git(e)) => may_answer(
                    self.git,
                    repo_path@,
                    bare_query(),
                    Err(e),
                ),
                Err(_) => false,
            },
    {
        match ask2(self.git, repo_path, "rev-parse", "--is-bare-repository") {
            Ok(answer) => Ok(answer),
            Err(error) => Err(ValidationInfrastructureError::Git(error)),
        }
    }

    fn read_git_config(&self, repo_path: &str) -> (r: Result<
        Vec<Option<String>>,
        ValidationInfrastructureError,
    >)
        ensures
            match r {
                Ok(answers) => {
                    &&& answers@.len() == required_config().len()
                    &&& forall|i: int|
                        0 <= i < required_config().len() ==> self.may_read_setting(
                            repo_path@,
                            #[trigger] required_config()[i].0,
                            answers@[i],
                        )
                },
                Err(ValidationInfrastructureError::Git(e)) => e is Spawn && exists|i: int|
                    0 <= i < required_config().len() && may_answer(
                        self.git,
                        repo_path@,
                        config_query(#[trigger] required_config()[i].0),
                        Err(e),
                    ),
                Err(_) => false,
            },
    {
        let required = required_git_config();
        let mut answers: Vec<Option<String>> = Vec::new();
        let mut i: usize = 0;
        while i < required.len()
            invariant
                i <= required@.len(),
                required@.len() == required_config().len(),
                forall|k: int|
                    0 <= k < required@.len() ==> (#[trigger] required@[k]).0@
                        == required_config()[k].0,
                answers@.len() == i,
                forall|k: int|
                    0 <= k < i ==> self.may_read_setting(
                        repo_path@,
                        #[trigger] required_config()[k].0,
                        answers@[k],
                    ),
            decreases required@.len() - i,
        {
            let key = required[i].0;
            assert(key@ == required_config()[i as int].0);
            match ask3(self.git, repo_path, "config", "--get", key) {
                Ok(value) => {
                    answers.push(Some(value));
                },
                Err(GitCommandError::NonZeroExit { args, status, stderr }) => {
                    let ghost e = GitCommandError::NonZeroExit { args, status, stderr };
                    assert(may_answer(
                        self.git,
                        repo_path@,
                        config_query(key@),
                        Err(e),
                    ));
                    answers.push(None);
                },
                Err(error) => {
                    return Err(ValidationInfrastructureError::Git(error));
                },
            }
            i += 1;
        }
        Ok(answers)
    }

    /// Finds out about the host and a repository on it.
    pub fn observe(
        &self,
        config: &AppConfig,
        descriptor: &RepositoryDescriptor,
        repo_exists: bool,
    ) -> (r: Result<RepositoryFacts, ValidationInfrastructureError>)
        ensures
            match r {
                Ok(facts) => self.may_observe(*config, *descriptor, repo_exists, facts),
                Err(error) => self.may_fail(*config, *descriptor, repo_exists, error),
            },
    {
        let platform = match self.platform.current_platform() {
            Ok(platform) => platform,
            Err(error) => {
                return Err(ValidationInfrastructureError::Platform(error));
            },
        };
        let service_manager_supported = self.platform.service_manager_supported(
            config.deployment.platform,
            config.deployment.service_manager,
        );
        let state_root_filesystem = match ask_filesystem(self.platform, &config.paths.state_root) {
            Ok(filesystem) => filesystem,
            Err(error) => {
                return Err(ValidationInfrastructureError::Platform(error));
            },
        };
        if !repo_exists {
            return Ok(
                RepositoryFacts {
                    platform,
                    service_manager_supported,
                    state_root_filesystem,
                    repository: None,
                },
            );
        }
        let filesystem = match ask_filesystem(self.platform, &descriptor.repo_path) {
            Ok(filesystem) => filesystem,
            Err(error) => {
                return Err(ValidationInfrastructureError::Platform(error));
            },
        };
        let bare_answer = match self.is_bare_repository(&descriptor.repo_path) {
            Ok(answer) => answer,
            Err(error) => {
                return Err(error);
            },
        };
        let config_answers = if descriptor.mode == RepositoryMode::Authoritative && same(
            &bare_answer,
            "true",
        ) {
            match self.read_git_config(&descriptor.repo_path) {
                Ok(answers) => answers,
                Err(error) => {
                    return Err(error);
                },
            }
        } else {
            Vec::new()
        };
        Ok(
            RepositoryFacts {
                platform,
                service_manager_supported,
                state_root_filesystem,
                repository: Some(RepositoryState { filesystem, bare_answer, config_answers }),
            },
        )
    }

    /// The report on a repository, of which `repo_exists` says whether its path exists.
    pub fn validate(
        &self,
        config: &AppConfig,
        descriptor: &RepositoryDescriptor,
        repo_exists: bool,
    ) -> (r: Result<ValidationReport, ValidationInfrastructureError>)
        ensures
            match r {
                Ok(report) => exists|facts: RepositoryFacts|
                    {
                        &&& #[trigger] self.may_observe(*config, *descriptor, repo_exists, facts)
                        &&& reports(report, *descriptor, all_issues(*config, *descriptor, facts))
                    },
                Err(error) => self.may_fail(*config, *descriptor, repo_exists, error),
            },
    {
        match self.observe(config, descriptor, repo_exists) {
            Ok(facts) => Ok(assess(config, descriptor, &facts)),
            Err(error) => Err(error),
        }
    }
}

// ---------------------------------------------------------------------------
// Laws

proof fn lemma_no_setting_issue(answers: Seq<Option<String>>, n: int)
    requires
        0 <= n <= required_config().len(),
        setting_issues(answers, n).len() == 0,
    ensures
        forall|i: int|
            0 <= i < n ==> (#[trigger] answers[i]) is Some && answers[i]->0@
                == required_config()[i].1,
    decreases n,
{
    if n > 0 {
        lemma_no_setting_issue(answers, n - 1);
        assert(setting_issue(required_config()[n - 1], answers[n - 1]).len() == 0);
    }
}

proof fn lemma_parts_empty(config: AppConfig, d: RepositoryDescriptor, facts: RepositoryFacts)
    requires
        all_issues(config, d, facts).len() == 0,
        d.mode == RepositoryMode::Authoritative,
    ensures
        shape_issues(config, d).len() == 0,
        deployment_issues(config, facts).len() == 0,
        authoritative_issues(d, facts).len() == 0,
{
    let a = shape_issues(config, d);
    let b = deployment_issues(config, facts);
    let c = authoritative_issues(d, facts);
    assert((a + b + c).len() == a.len() + b.len() + c.len());
}

proof fn lemma_no_shape_issue(config: AppConfig, d: RepositoryDescriptor)
    requires
        shape_issues(config, d).len() == 0,
    ensures
        d.mode == RepositoryMode::Authoritative ==> d.authority_model
            == AuthorityModel::RelayAuthoritative,
        under(d.repo_path@, config.paths.repo_root@),
        d.exported_refs@.len() > 0,
        all_exportable(d.exported_refs@),
{
}

proof fn lemma_no_deployment_issue(config: AppConfig, facts: RepositoryFacts)
    requires
        deployment_issues(config, facts).len() == 0,
    ensures
        facts.platform == config.deployment.platform,
        facts.service_manager_supported,
        texts(config.deployment.supported_filesystems@).contains(facts.state_root_filesystem@),
        facts.repository is Some ==> texts(config.deployment.supported_filesystems@).contains(
            facts.repository->0.filesystem@,
        ),
{
}

proof fn lemma_no_authoritative_issue(d: RepositoryDescriptor, facts: RepositoryFacts)
    requires
        authoritative_issues(d, facts).len() == 0,
    ensures
        d.write_upstreams@.len() > 0,
        facts.repository is Some,
        facts.repository->0.bare_answer@ == "true"@,
        setting_issues(
            facts.repository->0.config_answers@,
            required_config().len() as int,
        ).len() == 0,
{
}

/// Write acceptance fails closed: a repository that may take writes is authoritative, ready,
/// bare, on a supported file system of the configured platform, exports branches and tags alone,
/// and has every required Git setting at its required value.
pub proof fn law_write_acceptance_fails_closed(
    config: AppConfig,
    d: RepositoryDescriptor,
    facts: RepositoryFacts,
    report: ValidationReport,
)
    requires
        facts_complete(d, facts),
        reports(report, d, all_issues(config, d, facts)),
        report.write_acceptance_allowed,
    ensures
        report.status == ValidationStatus::Passed,
        report.issues@.len() == 0,
        d.mode == RepositoryMode::Authoritative,
        d.lifecycle == RepositoryLifecycle::Ready,
        d.authority_model == AuthorityModel::RelayAuthoritative,
        under(d.repo_path@, config.paths.repo_root@),
        d.exported_refs@.len() > 0,
        all_exportable(d.exported_refs@),
        d.write_upstreams@.len() > 0,
        facts.platform == config.deployment.platform,
        facts.service_manager_supported,
        texts(config.deployment.supported_filesystems@).contains(facts.state_root_filesystem@),
        facts.repository is Some,
        facts.repository->0.bare_answer@ == "true"@,
        texts(config.deployment.supported_filesystems@).contains(
            facts.repository->0.filesystem@,
        ),
        facts.repository->0.config_answers@.len() == required_config().len(),
        forall|i: int|
            0 <= i < required_config().len() ==> (
            #[trigger] facts.repository->0.config_answers@[i]) is Some
                && facts.repository->0.config_answers@[i]->0@ == required_config()[i].1,
{
    assert(issue_texts(report.issues@).len() == report.issues@.len());
    assert(shape_issues(config, d).len() == 0 && deployment_issues(config, facts).len() == 0
        && authoritative_issues(d, facts).len() == 0) by {
        lemma_parts_empty(config, d, facts);
    }
    lemma_no_shape_issue(config, d);
    lemma_no_deployment_issue(config, facts);
    lemma_no_authoritative_issue(d, facts);
    lemma_no_setting_issue(
        facts.repository->0.config_answers@,
        required_config().len() as int,
    );
}

// ---------------------------------------------------------------------------
// When the contract is met

/// Whether an issue is reported under a code.
pub open spec fn reported(issues: Seq<(Seq<char>, Seq<char>)>, code: Seq<char>) -> bool {
    exists|i: int| 0 <= i < issues.len() && (#[trigger] issues[i]).0 == code
}

proof fn lemma_reported(code: Seq<char>)
    ensures
        forall|a: Seq<(Seq<char>, Seq<char>)>, b: Seq<(Seq<char>, Seq<char>)>| #[trigger]
            reported(a + b, code) <==> reported(a, code) || reported(b, code),
        forall|found: bool, c: Seq<char>, message: Seq<char>| #[trigger]
            reported(issue_if(found, c, message), code) <==> found && c == code,
{
    assert forall|a: Seq<(Seq<char>, Seq<char>)>, b: Seq<(Seq<char>, Seq<char>)>| #[trigger]
        reported(a + b, code) <==> reported(a, code) || reported(b, code) by {
        if reported(a, code) {
            let i = choose|i: int| 0 <= i < a.len() && (#[trigger] a[i]).0 == code;
            assert((a + b)[i].0 == code);
        }
        if reported(b, code) {
            let i = choose|i: int| 0 <= i < b.len() && (#[trigger] b[i]).0 == code;
            assert((a + b)[a.len() + i].0 == code);
        }
        if reported(a + b, code) {
            let i = choose|i: int| 0 <= i < (a + b).len() && (#[trigger] (a + b)[i]).0 == code;
            if i < a.len() {
                assert(a[i].0 == code);
            } else {
                assert(b[i - a.len()].0 == code);
            }
        }
    }
    assert forall|found: bool, c: Seq<char>, message: Seq<char>| #[trigger]
        reported(issue_if(found, c, message), code) <==> found && c == code by {
        if found && c == code {
            assert(issue_if(found, c, message)[0].0 == code);
        }
    }
}

proof fn lemma_read_bindings(profiles: Seq<AuthProfileEntry>, upstreams: Seq<ReadUpstream>)
    ensures
        read_binding_issues(profiles, upstreams).len() == 0 <==> forall|i: int|
            0 <= i < upstreams.len() ==> profile_known(
                profiles,
                (#[trigger] upstreams[i]).auth_profile,
            ),
        read_binding_issues(profiles, upstreams).len() > 0 ==> reported(
            read_binding_issues(profiles, upstreams),
            "read_upstreams"@,
        ),
    decreases upstreams.len(),
{
    if upstreams.len() > 0 {
        let front = upstreams.drop_last();
        lemma_read_bindings(profiles, front);
        lemma_reported("read_upstreams"@);
        assert forall|i: int| 0 <= i < front.len() implies #[trigger] front[i] == upstreams[i] by {}
        assert(upstreams.last() == upstreams[upstreams.len() - 1]);
        if forall|i: int|
            0 <= i < upstreams.len() ==> profile_known(
                profiles,
                (#[trigger] upstreams[i]).auth_profile,
            ) {
            assert forall|i: int| 0 <= i < front.len() implies profile_known(
                profiles,
                (#[trigger] front[i]).auth_profile,
            ) by {
                assert(profile_known(profiles, upstreams[i].auth_profile));
            }
        }
        if forall|i: int|
            0 <= i < front.len() ==> profile_known(profiles, (#[trigger] front[i]).auth_profile) {
            assert forall|i: int| 0 <= i < front.len() implies profile_known(
                profiles,
                (#[trigger] upstreams[i]).auth_profile,
            ) by {
                assert(profile_known(profiles, front[i].auth_profile));
            }
        }
    }
}

proof fn lemma_write_bindings(profiles: Seq<AuthProfileEntry>, upstreams: Seq<WriteUpstream>)
    ensures
        write_binding_issues(profiles, upstreams).len() == 0 <==> forall|i: int|
            0 <= i < upstreams.len() ==> profile_known(
                profiles,
                (#[trigger] upstreams[i]).auth_profile,
            ),
        write_binding_issues(profiles, upstreams).len() > 0 ==> reported(
            write_binding_issues(profiles, upstreams),
            "write_upstreams"@,
        ),
    decreases upstreams.len(),
{
    if upstreams.len() > 0 {
        let front = upstreams.drop_last();
        lemma_write_bindings(profiles, front);
        lemma_reported("write_upstreams"@);
        assert forall|i: int| 0 <= i < front.len() implies #[trigger] front[i] == upstreams[i] by {}
        assert(upstreams.last() == upstreams[upstreams.len() - 1]);
        if forall|i: int|
            0 <= i < upstreams.len() ==> profile_known(
                profiles,
                (#[trigger] upstreams[i]).auth_profile,
            ) {
            assert forall|i: int| 0 <= i < front.len() implies profile_known(
                profiles,
                (#[trigger] front[i]).auth_profile,
            ) by {
                assert(profile_known(profiles, upstreams[i].auth_profile));
            }
        }
        if forall|i: int|
            0 <= i < front.len() ==> profile_known(profiles, (#[trigger] front[i]).auth_profile) {
            assert forall|i: int| 0 <= i < front.len() implies profile_known(
                profiles,
                (#[trigger] upstreams[i]).auth_profile,
            ) by {
                assert(profile_known(profiles, front[i].auth_profile));
            }
        }
    }
}

proof fn lemma_settings(answers: Seq<Option<String>>, n: int)
    requires
        0 <= n <= required_config().len(),
    ensures
        setting_issues(answers, n).len() == 0 <==> forall|i: int|
            0 <= i < n ==> (answers[i] is Some && answers[i]->0@ == (
            #[trigger] required_config()[i]).1),
        forall|i: int|
            0 <= i < n && !(answers[i] is Some && answers[i]->0@ == (
            #[trigger] required_config()[i]).1) ==> reported(
                setting_issues(answers, n),
                required_config()[i].0,
            ),
    decreases n,
{
    if n > 0 {
        lemma_settings(answers, n - 1);
        let last = required_config()[n - 1];
        assert forall|i: int|
            0 <= i < n && !(answers[i] is Some && answers[i]->0@ == (
            #[trigger] required_config()[i]).1) implies reported(
            setting_issues(answers, n),
            required_config()[i].0,
        ) by {
            lemma_reported(required_config()[i].0);
        }
    }
}

proof fn lemma_no_shape_issues(config: AppConfig, d: RepositoryDescriptor)
    ensures
        shape_issues(config, d).len() == 0 <==> {
            &&& trimmed(d.repo_id@).len() > 0
            &&& trimmed(d.canonical_identity@).len() > 0
            &&& absolute(d.repo_path@)
            &&& under(d.repo_path@, config.paths.repo_root@)
            &&& d.push_ack == PushAckPolicy::LocalCommit
            &&& d.reconcile_policy == ReconcilePolicy::OnPushManual
            &&& d.mode == RepositoryMode::Authoritative ==> d.authority_model
                == AuthorityModel::RelayAuthoritative && d.refresh
                == FreshnessPolicy::AuthoritativeLocal
            &&& d.mode == RepositoryMode::CacheOnly ==> d.authority_model
                == AuthorityModel::UpstreamSource && d.refresh
                != FreshnessPolicy::AuthoritativeLocal && d.read_upstreams@.len() > 0
                && d.write_upstreams@.len() == 0
            &&& config.reconcile.on_push
            &&& config.reconcile.manual_enabled
            &&& !config.reconcile.periodic_enabled
            &&& d.exported_refs@.len() > 0
            &&& all_exportable(d.exported_refs@)
            &&& read_binding_issues(config.auth_profiles@, d.read_upstreams@).len() == 0
            &&& write_binding_issues(config.auth_profiles@, d.write_upstreams@).len() == 0
        },
{
}

/// The descriptor and the configuration are without issue exactly where the repository has an id
/// and an identity, lies under the root of the repositories, is under the authority that its mode
/// asks for, acknowledges and reconciles in the one way there is, has the freshness and the
/// upstreams that its mode asks for, exports branches or tags and nothing else, and names only
/// profiles that are configured.
pub proof fn law_sound_descriptors(config: AppConfig, d: RepositoryDescriptor)
    ensures
        shape_issues(config, d).len() == 0 <==> {
            &&& trimmed(d.repo_id@).len() > 0
            &&& trimmed(d.canonical_identity@).len() > 0
            &&& absolute(d.repo_path@)
            &&& under(d.repo_path@, config.paths.repo_root@)
            &&& d.push_ack == PushAckPolicy::LocalCommit
            &&& d.reconcile_policy == ReconcilePolicy::OnPushManual
            &&& d.mode == RepositoryMode::Authoritative ==> d.authority_model
                == AuthorityModel::RelayAuthoritative && d.refresh
                == FreshnessPolicy::AuthoritativeLocal
            &&& d.mode == RepositoryMode::CacheOnly ==> d.authority_model
                == AuthorityModel::UpstreamSource && d.refresh
                != FreshnessPolicy::AuthoritativeLocal && d.read_upstreams@.len() > 0
                && d.write_upstreams@.len() == 0
            &&& config.reconcile.on_push
            &&& config.reconcile.manual_enabled
            &&& !config.reconcile.periodic_enabled
            &&& d.exported_refs@.len() > 0
            &&& forall|i: int|
                0 <= i < d.exported_refs@.len() ==> begins(
                    (#[trigger] d.exported_refs@[i])@,
                    "refs/heads/"@,
                ) || begins(d.exported_refs@[i]@, "refs/tags/"@)
            &&& forall|i: int|
                0 <= i < d.read_upstreams@.len() ==> profile_known(
                    config.auth_profiles@,
                    (#[trigger] d.read_upstreams@[i]).auth_profile,
                )
            &&& forall|i: int|
                0 <= i < d.write_upstreams@.len() ==> profile_known(
                    config.auth_profiles@,
                    (#[trigger] d.write_upstreams@[i]).auth_profile,
                )
        },
{
    lemma_no_shape_issues(config, d);
    lemma_read_bindings(config.auth_profiles@, d.read_upstreams@);
    lemma_write_bindings(config.auth_profiles@, d.write_upstreams@);
    assert(all_exportable(d.exported_refs@) <==> forall|i: int|
        0 <= i < d.exported_refs@.len() ==> begins(
            (#[trigger] d.exported_refs@[i])@,
            "refs/heads/"@,
        ) || begins(d.exported_refs@[i]@, "refs/tags/"@)) by {
        if all_exportable(d.exported_refs@) {
            assert forall|i: int| 0 <= i < d.exported_refs@.len() implies begins(
                (#[trigger] d.exported_refs@[i])@,
                "refs/heads/"@,
            ) || begins(d.exported_refs@[i]@, "refs/tags/"@) by {
                assert(exportable(d.exported_refs@[i]@));
            }
        }
    }
}

/// Each issue of a descriptor is reported under the name of the setting.
pub proof fn law_issues_are_named(config: AppConfig, d: RepositoryDescriptor)
    ensures
        trimmed(d.repo_id@).len() == 0 ==> reported(shape_issues(config, d), "repo_id"@),
        trimmed(d.canonical_identity@).len() == 0 ==> reported(
            shape_issues(config, d),
            "canonical_identity"@,
        ),
        !absolute(d.repo_path@) || !under(d.repo_path@, config.paths.repo_root@) ==> reported(
            shape_issues(config, d),
            "repo_path"@,
        ),
        d.push_ack != PushAckPolicy::LocalCommit ==> reported(shape_issues(config, d), "push_ack"@),
        d.reconcile_policy != ReconcilePolicy::OnPushManual ==> reported(
            shape_issues(config, d),
            "reconcile_policy"@,
        ),
        (d.mode == RepositoryMode::Authoritative) != (d.authority_model
            == AuthorityModel::RelayAuthoritative) ==> reported(
            shape_issues(config, d),
            "authority_model"@,
        ),
        (d.mode == RepositoryMode::Authoritative) != (d.refresh
            == FreshnessPolicy::AuthoritativeLocal) ==> reported(
            shape_issues(config, d),
            "refresh"@,
        ),
        d.exported_refs@.len() == 0 || !all_exportable(d.exported_refs@) ==> reported(
            shape_issues(config, d),
            "exported_refs"@,
        ),
{
    lemma_reported("repo_id"@);
    lemma_reported("canonical_identity"@);
    lemma_reported("repo_path"@);
    lemma_reported("push_ack"@);
    lemma_reported("reconcile_policy"@);
    lemma_reported("authority_model"@);
    lemma_reported("refresh"@);
    lemma_reported("exported_refs"@);
}

/// The deployment is without issue exactly where the host is the configured one and of a supported
/// kind, logins can run Git's two services and nothing else, without forwarding and through a
/// command that is found by an absolute path, and the state and the repository lie on supported
/// filesystems.
pub proof fn law_sound_deployments(config: AppConfig, facts: RepositoryFacts)
    ensures
        deployment_issues(config, facts).len() == 0 <==> {
            let profile = config.deployment;
            let supported = texts(profile.supported_filesystems@);
            &&& facts.platform == profile.platform
            &&& facts.service_manager_supported
            &&& profile.git_only_command_mode == GitOnlyCommandMode::OpensshForceCommand
            &&& profile.disable_forwarding
            &&& absolute(profile.forced_command_wrapper@)
            &&& profile.allowed_git_services@.contains(GitService::GitUploadPack)
            &&& profile.allowed_git_services@.contains(GitService::GitReceivePack)
            &&& supported.contains(facts.state_root_filesystem@)
            &&& facts.repository is Some ==> supported.contains(facts.repository->0.filesystem@)
        },
        facts.platform != config.deployment.platform ==> reported(
            deployment_issues(config, facts),
            "deployment.platform"@,
        ),
        !facts.service_manager_supported ==> reported(
            deployment_issues(config, facts),
            "deployment.service_manager"@,
        ),
        !config.deployment.disable_forwarding ==> reported(
            deployment_issues(config, facts),
            "deployment.disable_forwarding"@,
        ),
        !texts(config.deployment.supported_filesystems@).contains(facts.state_root_filesystem@)
            ==> reported(deployment_issues(config, facts), "paths.state_root"@),
{
    let supported = texts(config.deployment.supported_filesystems@);
    assert(supported.len() == config.deployment.supported_filesystems@.len());
    lemma_reported("deployment.platform"@);
    lemma_reported("deployment.service_manager"@);
    lemma_reported("deployment.disable_forwarding"@);
    lemma_reported("paths.state_root"@);
}

/// What Git must be told of an authoritative repository: it checks what it receives, hides the
/// relay's references from every service, gives out no object that is asked for by its id alone,
/// and writes all that it stores to the disk.
pub proof fn law_required_settings()
    ensures
        required_config().len() == 9,
        required_config().contains(("receive.fsckObjects"@, "true"@)),
        required_config().contains(("transfer.hideRefs"@, "refs/git-relay"@)),
        required_config().contains(("uploadpack.hideRefs"@, "refs/git-relay"@)),
        required_config().contains(("receive.hideRefs"@, "refs/git-relay"@)),
        required_config().contains(("uploadpack.allowReachableSHA1InWant"@, "false"@)),
        required_config().contains(("uploadpack.allowAnySHA1InWant"@, "false"@)),
        required_config().contains(("uploadpack.allowTipSHA1InWant"@, "false"@)),
        required_config().contains(("core.fsync"@, "all"@)),
        required_config().contains(("core.fsyncMethod"@, "fsync"@)),
{
    let all = required_config();
    assert(all[0] == ("receive.fsckObjects"@, "true"@));
    assert(all[1] == ("transfer.hideRefs"@, "refs/git-relay"@));
    assert(all[2] == ("uploadpack.hideRefs"@, "refs/git-relay"@));
    assert(all[3] == ("receive.hideRefs"@, "refs/git-relay"@));
    assert(all[4] == ("uploadpack.allowReachableSHA1InWant"@, "false"@));
    assert(all[5] == ("uploadpack.allowAnySHA1InWant"@, "false"@));
    assert(all[6] == ("uploadpack.allowTipSHA1InWant"@, "false"@));
    assert(all[7] == ("core.fsync"@, "all"@));
    assert(all[8] == ("core.fsyncMethod"@, "fsync"@));
}

/// An authoritative repository is without issue of its own exactly where it keeps its tracking
/// references hidden in itself, has an upstream to write to, exists, is bare, and has each required
/// setting with its value; a setting that is missing or differs is reported under its key.
pub proof fn law_sound_authorities(d: RepositoryDescriptor, facts: RepositoryFacts)
    ensures
        authoritative_issues(d, facts).len() == 0 <==> {
            &&& d.tracking_refs == TrackingRefPlacement::SameRepoHidden
            &&& d.write_upstreams@.len() > 0
            &&& facts.repository is Some
            &&& facts.repository->0.bare_answer@ == "true"@
            &&& forall|i: int|
                0 <= i < required_config().len() ==> facts.repository->0.config_answers@[i] is Some
                    && facts.repository->0.config_answers@[i]->0@ == (
                #[trigger] required_config()[i]).1
        },
        facts.repository matches Some(state) ==> state.bare_answer@ == "true"@ ==> forall|i: int|
            0 <= i < required_config().len() && !(state.config_answers@[i] is Some
                && state.config_answers@[i]->0@ == (#[trigger] required_config()[i]).1) ==> reported(
                authoritative_issues(d, facts),
                required_config()[i].0,
            ),
{
    if facts.repository is Some {
        let answers = facts.repository->0.config_answers@;
        let n = required_config().len() as int;
        lemma_settings(answers, n);
        if facts.repository->0.bare_answer@ == "true"@ {
            assert forall|i: int|
                0 <= i < n && !(answers[i] is Some && answers[i]->0@ == (
                #[trigger] required_config()[i]).1) implies reported(
                authoritative_issues(d, facts),
                required_config()[i].0,
            ) by {
                lemma_reported(required_config()[i].0);
            }
        }
    }
}

/// A cache is without issue of its own exactly where it exists and is bare.
pub proof fn law_sound_caches(facts: RepositoryFacts)
    ensures
        cache_only_issues(facts).len() == 0 <==> facts.repository is Some
            && facts.repository->0.bare_answer@ == "true"@,
{
}

/// A repository meets its contract exactly where neither its descriptor nor the deployment has an
/// issue, nor the repository one of its kind; it takes writes exactly where it does, is
/// authoritative, and is ready.
pub proof fn law_contract(
    config: AppConfig,
    d: RepositoryDescriptor,
    facts: RepositoryFacts,
    report: ValidationReport,
)
    requires
        reports(report, d, all_issues(config, d, facts)),
    ensures
        report.repo_id@ == d.repo_id@,
        report.status == ValidationStatus::Passed <==> report.issues@.len() == 0,
        report.status == ValidationStatus::Passed <==> shape_issues(config, d).len() == 0
            && deployment_issues(config, facts).len() == 0 && (d.mode
            == RepositoryMode::Authoritative ==> authoritative_issues(d, facts).len() == 0) && (
        d.mode == RepositoryMode::CacheOnly ==> cache_only_issues(facts).len() == 0),
        report.write_acceptance_allowed <==> report.status == ValidationStatus::Passed && d.mode
            == RepositoryMode::Authoritative && d.lifecycle == RepositoryLifecycle::Ready,
{
    assert(issue_texts(report.issues@).len() == report.issues@.len());
}

/// What Git is asked of a repository: whether it is bare, and for one setting by its key.
pub proof fn law_repository_questions(key: Seq<char>)
    ensures
        bare_query() == seq!["rev-parse"@, "--is-bare-repository"@],
        config_query(key) == seq!["config"@, "--get"@, key],
{
}

/// An upstream without a profile needs none, and a profile that an upstream names is known where
/// the configuration lists it.
pub proof fn law_known_profiles(profiles: Seq<AuthProfileEntry>, name: String, i: int)
    requires
        0 <= i < profiles.len(),
    ensures
        profile_known(profiles, None),
        profiles[i].name@ == name@ ==> profile_known(profiles, Some(name)),
        !profile_known(Seq::empty(), Some(name)),
        profile_known(profiles, Some(name)) && profiles[i].name@ != name@ ==> profile_known(
            profiles.remove(i),
            Some(name),
        ),
{
    if profile_known(profiles, Some(name)) && profiles[i].name@ != name@ {
        let k = choose|k: int| 0 <= k < profiles.len() && (#[trigger] profiles[k]).name@ == name@;
        let at = if k < i {
            k
        } else {
            k - 1
        };
        assert(profiles.remove(i)[at].name@ == name@);
    }
}

} // verus!
