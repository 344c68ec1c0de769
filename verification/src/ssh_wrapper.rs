//! What a forced SSH command may do: which service it asks for, on which repository, and whether
//! it is allowed.

use crate::config::{
    lifecycle_name, lifecycle_text, ConfigError, RepositoryDescriptor, RepositoryLifecycle,
    RepositoryMode,
};
use crate::git::GitExecutor;
use crate::hooks::{
    find_descriptor_for_repo, issue_details, join_issues, may_find, place_index, RepositoryScene,
};
use crate::path::{self, absolute, joined_path, under};
use crate::platform::PlatformProbe;
use crate::reconcile::{DivergenceMarker, ReconcileError};
use crate::text::{concat2, concat3, concat4, concat5, join, joined, same, texts};
use crate::validator::{issue_texts, ValidationInfrastructureError, Validator};
use vstd::prelude::*;

verus! {

#[derive(Debug, Clone, PartialEq, Eq)]
pub struct ResolvedSshCommand {
    pub service: String,
    pub repo_path: String,
}

#[derive(Debug, Clone, PartialEq, Eq)]
pub struct AuthorizedSshCommand {
    pub service: String,
    pub repo_id: String,
    pub repo_mode: RepositoryMode,
    pub repo_path: String,
}

#[derive(Debug, Clone)]
pub enum SshWrapperError {
    MalformedCommand(String),
    UnsupportedService(String),
    CanonicalizeRepoRoot { path: String, error: String },
    CanonicalizeRepoPath { path: String, error: String },
    RepoOutsideRoot { repo_root: String, repo_path: String },
}

#[derive(Debug, Clone)]
pub enum SshAuthorizationError {
    UnsupportedService(String),
    RepositoryNotConfigured(String),
    LifecycleNotReady { repo_id: String, lifecycle: RepositoryLifecycle },
    WritesRequireAuthoritative { repo_id: String },
    ValidationFailed { repo_id: String, details: String },
    RepositoryDivergent { repo_id: String, upstreams: String },
    ReconcileState(ReconcileError),
    ValidationInfra(ValidationInfrastructureError),
}

#[derive(Debug, Clone)]
pub enum ResolveAndAuthorizeError {
    Config(ConfigError),
    Resolve(SshWrapperError),
    Authorization(SshAuthorizationError),
}

impl SshWrapperError {
    pub open spec fn message_text(self) -> Seq<char> {
        match self {
            SshWrapperError::MalformedCommand(command) => "malformed SSH original command "@ + command@,
            SshWrapperError::UnsupportedService(service) => "unsupported SSH service "@ + service@ + "; only git-upload-pack and git-receive-pack are allowed"@,
            SshWrapperError::CanonicalizeRepoRoot { path, error } => "failed to canonicalize repo root "@ + path@ + ": "@ + error@,
            SshWrapperError::CanonicalizeRepoPath { path, error } => "failed to canonicalize repo path "@ + path@ + ": "@ + error@,
            SshWrapperError::RepoOutsideRoot { repo_root, repo_path } => "requested repository "@ + repo_path@ + " is outside the configured repo root "@ + repo_root@,
        }
    }

    /// The error in words.
    pub fn message(&self) -> (r: String)
        ensures
            r@ == self.message_text(),
    {
        match self {
            SshWrapperError::MalformedCommand(command) => concat2("malformed SSH original command ", command),
            SshWrapperError::UnsupportedService(service) => concat3("unsupported SSH service ", service, "; only git-upload-pack and git-receive-pack are allowed"),
            SshWrapperError::CanonicalizeRepoRoot { path, error } => concat4("failed to canonicalize repo root ", path, ": ", error),
            SshWrapperError::CanonicalizeRepoPath { path, error } => concat4("failed to canonicalize repo path ", path, ": ", error),
            SshWrapperError::RepoOutsideRoot { repo_root, repo_path } => concat4("requested repository ", repo_path, " is outside the configured repo root ", repo_root),
        }
    }
}

impl SshAuthorizationError {
    pub open spec fn message_text(self) -> Seq<char> {
        match self {
            SshAuthorizationError::UnsupportedService(service) => "unsupported SSH service "@ + service@,
            SshAuthorizationError::RepositoryNotConfigured(path) => "repository "@ + path@ + " is not configured in the descriptor set"@,
            SshAuthorizationError::LifecycleNotReady { repo_id, lifecycle } => "repository "@ + repo_id@ + " is "@ + lifecycle_text(lifecycle) + " and not ready for normal traffic"@,
            SshAuthorizationError::WritesRequireAuthoritative { repo_id } => "repository "@ + repo_id@ + " is not authoritative and cannot accept writes"@,
            SshAuthorizationError::ValidationFailed { repo_id, details } => "repository "@ + repo_id@ + " failed validator re-check before write acceptance: "@ + details@,
            SshAuthorizationError::RepositoryDivergent { repo_id, upstreams } => "repository "@ + repo_id@ + " is divergent for upstreams ["@ + upstreams@ + "] and blocks new writes until repaired"@,
            SshAuthorizationError::ReconcileState(error) => "failed to inspect repository reconcile state before SSH authorization: "@ + error.message_text(),
            SshAuthorizationError::ValidationInfra(error) => "validator infrastructure failed during SSH authorization: "@ + error.message_text(),
        }
    }

    /// The error in words.
    pub fn message(&self) -> (r: String)
        ensures
            r@ == self.message_text(),
    {
        match self {
            SshAuthorizationError::UnsupportedService(service) => concat2("unsupported SSH service ", service),
            SshAuthorizationError::RepositoryNotConfigured(path) => concat3("repository ", path, " is not configured in the descriptor set"),
            SshAuthorizationError::LifecycleNotReady { repo_id, lifecycle } => concat5("repository ", repo_id, " is ", lifecycle_name(*lifecycle), " and not ready for normal traffic"),
            SshAuthorizationError::WritesRequireAuthoritative { repo_id } => concat3("repository ", repo_id, " is not authoritative and cannot accept writes"),
            SshAuthorizationError::ValidationFailed { repo_id, details } => concat4("repository ", repo_id, " failed validator re-check before write acceptance: ", details),
            SshAuthorizationError::RepositoryDivergent { repo_id, upstreams } => concat5("repository ", repo_id, " is divergent for upstreams [", upstreams, "] and blocks new writes until repaired"),
            SshAuthorizationError::ReconcileState(error) => concat2("failed to inspect repository reconcile state before SSH authorization: ", &error.message()),
            SshAuthorizationError::ValidationInfra(error) => concat2("validator infrastructure failed during SSH authorization: ", &error.message()),
        }
    }
}

impl ResolveAndAuthorizeError {
    pub open spec fn message_text(self) -> Seq<char> {
        match self {
            ResolveAndAuthorizeError::Config(error) => error.message_text(),
            ResolveAndAuthorizeError::Resolve(error) => error.message_text(),
            ResolveAndAuthorizeError::Authorization(error) => error.message_text(),
        }
    }

    /// The error in words.
    pub fn message(&self) -> (r: String)
        ensures
            r@ == self.message_text(),
    {
        match self {
            ResolveAndAuthorizeError::Config(error) => error.message(),
            ResolveAndAuthorizeError::Resolve(error) => error.message(),
            ResolveAndAuthorizeError::Authorization(error) => error.message(),
        }
    }
}

// ---------------------------------------------------------------------------
// What a command asks for

/// The words that `shlex` splits a command line into; `None` where it ends inside a quotation or
/// right after a backslash.
pub uninterp spec fn shell_words(text: Seq<char>) -> Option<Seq<Seq<char>>>;

/// Splits a command line with `shlex::split`, by the rules of a POSIX shell. What comes back
/// depends on the text alone.
#[verifier::external_body]
fn split_words(text: &str) -> (r: Option<Vec<String>>)
    ensures
        match r {
            Some(words) => shell_words(text@) == Some(texts(words@)),
            None => shell_words(text@) is None,
        },
{
    shlex::split(text)
}

/// A service of Git, and the repository that it is asked for.
#[derive(Debug, Clone, PartialEq, Eq)]
pub struct SshRequest {
    pub service: String,
    pub requested_repo: String,
}

pub open spec fn is_git_service(service: Seq<char>) -> bool {
    service == "git-upload-pack"@ || service == "git-receive-pack"@
}

/// Whether `r` is what the words of a command ask for: a service of Git on one repository.
pub open spec fn asks_for(
    words: Option<Seq<Seq<char>>>,
    command: Seq<char>,
    r: Result<SshRequest, SshWrapperError>,
) -> bool {
    match r {
        Ok(request) => {
            &&& words is Some
            &&& words->0 == seq![request.service@, request.requested_repo@]
            &&& is_git_service(request.service@)
        },
        Err(SshWrapperError::MalformedCommand(text)) => {
            &&& words is None || words->0.len() != 2
            &&& text@ == command
        },
        Err(SshWrapperError::UnsupportedService(service)) => {
            &&& words is Some
            &&& words->0.len() == 2
            &&& !is_git_service(words->0[0])
            &&& service@ == words->0[0]
        },
        Err(_) => false,
    }
}

/// What the words of a command ask for.
pub fn read_words(words: Option<Vec<String>>, original_command: &str) -> (r: Result<
    SshRequest,
    SshWrapperError,
>)
    ensures
        asks_for(
            match words {
                Some(words) => Some(texts(words@)),
                None => None,
            },
            original_command@,
            r,
        ),
{
    let words = match words {
        Some(words) => words,
        None => {
            return Err(SshWrapperError::MalformedCommand(original_command.to_owned()));
        },
    };
    assert(texts(words@).len() == words@.len());
    if words.len() != 2 {
        return Err(SshWrapperError::MalformedCommand(original_command.to_owned()));
    }
    let service = words[0].clone();
    let requested_repo = words[1].clone();
    proof {
        assert(texts(words@)[0] == service@);
        assert(texts(words@) =~= seq![service@, requested_repo@]);
    }
    if !same(&service, "git-upload-pack") && !same(&service, "git-receive-pack") {
        return Err(SshWrapperError::UnsupportedService(service));
    }
    Ok(SshRequest { service, requested_repo })
}

/// What a command asks for.
pub fn parse_ssh_command(original_command: &str) -> (r: Result<SshRequest, SshWrapperError>)
    ensures
        asks_for(shell_words(original_command@), original_command@, r),
{
    read_words(split_words(original_command), original_command)
}

/// Where the repository that a command names lies.
pub open spec fn candidate(repo_root: Seq<char>, requested: Seq<char>) -> Seq<char> {
    if absolute(requested) {
        requested
    } else {
        joined_path(repo_root, requested)
    }
}

/// Where the repository that a command names lies.
pub fn candidate_repo(repo_root: &str, request: &SshRequest) -> (r: String)
    ensures
        r@ == candidate(repo_root@, request.requested_repo@),
{
    if path::is_absolute(&request.requested_repo) {
        request.requested_repo.clone()
    } else {
        path::join(repo_root, &request.requested_repo)
    }
}

/// Whether `r` is what a request comes to on the repository that was found for it. Each path is
/// what resolving it gave, or why that failed.
pub open spec fn found_for(
    configured_root: Seq<char>,
    request: SshRequest,
    repo_root: Result<String, String>,
    repo_path: Result<String, String>,
    r: Result<ResolvedSshCommand, SshWrapperError>,
) -> bool {
    match (repo_root, repo_path) {
        (Err(said), _) => r matches Err(SshWrapperError::CanonicalizeRepoRoot { path, error })
            && path@ == configured_root && error == said,
        (Ok(root), Err(said)) => r matches Err(
            SshWrapperError::CanonicalizeRepoPath { path, error },
        ) && path@ == candidate(root@, request.requested_repo@) && error == said,
        (Ok(root), Ok(found)) => if under(found@, root@) {
            r matches Ok(resolved) && resolved.service@ == request.service@ && resolved.repo_path
                == found
        } else {
            r matches Err(SshWrapperError::RepoOutsideRoot { repo_root: said, repo_path: there })
                && said == root && there == found
        },
    }
}

/// Whether `r` is what a command comes to: what is wrong with the command itself, or else what its
/// request comes to.
pub open spec fn resolves(
    configured_root: Seq<char>,
    command: Seq<char>,
    repo_root: Result<String, String>,
    repo_path: Result<String, String>,
    r: Result<ResolvedSshCommand, SshWrapperError>,
) -> bool {
    exists|parsed: Result<SshRequest, SshWrapperError>| #[trigger]
        asks_for(shell_words(command), command, parsed) && match parsed {
            Ok(request) => found_for(configured_root, request, repo_root, repo_path, r),
            Err(error) => r == Err::<ResolvedSshCommand, _>(error),
        }
}

/// What a command comes to. `repo_root` is what resolving the configured root gave, and
/// `repo_path` what resolving the repository that the command names under it gave.
pub fn resolve_ssh_command(
    configured_root: &str,
    original_command: &str,
    repo_root: Result<String, String>,
    repo_path: Result<String, String>,
) -> (r: Result<ResolvedSshCommand, SshWrapperError>)
    ensures
        resolves(configured_root@, original_command@, repo_root, repo_path, r),
{
    let parsed = parse_ssh_command(original_command);
    let ghost read = parsed;
    assert(asks_for(shell_words(original_command@), original_command@, read));
    let request = match parsed {
        Ok(request) => request,
        Err(error) => {
            return Err(error);
        },
    };
    let root = match repo_root {
        Ok(root) => root,
        Err(error) => {
            return Err(
                SshWrapperError::CanonicalizeRepoRoot { path: configured_root.to_owned(), error },
            );
        },
    };
    let found = match repo_path {
        Ok(found) => found,
        Err(error) => {
            let path = candidate_repo(&root, &request);
            return Err(SshWrapperError::CanonicalizeRepoPath { path, error });
        },
    };
    if !path::starts_with(&found, &root) {
        return Err(SshWrapperError::RepoOutsideRoot { repo_root: root, repo_path: found });
    }
    Ok(ResolvedSshCommand { service: request.service, repo_path: found })
}

// ---------------------------------------------------------------------------
// What a command may do

/// Whether a command is allowed, as far as can be told without the relay's record of divergence.
#[derive(Debug, Clone, PartialEq, Eq)]
pub enum SshVerdict {
    /// It is.
    Authorized(AuthorizedSshCommand),
    /// It is where no upstream has diverged.
    UnlessDivergent(AuthorizedSshCommand),
}

/// Whether `command` is what `resolved` comes to on a repository.
pub open spec fn is_command(
    command: AuthorizedSshCommand,
    resolved: ResolvedSshCommand,
    descriptor: RepositoryDescriptor,
) -> bool {
    &&& command.service@ == resolved.service@
    &&& command.repo_id@ == descriptor.repo_id@
    &&& command.repo_mode == descriptor.mode
    &&& command.repo_path@ == descriptor.repo_path@
}

/// What may come of a command on a repository.
pub open spec fn authorized<G: GitExecutor, P: PlatformProbe>(
    git: &G,
    platform: &P,
    scene: RepositoryScene,
    k: int,
    resolved: ResolvedSshCommand,
    r: Result<SshVerdict, SshAuthorizationError>,
) -> bool {
    let descriptor = scene.descriptors@[k];
    let ready = descriptor.lifecycle == RepositoryLifecycle::Ready;
    let reads = resolved.service@ == "git-upload-pack"@;
    let writes = resolved.service@ == "git-receive-pack"@;
    match r {
        Ok(SshVerdict::Authorized(command)) => {
            &&& ready
            &&& reads
            &&& is_command(command, resolved, descriptor)
        },
        Ok(SshVerdict::UnlessDivergent(command)) => {
            &&& ready
            &&& writes
            &&& descriptor.mode == RepositoryMode::Authoritative
            &&& may_find(
                git,
                platform,
                scene.config,
                descriptor,
                scene.path_exists@[k],
                Seq::empty(),
            )
            &&& is_command(command, resolved, descriptor)
        },
        Err(SshAuthorizationError::LifecycleNotReady { repo_id, lifecycle }) => {
            &&& !ready
            &&& repo_id@ == descriptor.repo_id@
            &&& lifecycle == descriptor.lifecycle
        },
        Err(SshAuthorizationError::WritesRequireAuthoritative { repo_id }) => {
            &&& ready
            &&& writes
            &&& descriptor.mode != RepositoryMode::Authoritative
            &&& repo_id@ == descriptor.repo_id@
        },
        Err(SshAuthorizationError::ValidationFailed { repo_id, details }) => {
            &&& ready
            &&& writes
            &&& descriptor.mode == RepositoryMode::Authoritative
            &&& repo_id@ == descriptor.repo_id@
            &&& exists|issues: Seq<(Seq<char>, Seq<char>)>|
                {
                    &&& issues.len() > 0
                    &&& #[trigger] may_find(
                        git,
                        platform,
                        scene.config,
                        descriptor,
                        scene.path_exists@[k],
                        issues,
                    )
                    &&& details@ == issue_details(issues)
                }
        },
        Err(SshAuthorizationError::ValidationInfra(error)) => {
            &&& ready
            &&& writes
            &&& descriptor.mode == RepositoryMode::Authoritative
            &&& (Validator { git, platform }).may_fail(
                scene.config,
                descriptor,
                scene.path_exists@[k],
                error,
            )
        },
        Err(SshAuthorizationError::UnsupportedService(service)) => {
            &&& ready
            &&& !reads
            &&& !writes
            &&& service@ == resolved.service@
        },
        Err(_) => false,
    }
}

fn command_on(resolved: ResolvedSshCommand, descriptor: &RepositoryDescriptor) -> (r:
    AuthorizedSshCommand)
    ensures
        is_command(r, resolved, *descriptor),
{
    AuthorizedSshCommand {
        service: resolved.service,
        repo_id: descriptor.repo_id.clone(),
        repo_mode: descriptor.mode,
        repo_path: descriptor.repo_path.clone(),
    }
}

/// Whether `r` may be what becomes of a command: its repository must be configured, and the command
/// be allowed on it.
pub open spec fn judged<G: GitExecutor, P: PlatformProbe>(
    git: &G,
    platform: &P,
    scene: RepositoryScene,
    resolved: ResolvedSshCommand,
    r: Result<SshVerdict, SshAuthorizationError>,
) -> bool {
    let k = place_index(scene.resolved_paths@, resolved.repo_path@, 0);
    if k >= scene.descriptors@.len() {
        r matches Err(SshAuthorizationError::RepositoryNotConfigured(path)) && path@
            == resolved.repo_path@
    } else {
        authorized(git, platform, scene, k, resolved, r)
    }
}

/// Whether a command is allowed. The repository must be configured and ready; a write also needs
/// an authoritative repository that meets its contract.
pub fn authorize_ssh_command<G: GitExecutor, P: PlatformProbe>(
    scene: &RepositoryScene,
    resolved: ResolvedSshCommand,
    git: &G,
    platform: &P,
) -> (r: Result<SshVerdict, SshAuthorizationError>)
    requires
        scene.wf(),
    ensures
        judged(git, platform, *scene, resolved, r),
{
    let k = find_descriptor_for_repo(&scene.resolved_paths, &resolved.repo_path);
    if k >= scene.descriptors.len() {
        return Err(SshAuthorizationError::RepositoryNotConfigured(resolved.repo_path));
    }
    let descriptor = &scene.descriptors[k];
    if descriptor.lifecycle != RepositoryLifecycle::Ready {
        return Err(
            SshAuthorizationError::LifecycleNotReady {
                repo_id: descriptor.repo_id.clone(),
                lifecycle: descriptor.lifecycle,
            },
        );
    }
    if same(&resolved.service, "git-upload-pack") {
        return Ok(SshVerdict::Authorized(command_on(resolved, descriptor)));
    }
    if !same(&resolved.service, "git-receive-pack") {
        return Err(SshAuthorizationError::UnsupportedService(resolved.service));
    }
    if descriptor.mode != RepositoryMode::Authoritative {
        return Err(
            SshAuthorizationError::WritesRequireAuthoritative {
                repo_id: descriptor.repo_id.clone(),
            },
        );
    }
    let validator = Validator::new(git, platform);
    let report = match validator.validate(&scene.config, descriptor, scene.path_exists[k]) {
        Ok(report) => report,
        Err(error) => {
            return Err(SshAuthorizationError::ValidationInfra(error));
        },
    };
    assert(may_find(
        git,
        platform,
        scene.config,
        *descriptor,
        scene.path_exists@[k as int],
        issue_texts(report.issues@),
    ));
    if !report.passed() {
        return Err(
            SshAuthorizationError::ValidationFailed {
                repo_id: descriptor.repo_id.clone(),
                details: join_issues(&report.issues),
            },
        );
    }
    assert(issue_texts(report.issues@) =~= Seq::empty());
    Ok(SshVerdict::UnlessDivergent(command_on(resolved, descriptor)))
}

/// What becomes of a command from its text on: it is resolved, and then it must be allowed. The
/// paths are as `resolve_ssh_command` takes them.
pub fn resolve_and_authorize_ssh_command<G: GitExecutor, P: PlatformProbe>(
    scene: &RepositoryScene,
    original_command: &str,
    repo_root: Result<String, String>,
    repo_path: Result<String, String>,
    git: &G,
    platform: &P,
) -> (r: Result<SshVerdict, ResolveAndAuthorizeError>)
    requires
        scene.wf(),
    ensures
        exists|resolved: Result<ResolvedSshCommand, SshWrapperError>| #[trigger]
            resolves(
                scene.config.paths.repo_root@,
                original_command@,
                repo_root,
                repo_path,
                resolved,
            ) && match resolved {
                Err(error) => r == Err::<SshVerdict, _>(ResolveAndAuthorizeError::Resolve(error)),
                Ok(command) => match r {
                    Ok(verdict) => judged(git, platform, *scene, command, Ok(verdict)),
                    Err(ResolveAndAuthorizeError::Authorization(error)) => judged(
                        git,
                        platform,
                        *scene,
                        command,
                        Err(error),
                    ),
                    Err(_) => false,
                },
            },
{
    let resolved = resolve_ssh_command(
        &scene.config.paths.repo_root,
        original_command,
        repo_root,
        repo_path,
    );
    let ghost came = resolved;
    assert(resolves(
        scene.config.paths.repo_root@,
        original_command@,
        repo_root,
        repo_path,
        came,
    ));
    match resolved {
        Err(error) => Err(ResolveAndAuthorizeError::Resolve(error)),
        Ok(command) => match authorize_ssh_command(scene, command, git, platform) {
            Ok(verdict) => Ok(verdict),
            Err(error) => Err(ResolveAndAuthorizeError::Authorization(error)),
        },
    }
}

pub open spec fn divergent_upstreams(markers: Seq<DivergenceMarker>) -> Seq<Seq<char>> {
    Seq::new(markers.len(), |i: int| markers[i].upstream_id@)
}

/// Whether a write is allowed, once it is known which upstreams have diverged.
pub fn conclude_authorization(command: AuthorizedSshCommand, markers: &Vec<DivergenceMarker>) -> (r:
    Result<AuthorizedSshCommand, SshAuthorizationError>)
    ensures
        match r {
            Ok(allowed) => markers@.len() == 0 && allowed == command,
            Err(SshAuthorizationError::RepositoryDivergent { repo_id, upstreams }) => {
                &&& markers@.len() > 0
                &&& repo_id == command.repo_id
                &&& upstreams@ == joined(divergent_upstreams(markers@), ", "@)
            },
            Err(_) => false,
        },
{
    if markers.len() == 0 {
        return Ok(command);
    }
    let mut names: Vec<String> = Vec::new();
    let mut i: usize = 0;
    while i < markers.len()
        invariant
            i <= markers@.len(),
            names@.len() == i,
            forall|j: int| 0 <= j < i ==> names@[j]@ == #[trigger] markers@[j].upstream_id@,
        decreases markers@.len() - i,
    {
        names.push(markers[i].upstream_id.clone());
        i += 1;
    }
    assert(texts(names@) =~= divergent_upstreams(markers@));
    Err(
        SshAuthorizationError::RepositoryDivergent {
            repo_id: command.repo_id,
            upstreams: join(&names, ", "),
        },
    )
}

/// A command that does not only read passes only on an authoritative repository that is ready and
/// was found to meet its contract, and never before it is known which upstreams have diverged.
pub proof fn law_writes_are_gated<G: GitExecutor, P: PlatformProbe>(
    git: &G,
    platform: &P,
    scene: RepositoryScene,
    k: int,
    resolved: ResolvedSshCommand,
    verdict: SshVerdict,
)
    requires
        resolved.service@ != "git-upload-pack"@,
        authorized(git, platform, scene, k, resolved, Ok(verdict)),
    ensures
        verdict is UnlessDivergent,
        resolved.service@ == "git-receive-pack"@,
        scene.descriptors@[k].mode == RepositoryMode::Authoritative,
        scene.descriptors@[k].lifecycle == RepositoryLifecycle::Ready,
        may_find(
            git,
            platform,
            scene.config,
            scene.descriptors@[k],
            scene.path_exists@[k],
            Seq::empty(),
        ),
{
}

/// What a command is resolved to lies under the resolved root, whatever the command names.
pub proof fn law_resolved_repositories_lie_under_the_root(
    configured_root: Seq<char>,
    command: Seq<char>,
    repo_root: Result<String, String>,
    repo_path: Result<String, String>,
    resolved: ResolvedSshCommand,
)
    requires
        resolves(configured_root, command, repo_root, repo_path, Ok(resolved)),
    ensures
        repo_root is Ok,
        under(resolved.repo_path@, repo_root->Ok_0@),
        is_git_service(resolved.service@),
{
}

/// A command is a request exactly where it is two words of which the first is one of Git's two
/// services, for fetching and for pushing; it then asks for that service on what the second names.
pub proof fn law_requests_are_two_words(
    words: Seq<Seq<char>>,
    command: Seq<char>,
    r: Result<SshRequest, SshWrapperError>,
)
    requires
        asks_for(Some(words), command, r),
    ensures
        r is Ok <==> words.len() == 2 && (words[0] == "git-upload-pack"@ || words[0]
            == "git-receive-pack"@),
        r matches Ok(request) ==> request.service@ == words[0] && request.requested_repo@
            == words[1],
        words.len() != 2 ==> r is Err && r->Err_0 is MalformedCommand,
        words.len() == 2 && r is Err ==> r->Err_0 is UnsupportedService,
{
}

/// A command that cannot be split into words is no request.
pub proof fn law_unsplit_commands_are_refused(
    command: Seq<char>,
    r: Result<SshRequest, SshWrapperError>,
)
    requires
        asks_for(None, command, r),
    ensures
        r is Err,
        r->Err_0 is MalformedCommand,
        r->Err_0->MalformedCommand_0@ == command,
{
}

/// A request finds its repository under the root or by an absolute path, and comes to it where it
/// lies under the root; one outside the root is refused, wherever it was named.
pub proof fn law_requests_find_their_repository(
    configured_root: Seq<char>,
    request: SshRequest,
    root: String,
    found: String,
    r: Result<ResolvedSshCommand, SshWrapperError>,
)
    requires
        found_for(configured_root, request, Ok(root), Ok(found), r),
    ensures
        r is Ok <==> under(found@, root@),
        r matches Ok(resolved) ==> resolved.service@ == request.service@ && resolved.repo_path@
            == found@,
        r is Err ==> r->Err_0 is RepoOutsideRoot,
        request.requested_repo@.len() > 0 && request.requested_repo@[0] == '/' ==> candidate(
            root@,
            request.requested_repo@,
        ) == request.requested_repo@,
        root@.len() > 0 && root@.last() != '/' && (request.requested_repo@.len() == 0
            || request.requested_repo@[0] != '/') ==> candidate(root@, request.requested_repo@)
            == root@ + seq!['/'] + request.requested_repo@,
{
    if root@.len() > 0 && root@.last() != '/' {
        path::law_joined_paths(root@, request.requested_repo@);
    }
}

proof fn lemma_place(paths: Seq<Option<String>>, repo: Seq<char>, from: int, k: int)
    requires
        0 <= from <= k < paths.len(),
        paths[k] is Some,
        path::same_place(paths[k]->0@, repo),
        forall|j: int|
            from <= j < k ==> (#[trigger] paths[j] is None || !path::same_place(
                paths[j]->0@,
                repo,
            )),
    ensures
        place_index(paths, repo, from) == k,
    decreases k - from,
{
    if from < k {
        assert(paths[from] is None || !path::same_place(paths[from]->0@, repo));
        lemma_place(paths, repo, from + 1, k);
    }
}

/// What is allowed on a configured repository. Each that is ready can be fetched from, by everyone
/// and without a question; a push is refused to one that is not authoritative; nothing is allowed
/// on one that is not ready, and no other service on any.
pub proof fn law_fetches_are_allowed<G: GitExecutor, P: PlatformProbe>(
    git: &G,
    platform: &P,
    scene: RepositoryScene,
    k: int,
    resolved: ResolvedSshCommand,
    r: Result<SshVerdict, SshAuthorizationError>,
)
    requires
        scene.wf(),
        0 <= k < scene.descriptors@.len(),
        scene.resolved_paths@[k] is Some,
        path::same_place(scene.resolved_paths@[k]->0@, resolved.repo_path@),
        forall|j: int|
            0 <= j < k ==> (#[trigger] scene.resolved_paths@[j] is None || !path::same_place(
                scene.resolved_paths@[j]->0@,
                resolved.repo_path@,
            )),
        judged(git, platform, scene, resolved, r),
    ensures
        ({
            let d = scene.descriptors@[k];
            let ready = d.lifecycle == RepositoryLifecycle::Ready;
            &&& ready && resolved.service@ == "git-upload-pack"@ ==> r is Ok && r->Ok_0
                is Authorized && r->Ok_0->Authorized_0.service@ == resolved.service@
                && r->Ok_0->Authorized_0.repo_id@ == d.repo_id@ && r->Ok_0->Authorized_0.repo_path@
                == d.repo_path@ && r->Ok_0->Authorized_0.repo_mode == d.mode
            &&& !ready ==> r is Err && r->Err_0 is LifecycleNotReady
            &&& ready && resolved.service@ == "git-receive-pack"@ && d.mode
                != RepositoryMode::Authoritative ==> r is Err && r->Err_0
                is WritesRequireAuthoritative
            &&& ready && resolved.service@ == "git-receive-pack"@ && d.mode
                == RepositoryMode::Authoritative && r is Err ==> r->Err_0 is ValidationFailed
                || r->Err_0 is ValidationInfra
            &&& ready && resolved.service@ == "git-receive-pack"@ && r is Ok ==> r->Ok_0
                is UnlessDivergent && r->Ok_0->UnlessDivergent_0.repo_id@ == d.repo_id@
                && r->Ok_0->UnlessDivergent_0.service@ == resolved.service@
                && r->Ok_0->UnlessDivergent_0.repo_path@ == d.repo_path@
            &&& r is Ok ==> resolved.service@ == "git-upload-pack"@ || resolved.service@
                == "git-receive-pack"@
        }),
{
    lemma_place(scene.resolved_paths@, resolved.repo_path@, 0, k);
    reveal_strlit("git-upload-pack");
    reveal_strlit("git-receive-pack");
    assert("git-upload-pack"@.len() != "git-receive-pack"@.len());
}

proof fn lemma_no_place(paths: Seq<Option<String>>, repo: Seq<char>, from: int)
    requires
        0 <= from <= paths.len(),
        forall|j: int|
            from <= j < paths.len() ==> (#[trigger] paths[j] is None || !path::same_place(
                paths[j]->0@,
                repo,
            )),
    ensures
        place_index(paths, repo, from) == paths.len(),
    decreases paths.len() - from,
{
    if from < paths.len() {
        assert(paths[from] is None || !path::same_place(paths[from]->0@, repo));
        lemma_no_place(paths, repo, from + 1);
    }
}

/// Nothing is allowed on a repository that is not configured.
pub proof fn law_unknown_repositories_are_refused<G: GitExecutor, P: PlatformProbe>(
    git: &G,
    platform: &P,
    scene: RepositoryScene,
    resolved: ResolvedSshCommand,
    r: Result<SshVerdict, SshAuthorizationError>,
)
    requires
        scene.wf(),
        forall|j: int|
            0 <= j < scene.resolved_paths@.len() ==> (#[trigger] scene.resolved_paths@[j] is None
                || !path::same_place(scene.resolved_paths@[j]->0@, resolved.repo_path@)),
        judged(git, platform, scene, resolved, r),
    ensures
        r is Err,
        r->Err_0 is RepositoryNotConfigured,
{
    lemma_no_place(scene.resolved_paths@, resolved.repo_path@, 0);
}

} // verus!
