//! The Git hooks of an authoritative repository: their installation, and what a push must satisfy.

use crate::config::{
    AppConfig, ConfigError, RepositoryDescriptor, RepositoryLifecycle, RepositoryMode,
};
use crate::git::{ask4, may_answer, GitCommandError, GitExecutor};
use crate::path::{self, absolute, joined_path, same_place};
use crate::platform::PlatformProbe;
use crate::refs::{exported, internal, matches_exported_ref};
use crate::text::{
    begins, concat2, concat3, concat4, holds, is_blank, is_space, join, joined, law_words, lines,
    lines_of, replace, replaced, same, stands_at, starts_with, texts, trimmed, words, words_of,
};
use crate::validator::{
    all_issues, issue_texts, RepositoryFacts, ValidationInfrastructureError, ValidationIssue,
    Validator,
};
use vstd::prelude::*;

verus! {

#[derive(Debug, Clone, Copy, PartialEq, Eq, Structural)]
pub enum HookStatus {
    Accepted,
    Rejected,
}

/// A reference that a push moves.
#[derive(Debug, Clone, PartialEq, Eq)]
pub struct RefUpdate {
    pub old_oid: String,
    pub new_oid: String,
    pub ref_name: String,
}

#[derive(Debug, Clone, PartialEq, Eq)]
pub struct HookDispatchEvent {
    pub hook: String,
    pub repo: String,
    pub args: Vec<String>,
    pub updates: Vec<RefUpdate>,
    pub status: HookStatus,
    pub message: Option<String>,
}

impl HookDispatchEvent {
    pub fn accepted(&self) -> (r: bool)
        ensures
            r == (self.status == HookStatus::Accepted),
    {
        self.status == HookStatus::Accepted
    }
}

#[derive(Debug, Clone)]
pub enum HookInstallError {
    MissingRepository(String),
    RelativeDispatcher(String),
    RelativeConfigPath(String),
    CreateHooksDir { path: String, error: String },
    WriteHook { path: String, error: String },
    StatHook { path: String, error: String },
    ChmodHook { path: String, error: String },
}

#[derive(Debug, Clone)]
pub enum HookDispatchError {
    Config(ConfigError),
    UnsupportedHook(String),
    CanonicalizeRepo { path: String, error: String },
    RepositoryNotFound(String),
    ReadStdin(String),
    MalformedUpdateLine(String),
    Git(GitCommandError),
    ValidationInfra(ValidationInfrastructureError),
}

impl HookInstallError {
    pub open spec fn message_text(self) -> Seq<char> {
        match self {
            HookInstallError::MissingRepository(path) => "repository "@ + path@ + " does not exist"@,
            HookInstallError::RelativeDispatcher(path) => "dispatcher path must be absolute: "@ + path@,
            HookInstallError::RelativeConfigPath(path) => "config path must be absolute: "@ + path@,
            HookInstallError::CreateHooksDir { path, error } => "failed to create hooks directory "@ + path@ + ": "@ + error@,
            HookInstallError::WriteHook { path, error } => "failed to write hook "@ + path@ + ": "@ + error@,
            HookInstallError::StatHook { path, error } => "failed to stat hook "@ + path@ + ": "@ + error@,
            HookInstallError::ChmodHook { path, error } => "failed to chmod hook "@ + path@ + ": "@ + error@,
        }
    }

    /// The error in words.
    pub fn message(&self) -> (r: String)
        ensures
            r@ == self.message_text(),
    {
        match self {
            HookInstallError::MissingRepository(path) => concat3("repository ", path, " does not exist"),
            HookInstallError::RelativeDispatcher(path) => concat2("dispatcher path must be absolute: ", path),
            HookInstallError::RelativeConfigPath(path) => concat2("config path must be absolute: ", path),
            HookInstallError::CreateHooksDir { path, error } => concat4("failed to create hooks directory ", path, ": ", error),
            HookInstallError::WriteHook { path, error } => concat4("failed to write hook ", path, ": ", error),
            HookInstallError::StatHook { path, error } => concat4("failed to stat hook ", path, ": ", error),
            HookInstallError::ChmodHook { path, error } => concat4("failed to chmod hook ", path, ": ", error),
        }
    }
}

impl HookDispatchError {
    pub open spec fn message_text(self) -> Seq<char> {
        match self {
            HookDispatchError::Config(error) => error.message_text(),
            HookDispatchError::UnsupportedHook(hook) => "unsupported hook "@ + hook@,
            HookDispatchError::CanonicalizeRepo { path, error } => "failed to canonicalize repo "@ + path@ + ": "@ + error@,
            HookDispatchError::RepositoryNotFound(path) => "repository "@ + path@ + " is not configured in the descriptor set"@,
            HookDispatchError::ReadStdin(error) => "failed to read hook stdin: "@ + error@,
            HookDispatchError::MalformedUpdateLine(line) => "malformed hook update line: "@ + line@,
            HookDispatchError::Git(error) => "git command failed during hook validation: "@ + error.message_text(),
            HookDispatchError::ValidationInfra(error) => "repository contract validation failed: "@ + error.message_text(),
        }
    }

    /// The error in words.
    pub fn message(&self) -> (r: String)
        ensures
            r@ == self.message_text(),
    {
        match self {
            HookDispatchError::Config(error) => error.message(),
            HookDispatchError::UnsupportedHook(hook) => concat2("unsupported hook ", hook),
            HookDispatchError::CanonicalizeRepo { path, error } => concat4("failed to canonicalize repo ", path, ": ", error),
            HookDispatchError::RepositoryNotFound(path) => concat3("repository ", path, " is not configured in the descriptor set"),
            HookDispatchError::ReadStdin(error) => concat2("failed to read hook stdin: ", error),
            HookDispatchError::MalformedUpdateLine(line) => concat2("malformed hook update line: ", line),
            HookDispatchError::Git(error) => concat2("git command failed during hook validation: ", &error.message()),
            HookDispatchError::ValidationInfra(error) => concat2("repository contract validation failed: ", &error.message()),
        }
    }
}

// ---------------------------------------------------------------------------
// Installation

/// A word of a shell script that stands for `value`, whatever it holds.
pub open spec fn shell_quoted(value: Seq<char>) -> Seq<char> {
    "'"@ + replaced(value, '\'', "'\"'\"'"@) + "'"@
}

/// A word of a shell script that stands for `value`, whatever it holds.
pub fn shell_quote(value: &str) -> (r: String)
    ensures
        r@ == shell_quoted(value@),
{
    concat3("'", &replace(value, '\'', "'\"'\"'"), "'")
}

/// The script of a hook: it hands the hook, its repository and its arguments to the dispatcher.
pub open spec fn hook_script(
    hook_name: Seq<char>,
    repo_path: Seq<char>,
    dispatcher: Seq<char>,
    config_path: Seq<char>,
) -> Seq<char> {
    "#!/bin/sh\nset -eu\nrepo=\"${GIT_DIR:-"@ + shell_quoted(repo_path) + "}\"\nexec "@
        + shell_quoted(dispatcher) + " hook-dispatch --config "@ + shell_quoted(config_path)
        + " --hook "@ + shell_quoted(hook_name) + " --repo \"$repo\" \"$@\"\n"@
}

/// The script of a hook.
pub fn render_hook_script(
    hook_name: &str,
    repo_path: &str,
    dispatcher: &str,
    config_path: &str,
) -> (r: String)
    ensures
        r@ == hook_script(hook_name@, repo_path@, dispatcher@, config_path@),
{
    let head = concat4(
        "#!/bin/sh\nset -eu\nrepo=\"${GIT_DIR:-",
        &shell_quote(repo_path),
        "}\"\nexec ",
        &shell_quote(dispatcher),
    );
    let middle = concat4(
        &head,
        " hook-dispatch --config ",
        &shell_quote(config_path),
        " --hook ",
    );
    concat3(&middle, &shell_quote(hook_name), " --repo \"$repo\" \"$@\"\n")
}

/// A hook to be written: its file, its script, and the permissions of the file.
#[derive(Debug, Clone, PartialEq, Eq)]
pub struct HookFile {
    pub path: String,
    pub script: String,
    pub mode: u32,
}

/// The hooks that are installed.
pub open spec fn hook_names() -> Seq<Seq<char>> {
    seq!["pre-receive"@, "reference-transaction"@, "post-receive"@]
}

fn hook_file(hook_name: &str, repo_path: &str, dispatcher: &str, config_path: &str) -> (r: HookFile)
    ensures
        is_hook_file(r, hook_name@, repo_path@, dispatcher@, config_path@),
{
    HookFile {
        path: path::join(&path::join(repo_path, "hooks"), hook_name),
        script: render_hook_script(hook_name, repo_path, dispatcher, config_path),
        mode: 0o755,
    }
}

pub open spec fn is_hook_file(
    file: HookFile,
    hook_name: Seq<char>,
    repo_path: Seq<char>,
    dispatcher: Seq<char>,
    config_path: Seq<char>,
) -> bool {
    &&& file.path@ == joined_path(joined_path(repo_path, "hooks"@), hook_name)
    &&& file.script@ == hook_script(hook_name, repo_path, dispatcher, config_path)
    &&& file.mode == 0o755
}

/// The hooks to be written for a repository. The repository must exist, and the paths that the
/// hooks call must be absolute.
pub fn install_hooks(repo_path: &str, dispatcher: &str, config_path: &str, repo_exists: bool) -> (r:
    Result<Vec<HookFile>, HookInstallError>)
    ensures
        match r {
            Ok(files) => {
                &&& repo_exists
                &&& absolute(dispatcher@)
                &&& absolute(config_path@)
                &&& files@.len() == hook_names().len()
                &&& forall|i: int|
                    0 <= i < hook_names().len() ==> is_hook_file(
                        #[trigger] files@[i],
                        hook_names()[i],
                        repo_path@,
                        dispatcher@,
                        config_path@,
                    )
            },
            Err(HookInstallError::MissingRepository(p)) => !repo_exists && p@ == repo_path@,
            Err(HookInstallError::RelativeDispatcher(p)) => {
                &&& repo_exists
                &&& !absolute(dispatcher@)
                &&& p@ == dispatcher@
            },
            Err(HookInstallError::RelativeConfigPath(p)) => {
                &&& repo_exists
                &&& absolute(dispatcher@)
                &&& !absolute(config_path@)
                &&& p@ == config_path@
            },
            Err(_) => false,
        },
{
    if !repo_exists {
        return Err(HookInstallError::MissingRepository(repo_path.to_owned()));
    }
    if !path::is_absolute(dispatcher) {
        return Err(HookInstallError::RelativeDispatcher(dispatcher.to_owned()));
    }
    if !path::is_absolute(config_path) {
        return Err(HookInstallError::RelativeConfigPath(config_path.to_owned()));
    }
    Ok(
        vec![
            hook_file("pre-receive", repo_path, dispatcher, config_path),
            hook_file("reference-transaction", repo_path, dispatcher, config_path),
            hook_file("post-receive", repo_path, dispatcher, config_path),
        ],
    )
}

// ---------------------------------------------------------------------------
// What a push says

/// What a line says of a reference: its old object, its new one, and its name. A blank line says
/// nothing.
pub open spec fn update_line(line: Seq<char>) -> Option<(Seq<char>, Seq<char>, Seq<char>)> {
    let parts = words_of(line);
    if parts.len() == 3 {
        Some((parts[0], parts[1], parts[2]))
    } else {
        None
    }
}

/// What the first `n` lines say, or the first that says neither nothing nor an update.
pub open spec fn updates_in(lines: Seq<Seq<char>>, n: int) -> Result<
    Seq<(Seq<char>, Seq<char>, Seq<char>)>,
    Seq<char>,
>
    decreases n,
{
    if n <= 0 {
        Ok(Seq::empty())
    } else {
        match updates_in(lines, n - 1) {
            Err(line) => Err(line),
            Ok(before) => if trimmed(lines[n - 1]).len() == 0 {
                Ok(before)
            } else {
                match update_line(lines[n - 1]) {
                    Some(update) => Ok(before.push(update)),
                    None => Err(lines[n - 1]),
                }
            },
        }
    }
}

pub open spec fn update_texts(updates: Seq<RefUpdate>) -> Seq<(Seq<char>, Seq<char>, Seq<char>)> {
    Seq::new(
        updates.len(),
        |i: int| (updates[i].old_oid@, updates[i].new_oid@, updates[i].ref_name@),
    )
}

proof fn lemma_updates_stop(lines: Seq<Seq<char>>, n: int, m: int)
    requires
        0 <= n <= m,
        updates_in(lines, n) is Err,
    ensures
        updates_in(lines, m) == updates_in(lines, n),
    decreases m - n,
{
    if n < m {
        lemma_updates_stop(lines, n, m - 1);
    }
}

/// The references that a push moves, as Git tells a hook.
pub fn read_ref_updates(input: &str) -> (r: Result<Vec<RefUpdate>, HookDispatchError>)
    ensures
        ({
            let expected = updates_in(lines_of(input@), lines_of(input@).len() as int);
            match r {
                Ok(updates) => expected is Ok && expected->Ok_0 == update_texts(updates@),
                Err(HookDispatchError::MalformedUpdateLine(line)) => expected is Err
                    && expected->Err_0 == line@,
                Err(_) => false,
            }
        }),
{
    let all = lines(input);
    let ghost ls = lines_of(input@);
    let mut updates: Vec<RefUpdate> = Vec::new();
    let mut i: usize = 0;
    assert(update_texts(updates@) =~= Seq::empty());
    while i < all.len()
        invariant
            i <= all@.len(),
            texts(all@) == ls,
            ls == lines_of(input@),
            updates_in(ls, i as int) == Ok::<
                Seq<(Seq<char>, Seq<char>, Seq<char>)>,
                Seq<char>,
            >(update_texts(updates@)),
        decreases all@.len() - i,
    {
        assert(ls[i as int] == all@[i as int]@);
        let line = &all[i];
        if !is_blank(line) {
            let parts = words(line);
            assert(texts(parts@).len() == parts@.len());
            if parts.len() != 3 {
                proof {
                    lemma_updates_stop(ls, i + 1, ls.len() as int);
                }
                return Err(HookDispatchError::MalformedUpdateLine(line.clone()));
            }
            let update = RefUpdate {
                old_oid: parts[0].clone(),
                new_oid: parts[1].clone(),
                ref_name: parts[2].clone(),
            };
            let ghost before = update_texts(updates@);
            proof {
                assert(texts(parts@)[0] == parts@[0]@);
                assert(texts(parts@)[1] == parts@[1]@);
                assert(texts(parts@)[2] == parts@[2]@);
            }
            updates.push(update);
            assert(update_texts(updates@) =~= before.push(
                (update.old_oid@, update.new_oid@, update.ref_name@),
            ));
        }
        i += 1;
    }
    Ok(updates)
}

// ---------------------------------------------------------------------------
// What a push may do

/// The object id that stands for no object.
pub open spec fn zero_oid() -> Seq<char> {
    "0000000000000000000000000000000000000000"@
}

fn is_zero_oid(value: &str) -> (r: bool)
    ensures
        r == (value@ == zero_oid()),
{
    same(value, "0000000000000000000000000000000000000000")
}

/// Why an update is rejected whatever the history of its objects; `None` where it is not.
pub open spec fn plain_rejection(patterns: Seq<Seq<char>>, update: RefUpdate) -> Option<Seq<char>> {
    let name = update.ref_name@;
    if internal(name) {
        Some("ref "@ + name + " is internal and must never be pushed"@)
    } else if !exported(patterns, name) {
        Some("ref "@ + name + " is outside the exported-ref policy"@)
    } else if update.new_oid@ == zero_oid() {
        Some("deleting "@ + name + " is denied by default"@)
    } else if begins(name, "refs/tags/"@) && update.old_oid@ != zero_oid() {
        Some("updating existing tag "@ + name + " is denied by default"@)
    } else {
        None
    }
}

/// Whether an update moves a branch that is there, so that its history matters.
pub open spec fn moves_branch(update: RefUpdate) -> bool {
    begins(update.ref_name@, "refs/heads/"@) && update.old_oid@ != zero_oid()
}

/// Why an update is rejected, where `fast_forward` says whether its new object descends from its
/// old one.
pub open spec fn rejection(
    patterns: Seq<Seq<char>>,
    update: RefUpdate,
    fast_forward: bool,
) -> Option<Seq<char>> {
    match plain_rejection(patterns, update) {
        Some(message) => Some(message),
        None => if moves_branch(update) && !fast_forward {
            Some("non-fast-forward update to "@ + update.ref_name@ + " is denied by default"@)
        } else {
            None
        },
    }
}

fn check_update(patterns: &Vec<String>, update: &RefUpdate) -> (r: Option<String>)
    ensures
        match r {
            Some(message) => plain_rejection(texts(patterns@), *update) == Some(message@),
            None => plain_rejection(texts(patterns@), *update) is None,
        },
{
    let name = &update.ref_name;
    if starts_with(name, "refs/git-relay/") {
        Some(concat3("ref ", name, " is internal and must never be pushed"))
    } else if !matches_exported_ref(patterns, name) {
        Some(concat3("ref ", name, " is outside the exported-ref policy"))
    } else if is_zero_oid(&update.new_oid) {
        Some(concat3("deleting ", name, " is denied by default"))
    } else if starts_with(name, "refs/tags/") && !is_zero_oid(&update.old_oid) {
        Some(concat3("updating existing tag ", name, " is denied by default"))
    } else {
        None
    }
}

/// Why an update is rejected, where `fast_forward` says whether its new object descends from its
/// old one.
pub fn judge_update(patterns: &Vec<String>, update: &RefUpdate, fast_forward: bool) -> (r: Option<
    String,
>)
    ensures
        match r {
            Some(message) => rejection(texts(patterns@), *update, fast_forward) == Some(message@),
            None => rejection(texts(patterns@), *update, fast_forward) is None,
        },
{
    match check_update(patterns, update) {
        Some(message) => Some(message),
        None => {
            if starts_with(&update.ref_name, "refs/heads/") && !is_zero_oid(&update.old_oid)
                && !fast_forward {
                Some(
                    concat3(
                        "non-fast-forward update to ",
                        &update.ref_name,
                        " is denied by default",
                    ),
                )
            } else {
                None
            }
        },
    }
}

/// What Git is asked about the history of two objects.
pub open spec fn ancestry_query(old_oid: Seq<char>, new_oid: Seq<char>) -> Seq<Seq<char>> {
    seq!["merge-base"@, "--is-ancestor"@, old_oid, new_oid]
}

/// Whether an error of Git only says that the history is not as asked.
pub open spec fn says_no(error: GitCommandError) -> bool {
    error is NonZeroExit && error->NonZeroExit_status == Some(1i32)
}

/// What an answer of Git means for the history of two objects.
pub fn read_ancestry(answer: Result<String, GitCommandError>) -> (r: Result<bool, GitCommandError>)
    ensures
        match answer {
            Ok(_) => r == Ok::<bool, GitCommandError>(true),
            Err(error) => if says_no(error) {
                r == Ok::<bool, GitCommandError>(false)
            } else {
                r == Err::<bool, GitCommandError>(error)
            },
        },
{
    match answer {
        Ok(_) => Ok(true),
        Err(GitCommandError::NonZeroExit { args, status, stderr }) => match status {
            Some(1) => Ok(false),
            _ => Err(GitCommandError::NonZeroExit { args, status, stderr }),
        },
        Err(error) => Err(error),
    }
}

/// Whether Git may say of an update that moves a branch that it is a fast-forward, or that it is
/// not.
pub open spec fn may_be_fast_forward<G: GitExecutor>(
    git: &G,
    repo: Seq<char>,
    update: RefUpdate,
    fast_forward: bool,
) -> bool {
    exists|answer: Result<String, GitCommandError>| #[trigger]
        may_answer(git, repo, ancestry_query(update.old_oid@, update.new_oid@), answer)
            && (if fast_forward {
            answer is Ok
        } else {
            answer is Err && says_no(answer->Err_0)
        })
}

/// Whether an update may be admitted.
pub open spec fn may_admit<G: GitExecutor>(
    git: &G,
    repo: Seq<char>,
    patterns: Seq<Seq<char>>,
    update: RefUpdate,
) -> bool {
    rejection(patterns, update, true) is None && (moves_branch(update) ==> may_be_fast_forward(
        git,
        repo,
        update,
        true,
    ))
}

/// Whether an update may be rejected with a message.
pub open spec fn may_reject<G: GitExecutor>(
    git: &G,
    repo: Seq<char>,
    patterns: Seq<Seq<char>>,
    update: RefUpdate,
    message: Seq<char>,
) -> bool {
    ||| plain_rejection(patterns, update) == Some(message)
    ||| plain_rejection(patterns, update) is None && rejection(patterns, update, false) == Some(
        message,
    ) && may_be_fast_forward(git, repo, update, false)
}

/// What may come of the updates of a push that passed every other test: all are admitted, or those
/// before one that is rejected, or those before one whose history Git did not tell.
pub open spec fn judged<G: GitExecutor>(
    git: &G,
    repo: Seq<char>,
    patterns: Seq<Seq<char>>,
    updates: Seq<RefUpdate>,
    r: Result<Option<String>, HookDispatchError>,
) -> bool {
    match r {
        Ok(None) => forall|i: int|
            0 <= i < updates.len() ==> may_admit(git, repo, patterns, #[trigger] updates[i]),
        Ok(Some(message)) => exists|k: int|
            {
                &&& 0 <= k < updates.len()
                &&& may_reject(git, repo, patterns, #[trigger] updates[k], message@)
                &&& forall|i: int|
                    0 <= i < k ==> may_admit(git, repo, patterns, #[trigger] updates[i])
            },
        Err(HookDispatchError::Git(error)) => exists|k: int|
            {
                &&& 0 <= k < updates.len()
                &&& plain_rejection(patterns, #[trigger] updates[k]) is None
                &&& moves_branch(updates[k])
                &&& !says_no(error)
                &&& may_answer(
                    git,
                    repo,
                    ancestry_query(updates[k].old_oid@, updates[k].new_oid@),
                    Err(error),
                )
                &&& forall|i: int|
                    0 <= i < k ==> may_admit(git, repo, patterns, #[trigger] updates[i])
            },
        Err(_) => false,
    }
}

/// Why the first update that is not admitted is rejected.
pub fn judge_updates<G: GitExecutor>(
    git: &G,
    repo: &str,
    patterns: &Vec<String>,
    updates: &Vec<RefUpdate>,
) -> (r: Result<Option<String>, HookDispatchError>)
    ensures
        judged(git, repo@, texts(patterns@), updates@, r),
{
    let mut i: usize = 0;
    while i < updates.len()
        invariant
            i <= updates@.len(),
            forall|j: int|
                0 <= j < i ==> may_admit(git, repo@, texts(patterns@), #[trigger] updates@[j]),
        decreases updates@.len() - i,
    {
        let update = &updates[i];
        match check_update(patterns, update) {
            Some(message) => {
                assert(may_reject(
                    git,
                    repo@,
                    texts(patterns@),
                    updates@[i as int],
                    message@,
                ));
                return Ok(Some(message));
            },
            None => {},
        }
        if starts_with(&update.ref_name, "refs/heads/") && !is_zero_oid(&update.old_oid) {
            let answer = ask4(
                git,
                repo,
                "merge-base",
                "--is-ancestor",
                &update.old_oid,
                &update.new_oid,
            );
            let ghost asked = answer;
            match read_ancestry(answer) {
                Ok(fast_forward) => {
                    assert(may_be_fast_forward(git, repo@, *update, fast_forward)) by {
                        assert(may_answer(
                            git,
                            repo@,
                            ancestry_query(update.old_oid@, update.new_oid@),
                            asked,
                        ));
                    }
                    match judge_update(patterns, update, fast_forward) {
                        Some(message) => {
                            assert(may_reject(
                                git,
                                repo@,
                                texts(patterns@),
                                updates@[i as int],
                                message@,
                            ));
                            return Ok(Some(message));
                        },
                        None => {},
                    }
                },
                Err(error) => {
                    assert(plain_rejection(texts(patterns@), updates@[i as int]) is None);
                    return Err(HookDispatchError::Git(error));
                },
            }
        }
        assert(may_admit(git, repo@, texts(patterns@), updates@[i as int]));
        i += 1;
    }
    Ok(None)
}

/// The messages of a report's issues as one text.
pub open spec fn issue_details(issues: Seq<(Seq<char>, Seq<char>)>) -> Seq<char> {
    joined(Seq::new(issues.len(), |i: int| issues[i].1), "; "@)
}

/// The messages of a report's issues as one text.
pub fn join_issues(issues: &Vec<ValidationIssue>) -> (r: String)
    ensures
        r@ == issue_details(issue_texts(issues@)),
{
    let mut messages: Vec<String> = Vec::new();
    let mut i: usize = 0;
    while i < issues.len()
        invariant
            i <= issues@.len(),
            messages@.len() == i,
            forall|j: int| 0 <= j < i ==> messages@[j]@ == #[trigger] issues@[j].message@,
        decreases issues@.len() - i,
    {
        messages.push(issues[i].message.clone());
        i += 1;
    }
    let ghost all = issue_texts(issues@);
    assert(texts(messages@) =~= Seq::new(all.len(), |k: int| all[k].1));
    join(&messages, "; ")
}

/// Why a push to a repository is rejected before it is validated.
pub open spec fn closed_to_writes(descriptor: RepositoryDescriptor) -> Option<Seq<char>> {
    if descriptor.mode != RepositoryMode::Authoritative {
        Some("writes are allowed only for authoritative repositories"@)
    } else if descriptor.lifecycle != RepositoryLifecycle::Ready {
        Some("repository is not ready for authoritative write acceptance"@)
    } else {
        None
    }
}

/// Whether the repository may be found to have the issues `issues`.
pub open spec fn may_find<G: GitExecutor, P: PlatformProbe>(
    git: &G,
    platform: &P,
    config: AppConfig,
    descriptor: RepositoryDescriptor,
    repo_exists: bool,
    issues: Seq<(Seq<char>, Seq<char>)>,
) -> bool {
    exists|facts: RepositoryFacts|
        {
            &&& #[trigger] (Validator { git, platform }).may_observe(
                config,
                descriptor,
                repo_exists,
                facts,
            )
            &&& issues == all_issues(config, descriptor, facts)
        }
}

/// What may come of the evaluation of a push.
pub open spec fn evaluated<G: GitExecutor, P: PlatformProbe>(
    git: &G,
    platform: &P,
    config: AppConfig,
    descriptor: RepositoryDescriptor,
    repo_exists: bool,
    repo: Seq<char>,
    updates: Seq<RefUpdate>,
    r: Result<(HookStatus, Option<String>), HookDispatchError>,
) -> bool {
    match closed_to_writes(descriptor) {
        Some(message) => r is Ok && r->Ok_0.0 == HookStatus::Rejected && r->Ok_0.1 is Some
            && r->Ok_0.1->0@ == message,
        None => match r {
            Ok((HookStatus::Accepted, message)) => {
                &&& message is None
                &&& may_find(git, platform, config, descriptor, repo_exists, Seq::empty())
                &&& judged(git, repo, texts(descriptor.exported_refs@), updates, Ok(None))
            },
            Ok((HookStatus::Rejected, message)) => {
                &&& message is Some
                &&& {
                    ||| exists|issues: Seq<(Seq<char>, Seq<char>)>|
                        {
                            &&& issues.len() > 0
                            &&& #[trigger] may_find(
                                git,
                                platform,
                                config,
                                descriptor,
                                repo_exists,
                                issues,
                            )
                            &&& message->0@ == unmet_contract(issues)
                        }
                    ||| {
                        &&& may_find(
                            git,
                            platform,
                            config,
                            descriptor,
                            repo_exists,
                            Seq::empty(),
                        )
                        &&& judged(
                            git,
                            repo,
                            texts(descriptor.exported_refs@),
                            updates,
                            Ok(message),
                        )
                    }
                }
            },
            Err(HookDispatchError::ValidationInfra(error)) => (Validator {
                git,
                platform,
            }).may_fail(config, descriptor, repo_exists, error),
            Err(error) => {
                &&& may_find(git, platform, config, descriptor, repo_exists, Seq::empty())
                &&& judged(git, repo, texts(descriptor.exported_refs@), updates, Err(error))
            },
        },
    }
}

/// Whether a push is accepted, or why it is rejected. A repository that is not authoritative, not
/// ready, or does not meet its contract takes no push; of the updates, the first that is not
/// admitted decides.
pub fn evaluate_pre_receive<G: GitExecutor, P: PlatformProbe>(
    config: &AppConfig,
    descriptor: &RepositoryDescriptor,
    repo_exists: bool,
    repo: &str,
    updates: &Vec<RefUpdate>,
    git: &G,
    platform: &P,
) -> (r: Result<(HookStatus, Option<String>), HookDispatchError>)
    ensures
        evaluated(
            git,
            platform,
            *config,
            *descriptor,
            repo_exists,
            repo@,
            updates@,
            r,
        ),
{
    if descriptor.mode != RepositoryMode::Authoritative {
        return Ok(
            (
                HookStatus::Rejected,
                Some("writes are allowed only for authoritative repositories".to_owned()),
            ),
        );
    }
    if descriptor.lifecycle != RepositoryLifecycle::Ready {
        return Ok(
            (
                HookStatus::Rejected,
                Some("repository is not ready for authoritative write acceptance".to_owned()),
            ),
        );
    }
    let validator = Validator::new(git, platform);
    let report = match validator.validate(config, descriptor, repo_exists) {
        Ok(report) => report,
        Err(error) => {
            return Err(HookDispatchError::ValidationInfra(error));
        },
    };
    assert(may_find(
        git,
        platform,
        *config,
        *descriptor,
        repo_exists,
        issue_texts(report.issues@),
    ));
    if !report.passed() {
        return Ok(
            (
                HookStatus::Rejected,
                Some(
                    concat2(
                        "repository contract validation failed before write acceptance: ",
                        &join_issues(&report.issues),
                    ),
                ),
            ),
        );
    }
    assert(issue_texts(report.issues@) =~= Seq::empty());
    match judge_updates(git, repo, &descriptor.exported_refs, updates) {
        Ok(None) => Ok((HookStatus::Accepted, None)),
        Ok(Some(message)) => Ok((HookStatus::Rejected, Some(message))),
        Err(error) => Err(error),
    }
}

pub open spec fn unmet_contract(issues: Seq<(Seq<char>, Seq<char>)>) -> Seq<char> {
    "repository contract validation failed before write acceptance: "@ + issue_details(issues)
}

// ---------------------------------------------------------------------------
// Dispatch

/// The index of the first repository whose resolved path is `repo`; the number of paths where
/// there is none. `None` stands for a path that could not be resolved.
pub open spec fn place_index(paths: Seq<Option<String>>, repo: Seq<char>, i: int) -> int
    decreases paths.len() - i,
{
    if i < 0 || i >= paths.len() || (paths[i] is Some && same_place(paths[i]->0@, repo)) {
        i
    } else {
        place_index(paths, repo, i + 1)
    }
}

/// The index of the first repository whose resolved path is `repo`.
pub fn find_descriptor_for_repo(paths: &Vec<Option<String>>, repo: &str) -> (r: usize)
    ensures
        r == place_index(paths@, repo@, 0),
        r <= paths@.len(),
{
    let mut i: usize = 0;
    while i < paths.len()
        invariant
            i <= paths@.len(),
            place_index(paths@, repo@, 0) == place_index(paths@, repo@, i as int),
        decreases paths@.len() - i,
    {
        let found = match &paths[i] {
            Some(path) => path::same_path(path, repo),
            None => false,
        };
        if found {
            return i;
        }
        i += 1;
    }
    i
}

/// What a push or a request is judged by: the configuration, and of each repository its
/// descriptor, its resolved path, and whether its path exists.
#[derive(Debug)]
pub struct RepositoryScene {
    pub config: AppConfig,
    pub descriptors: Vec<RepositoryDescriptor>,
    pub resolved_paths: Vec<Option<String>>,
    pub path_exists: Vec<bool>,
}

impl RepositoryScene {
    pub open spec fn wf(self) -> bool {
        &&& self.resolved_paths@.len() == self.descriptors@.len()
        &&& self.path_exists@.len() == self.descriptors@.len()
    }
}

/// Whether a hook judges the push; the others let it pass.
pub open spec fn judges(hook: Seq<char>) -> bool {
    hook == "pre-receive"@
}

pub open spec fn passes(hook: Seq<char>) -> bool {
    hook == "reference-transaction"@ || hook == "post-receive"@
}

/// What a hook makes of a push.
pub fn dispatch_hook_action<G: GitExecutor, P: PlatformProbe>(
    scene: Option<&RepositoryScene>,
    hook: String,
    repo: String,
    args: Vec<String>,
    updates: Vec<RefUpdate>,
    git: &G,
    platform: &P,
) -> (r: Result<HookDispatchEvent, HookDispatchError>)
    requires
        judges(hook@) ==> scene is Some && scene->0.wf(),
    ensures
        r matches Ok(event) ==> {
            &&& event.hook == hook
            &&& event.repo == repo
            &&& event.args == args
            &&& event.updates == updates
        },
        !judges(hook@) && passes(hook@) ==> r is Ok && r->Ok_0.status == HookStatus::Accepted
            && r->Ok_0.message is None,
        !judges(hook@) && !passes(hook@) ==> r is Err && r->Err_0 is UnsupportedHook
            && r->Err_0->UnsupportedHook_0@ == hook@,
        judges(hook@) ==> {
            let k = place_index(scene->0.resolved_paths@, repo@, 0);
            if k >= scene->0.descriptors@.len() {
                r is Err && r->Err_0 is RepositoryNotFound && r->Err_0->RepositoryNotFound_0@
                    == repo@
            } else {
                let outcome = match r {
                    Ok(event) => Ok((event.status, event.message)),
                    Err(error) => Err(error),
                };
                evaluated(
                    git,
                    platform,
                    scene->0.config,
                    scene->0.descriptors@[k],
                    scene->0.path_exists@[k],
                    repo@,
                    updates@,
                    outcome,
                )
            }
        },
{
    let status;
    let message;
    if same(&hook, "pre-receive") {
        match scene {
            Some(scene) => {
                let k = find_descriptor_for_repo(&scene.resolved_paths, &repo);
                if k >= scene.descriptors.len() {
                    return Err(HookDispatchError::RepositoryNotFound(repo));
                }
                match evaluate_pre_receive(
                    &scene.config,
                    &scene.descriptors[k],
                    scene.path_exists[k],
                    &repo,
                    &updates,
                    git,
                    platform,
                ) {
                    Ok((s, m)) => {
                        status = s;
                        message = m;
                    },
                    Err(error) => {
                        return Err(error);
                    },
                }
            },
            None => {
                assert(false);
                return Err(HookDispatchError::RepositoryNotFound(repo));
            },
        }
    } else if same(&hook, "reference-transaction") || same(&hook, "post-receive") {
        status = HookStatus::Accepted;
        message = None;
    } else {
        return Err(HookDispatchError::UnsupportedHook(hook));
    }
    Ok(HookDispatchEvent { hook, repo, args, updates, status, message })
}

/// An update that is not rejected moves no internal reference and none outside the exported ones,
/// deletes nothing, moves no tag that is there, and moves a branch that is there only forward.
pub proof fn law_admitted_updates_are_safe(
    patterns: Seq<Seq<char>>,
    update: RefUpdate,
    fast_forward: bool,
)
    requires
        rejection(patterns, update, fast_forward) is None,
    ensures
        !internal(update.ref_name@),
        exported(patterns, update.ref_name@),
        update.new_oid@ != zero_oid(),
        begins(update.ref_name@, "refs/tags/"@) ==> update.old_oid@ == zero_oid(),
        begins(update.ref_name@, "refs/heads/"@) && update.old_oid@ != zero_oid() ==> fast_forward,
{
}

/// A push that is accepted goes to an authoritative repository that is ready and was found to meet
/// its contract, and each of its updates is safe; of a branch that is there, Git said that it moves
/// forward.
pub proof fn law_accepted_pushes_are_safe<G: GitExecutor, P: PlatformProbe>(
    git: &G,
    platform: &P,
    config: AppConfig,
    descriptor: RepositoryDescriptor,
    repo_exists: bool,
    repo: Seq<char>,
    updates: Seq<RefUpdate>,
    message: Option<String>,
    i: int,
)
    requires
        evaluated(
            git,
            platform,
            config,
            descriptor,
            repo_exists,
            repo,
            updates,
            Ok((HookStatus::Accepted, message)),
        ),
        0 <= i < updates.len(),
    ensures
        descriptor.mode == RepositoryMode::Authoritative,
        descriptor.lifecycle == RepositoryLifecycle::Ready,
        may_find(git, platform, config, descriptor, repo_exists, Seq::empty()),
        rejection(texts(descriptor.exported_refs@), updates[i], true) is None,
        !internal(updates[i].ref_name@),
        updates[i].new_oid@ != zero_oid(),
        moves_branch(updates[i]) ==> may_be_fast_forward(git, repo, updates[i], true),
{
    assert(may_admit(git, repo, texts(descriptor.exported_refs@), updates[i]));
}

/// The converse: an update of an exported reference that is not internal, which deletes nothing, is
/// not rejected where it creates the reference, where it moves a branch forward, or where it moves
/// what is neither a branch nor a tag. In particular an exported branch or tag can be created.
pub proof fn law_ordinary_updates_are_admitted(
    patterns: Seq<Seq<char>>,
    update: RefUpdate,
    fast_forward: bool,
)
    requires
        !begins(update.ref_name@, "refs/git-relay/"@),
        exported(patterns, update.ref_name@),
        update.new_oid@ != "0000000000000000000000000000000000000000"@,
        update.old_oid@ == "0000000000000000000000000000000000000000"@ || (begins(
            update.ref_name@,
            "refs/heads/"@,
        ) && fast_forward) || !(begins(update.ref_name@, "refs/heads/"@) || begins(
            update.ref_name@,
            "refs/tags/"@,
        )),
    ensures
        rejection(patterns, update, fast_forward) is None,
{
    let name = update.ref_name@;
    reveal_strlit("refs/heads/");
    reveal_strlit("refs/tags/");
    if begins(name, "refs/heads/"@) && begins(name, "refs/tags/"@) {
        assert(name.take("refs/heads/"@.len() as int)[5] == 'h');
        assert(name.take("refs/tags/"@.len() as int)[5] == 't');
    }
}

/// What is denied: a push to the relay's own references, one outside the exported references, a
/// deletion, a tag that is moved, and a branch that is moved otherwise than forward. The message
/// names the reference.
pub proof fn law_denied_updates(
    patterns: Seq<Seq<char>>,
    update: RefUpdate,
    fast_forward: bool,
)
    requires
        begins(update.ref_name@, "refs/git-relay/"@) || !exported(patterns, update.ref_name@)
            || update.new_oid@ == "0000000000000000000000000000000000000000"@ || (update.old_oid@
            != "0000000000000000000000000000000000000000"@ && (begins(
            update.ref_name@,
            "refs/tags/"@,
        ) || (begins(update.ref_name@, "refs/heads/"@) && !fast_forward))),
    ensures
        rejection(patterns, update, fast_forward) is Some,
        holds(rejection(patterns, update, fast_forward)->0, update.ref_name@),
{
    let name = update.ref_name@;
    let message = rejection(patterns, update, fast_forward)->0;
    let before = if internal(name) || !exported(patterns, name) {
        "ref "@
    } else if update.new_oid@ == zero_oid() {
        "deleting "@
    } else if begins(name, "refs/tags/"@) && update.old_oid@ != zero_oid() {
        "updating existing tag "@
    } else {
        "non-fast-forward update to "@
    };
    assert(message.subrange(before.len() as int, before.len() as int + name.len()) =~= name);
    assert(stands_at(message, name, before.len() as int));
}

/// A push of which no update moves anything that is there, and each creates an exported reference
/// that is not internal, passes whatever Git may say.
pub proof fn law_new_references_pass<G: GitExecutor>(
    git: &G,
    repo: Seq<char>,
    patterns: Seq<Seq<char>>,
    updates: Seq<RefUpdate>,
    r: Result<Option<String>, HookDispatchError>,
)
    requires
        judged(git, repo, patterns, updates, r),
        forall|i: int|
            0 <= i < updates.len() ==> {
                &&& !begins((#[trigger] updates[i]).ref_name@, "refs/git-relay/"@)
                &&& exported(patterns, updates[i].ref_name@)
                &&& updates[i].new_oid@ != "0000000000000000000000000000000000000000"@
                &&& updates[i].old_oid@ == "0000000000000000000000000000000000000000"@
            },
    ensures
        r is Ok,
        r->Ok_0 is None,
{
    assert forall|i: int| 0 <= i < updates.len() implies rejection(
        patterns,
        #[trigger] updates[i],
        false,
    ) is None by {
        law_ordinary_updates_are_admitted(patterns, updates[i], false);
    }
    match r {
        Ok(Some(message)) => {
            let k = choose|k: int|
                0 <= k < updates.len() && may_reject(
                    git,
                    repo,
                    patterns,
                    #[trigger] updates[k],
                    message@,
                );
            assert(rejection(patterns, updates[k], false) is None);
        },
        _ => {},
    }
}

/// A push that would delete something, move a tag, or touch what is not exported is not accepted,
/// and what Git would say of its branches does not matter for that.
pub proof fn law_unsafe_pushes_do_not_pass<G: GitExecutor>(
    git: &G,
    repo: Seq<char>,
    patterns: Seq<Seq<char>>,
    updates: Seq<RefUpdate>,
    r: Result<Option<String>, HookDispatchError>,
    i: int,
)
    requires
        judged(git, repo, patterns, updates, r),
        0 <= i < updates.len(),
        begins(updates[i].ref_name@, "refs/git-relay/"@) || !exported(
            patterns,
            updates[i].ref_name@,
        ) || updates[i].new_oid@ == "0000000000000000000000000000000000000000"@ || (begins(
            updates[i].ref_name@,
            "refs/tags/"@,
        ) && updates[i].old_oid@ != "0000000000000000000000000000000000000000"@),
    ensures
        r is Err || r->Ok_0 is Some,
{
    law_denied_updates(patterns, updates[i], true);
    if r is Ok && r->Ok_0 is None {
        assert(may_admit(git, repo, patterns, updates[i]));
    }
}

/// The history of an update is told by whether Git finds its old object among the ancestors of its
/// new one; only its exit with status one says that it does not.
pub proof fn law_ancestry_is_asked_of_the_old_object(old_oid: Seq<char>, new_oid: Seq<char>)
    ensures
        ancestry_query(old_oid, new_oid).len() == 4,
        ancestry_query(old_oid, new_oid)[0] == "merge-base"@,
        ancestry_query(old_oid, new_oid)[1] == "--is-ancestor"@,
        ancestry_query(old_oid, new_oid)[2] == old_oid,
        ancestry_query(old_oid, new_oid)[3] == new_oid,
        forall|error: GitCommandError| #[trigger]
            says_no(error) <==> (error matches GitCommandError::NonZeroExit { status, .. }
                && status == Some(1i32)),
{
}

/// What a shell reads a word as that is made of quoted parts alone, where it stands inside quotes
/// of the kind `quote` or outside: within single quotes each character stands for itself, and
/// within double quotes each but those that a shell expands.
pub open spec fn shell_reads(word: Seq<char>, quote: Option<char>) -> Option<Seq<char>>
    decreases word.len(),
{
    if word.len() == 0 {
        if quote is None {
            Some(Seq::empty())
        } else {
            None
        }
    } else {
        let c = word[0];
        match quote {
            None => if c == '\'' || c == '"' {
                shell_reads(word.skip(1), Some(c))
            } else {
                None
            },
            Some(q) => if c == q {
                shell_reads(word.skip(1), None)
            } else if q == '"' && (c == '$' || c == '`' || c == '\\') {
                None
            } else {
                match shell_reads(word.skip(1), quote) {
                    Some(rest) => Some(seq![c] + rest),
                    None => None,
                }
            },
        }
    }
}

/// A shell reads a quoted word as the value, whatever the value holds.
pub proof fn law_quoted_words_are_read_back(value: Seq<char>)
    ensures
        shell_reads(shell_quoted(value), None) == Some(value),
{
    reveal_strlit("'");
    let word = shell_quoted(value);
    lemma_quoted_rest(value, 0);
    assert(value.skip(0) =~= value);
    let whole = quoted_rest(value, 0);
    assert(quoted_rest(value, 0) =~= word.skip(1)) by {
        lemma_replaced_rest(value, value.len() as int);
        assert(value.take(value.len() as int) =~= value);
        assert(quoted_rest(value, value.len() as int) =~= "'"@);
    }
    assert(word[0] == '\'');
}

/// What follows the first `n` characters of a value within its quoted word.
spec fn quoted_rest(value: Seq<char>, n: int) -> Seq<char>
    decreases value.len() - n,
{
    if n < 0 || n >= value.len() {
        "'"@
    } else if value[n] == '\'' {
        "'\"'\"'"@ + quoted_rest(value, n + 1)
    } else {
        seq![value[n]] + quoted_rest(value, n + 1)
    }
}

proof fn lemma_replaced_rest(value: Seq<char>, n: int)
    requires
        0 <= n <= value.len(),
    ensures
        replaced(value.take(n), '\'', "'\"'\"'"@) + quoted_rest(value, n) == quoted_rest(value, 0),
    decreases n,
{
    let w = "'\"'\"'"@;
    if n == 0 {
        assert(value.take(0) =~= Seq::empty());
        assert(Seq::<char>::empty() + quoted_rest(value, 0) =~= quoted_rest(value, 0));
    } else {
        lemma_replaced_rest(value, n - 1);
        let before = replaced(value.take(n - 1), '\'', w);
        assert(value.take(n).drop_last() =~= value.take(n - 1));
        assert(value.take(n).last() == value[n - 1]);
        if value[n - 1] == '\'' {
            assert(before + w + quoted_rest(value, n) =~= before + (w + quoted_rest(value, n)));
        } else {
            assert(before.push(value[n - 1]) + quoted_rest(value, n) =~= before + (seq![
                value[n - 1],
            ] + quoted_rest(value, n)));
        }
    }
}

proof fn lemma_quoted_rest(value: Seq<char>, n: int)
    requires
        0 <= n <= value.len(),
    ensures
        shell_reads(quoted_rest(value, n), Some('\'')) == Some(value.skip(n)),
    decreases value.len() - n,
{
    reveal_strlit("'");
    reveal_strlit("'\"'\"'");
    let text = quoted_rest(value, n);
    if n == value.len() {
        assert(text.skip(1) =~= Seq::empty());
        assert(shell_reads(Seq::empty(), None) == Some(Seq::<char>::empty()));
        assert(value.skip(n) =~= Seq::empty());
    } else {
        lemma_quoted_rest(value, n + 1);
        let rest = quoted_rest(value, n + 1);
        assert(value.skip(n) =~= seq![value[n]] + value.skip(n + 1));
        if value[n] == '\'' {
            let w = "'\"'\"'"@;
            assert(w.len() == 5);
            let five = seq!['\''] + rest;
            assert(five.skip(1) =~= rest);
            let four = seq!['"'] + five;
            assert(four.skip(1) =~= five);
            let three = seq!['\''] + four;
            assert(three.skip(1) =~= four);
            let two = seq!['"'] + three;
            assert(two.skip(1) =~= three);
            assert(text.skip(1) =~= two);
            assert(shell_reads(five, None) == shell_reads(rest, Some('\'')));
            assert(shell_reads(four, Some('"')) == shell_reads(five, None));
            assert(shell_reads(three, Some('"')) == Some(seq!['\''] + value.skip(n + 1)));
            assert(shell_reads(two, None) == shell_reads(three, Some('"')));
            assert(shell_reads(text, Some('\'')) == shell_reads(two, None));
        } else {
            assert(text.skip(1) =~= rest);
        }
    }
}

/// A line with an old object, a new object and a reference, apart by white space, is read as the
/// update of that reference from the one to the other; a line of fewer words is no update.
pub proof fn law_update_lines_are_read(
    old_oid: Seq<char>,
    new_oid: Seq<char>,
    name: Seq<char>,
    gap: char,
)
    requires
        is_word(old_oid),
        is_word(new_oid),
        is_word(name),
        is_space(gap),
    ensures
        update_line(old_oid + seq![gap] + (new_oid + seq![gap] + name)) == Some(
            (old_oid, new_oid, name),
        ),
        update_line(old_oid) is None,
        update_line(old_oid + seq![gap] + new_oid) is None,
{
    law_words(name, gap, Seq::empty());
    law_words(new_oid, gap, name);
    law_words(old_oid, gap, new_oid + seq![gap] + name);
    law_words(old_oid, gap, new_oid);
}

/// Whether a text is one word.
pub open spec fn is_word(s: Seq<char>) -> bool {
    s.len() > 0 && forall|i: int| 0 <= i < s.len() ==> !is_space(#[trigger] s[i])
}

/// A repository takes pushes exactly where it is authoritative and ready.
pub proof fn law_open_repositories_take_pushes(descriptor: RepositoryDescriptor)
    ensures
        closed_to_writes(descriptor) is None <==> descriptor.mode == RepositoryMode::Authoritative
            && descriptor.lifecycle == RepositoryLifecycle::Ready,
{
}

/// A hook's script hands the dispatcher its configuration, the name of the hook, the repository
/// and the arguments that it got, each as one word.
pub proof fn law_hook_scripts_call_the_dispatcher(
    hook_name: Seq<char>,
    repo_path: Seq<char>,
    dispatcher: Seq<char>,
    config_path: Seq<char>,
)
    ensures
        ({
            let script = hook_script(hook_name, repo_path, dispatcher, config_path);
            &&& crate::text::begins(script, "#!/bin/sh\nset -eu\n"@)
            &&& crate::text::holds(script, "${GIT_DIR:-"@ + shell_quoted(repo_path) + "}"@)
            &&& crate::text::ends(
                script,
                "\nexec "@ + shell_quoted(dispatcher) + " hook-dispatch --config "@ + shell_quoted(
                    config_path,
                ) + " --hook "@ + shell_quoted(hook_name) + " --repo \"$repo\" \"$@\"\n"@,
            )
        }),
{
    reveal_strlit("#!/bin/sh\nset -eu\nrepo=\"${GIT_DIR:-");
    reveal_strlit("#!/bin/sh\nset -eu\n");
    reveal_strlit("${GIT_DIR:-");
    reveal_strlit("}\"\nexec ");
    reveal_strlit("\nexec ");
    reveal_strlit("}");
    let script = hook_script(hook_name, repo_path, dispatcher, config_path);
    let head = "#!/bin/sh\nset -eu\nrepo=\"${GIT_DIR:-"@;
    let first = "#!/bin/sh\nset -eu\n"@;
    assert(script.take(first.len() as int) =~= first);
    let place = "${GIT_DIR:-"@ + shell_quoted(repo_path) + "}"@;
    let at = head.len() - "${GIT_DIR:-"@.len();
    assert(script.subrange(at, at + place.len()) =~= place);
    assert(crate::text::stands_at(script, place, at));
    let call = "\nexec "@ + shell_quoted(dispatcher) + " hook-dispatch --config "@ + shell_quoted(
        config_path,
    ) + " --hook "@ + shell_quoted(hook_name) + " --repo \"$repo\" \"$@\"\n"@;
    assert(script.skip(script.len() - call.len()) =~= call);
}

/// Three hooks are installed, where Git looks for them and such that Git can run them. One of them
/// judges a push, the others let it pass, and no further hook is known.
pub proof fn law_installed_hooks(
    file: HookFile,
    hook: Seq<char>,
    repo_path: Seq<char>,
    dispatcher: Seq<char>,
    config_path: Seq<char>,
)
    requires
        hook_names().contains(hook),
        is_hook_file(file, hook, repo_path, dispatcher, config_path),
        repo_path.len() > 0,
        repo_path.last() != '/',
    ensures
        file.path@ == repo_path + "/hooks/"@ + hook,
        file.mode == 493,
        hook_names().len() == 3,
        hook_names().contains("pre-receive"@),
        hook_names().contains("reference-transaction"@),
        hook_names().contains("post-receive"@),
        judges("pre-receive"@),
        forall|other: Seq<char>|
            #![trigger judges(other)]
            #![trigger passes(other)]
            {
                &&& hook_names().contains(other) <==> judges(other) || passes(other)
                &&& judges(other) ==> other == "pre-receive"@ && !passes(other)
            },
{
    reveal_strlit("pre-receive");
    reveal_strlit("reference-transaction");
    reveal_strlit("post-receive");
    reveal_strlit("hooks");
    reveal_strlit("/hooks/");
    let names = hook_names();
    assert(names[0] == "pre-receive"@);
    assert(names[1] == "reference-transaction"@);
    assert(names[2] == "post-receive"@);
    assert("pre-receive"@.len() == 11 && "reference-transaction"@.len() == 21
        && "post-receive"@.len() == 12);
    assert(hook[0] != '/');
    path::law_joined_paths(repo_path, "hooks"@);
    path::law_joined_paths(repo_path + seq!['/'] + "hooks"@, hook);
    assert(repo_path + seq!['/'] + "hooks"@ + seq!['/'] + hook =~= repo_path + "/hooks/"@ + hook);
}

/// A push is read where each of its lines is blank or says an update, and then every update of it
/// is read, in the order of the lines.
pub proof fn law_pushes_are_read(lines: Seq<Seq<char>>, n: int)
    requires
        0 <= n <= lines.len(),
    ensures
        updates_in(lines, n) is Ok <==> forall|i: int|
            0 <= i < n ==> trimmed(#[trigger] lines[i]).len() == 0 || update_line(lines[i]) is Some,
        updates_in(lines, n) is Err ==> exists|i: int|
            0 <= i < n && #[trigger] lines[i] == updates_in(lines, n)->Err_0 && trimmed(
                lines[i],
            ).len() > 0 && update_line(lines[i]) is None,
        updates_in(lines, n) is Ok ==> {
            let read = updates_in(lines, n)->Ok_0;
            &&& read.len() <= n
            &&& forall|i: int|
                0 <= i < n && trimmed(#[trigger] lines[i]).len() > 0 ==> read.contains(
                    update_line(lines[i])->0,
                )
            &&& (forall|i: int| 0 <= i < n ==> trimmed(#[trigger] lines[i]).len() > 0)
                ==> read.len() == n && forall|i: int|
                0 <= i < n ==> Some(read[i]) == update_line(#[trigger] lines[i])
        },
    decreases n,
{
    if n > 0 {
        law_pushes_are_read(lines, n - 1);
        let line = lines[n - 1];
        if updates_in(lines, n) is Ok {
            let before = updates_in(lines, n - 1)->Ok_0;
            let read = updates_in(lines, n)->Ok_0;
            assert forall|i: int| 0 <= i < n && trimmed(#[trigger] lines[i]).len() > 0 implies
                read.contains(update_line(lines[i])->0) by {
                if i < n - 1 {
                    let update = update_line(lines[i])->0;
                    let k = choose|k: int| 0 <= k < before.len() && before[k] == update;
                    assert(read[k] == update);
                } else {
                    assert(read[before.len() as int] == update_line(line)->0);
                }
            }
        }
    }
}

} // verus!
