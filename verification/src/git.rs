//! Running Git: the interface that a host implements, and its failures.

use crate::text::{concat3, concat4, decimal, render_u128, texts};
use vstd::prelude::*;

verus! {

/// A way to run Git against one repository. What it answers is up to the host.
pub trait GitExecutor {
    fn git(&self, git_dir: &str, args: &[&str]) -> Result<String, GitCommandError>;
}

#[derive(Debug, Clone)]
pub enum GitCommandError {
    Spawn { args: Vec<String>, error: String },
    NonZeroExit { args: Vec<String>, status: Option<i32>, stderr: String },
}

/// What a list of borrowed strings says, string by string.
pub open spec fn arg_texts(args: Seq<&str>) -> Seq<Seq<char>> {
    Seq::new(args.len(), |i: int| args[i]@)
}

/// Whether `answer` is one that `git` may give when it is asked to run `args` in `git_dir`.
pub open spec fn may_answer<G: GitExecutor>(
    git: &G,
    git_dir: Seq<char>,
    args: Seq<Seq<char>>,
    answer: Result<String, GitCommandError>,
) -> bool {
    exists|dir: &str, list: &[&str]|
        dir@ == git_dir && arg_texts(list@) == args && #[trigger] call_ensures(
            G::git,
            (git, dir, list),
            answer,
        )
}

/// Asks `git` to run a command of two words in `git_dir`.
pub fn ask2<G: GitExecutor>(git: &G, git_dir: &str, a: &str, b: &str) -> (r: Result<
    String,
    GitCommandError,
>)
    ensures
        may_answer(git, git_dir@, seq![a@, b@], r),
{
    let args: Vec<&str> = vec![a, b];
    let list = args.as_slice();
    let answer = git.git(git_dir, list);
    assert(arg_texts(list@) =~= seq![a@, b@]);
    assert(call_ensures(G::git, (git, git_dir, list), answer));
    answer
}

/// Asks `git` to run a command of three words in `git_dir`.
pub fn ask3<G: GitExecutor>(git: &G, git_dir: &str, a: &str, b: &str, c: &str) -> (r: Result<
    String,
    GitCommandError,
>)
    ensures
        may_answer(git, git_dir@, seq![a@, b@, c@], r),
{
    let args: Vec<&str> = vec![a, b, c];
    let list = args.as_slice();
    let answer = git.git(git_dir, list);
    assert(arg_texts(list@) =~= seq![a@, b@, c@]);
    assert(call_ensures(G::git, (git, git_dir, list), answer));
    answer
}

/// Asks `git` to run a command of four words in `git_dir`.
pub fn ask4<G: GitExecutor>(
    git: &G,
    git_dir: &str,
    a: &str,
    b: &str,
    c: &str,
    d: &str,
) -> (r: Result<String, GitCommandError>)
    ensures
        may_answer(git, git_dir@, seq![a@, b@, c@, d@], r),
{
    let args: Vec<&str> = vec![a, b, c, d];
    let list = args.as_slice();
    let answer = git.git(git_dir, list);
    assert(arg_texts(list@) =~= seq![a@, b@, c@, d@]);
    assert(call_ensures(G::git, (git, git_dir, list), answer));
    answer
}

// ---------------------------------------------------------------------------
// What a Git process left behind

/// How a Git process ended and what it printed, without the white space around it.
#[derive(Debug, Clone)]
pub struct GitProcessOutput {
    pub success: bool,
    pub status: Option<i32>,
    pub stdout: String,
    pub stderr: String,
    pub args: Vec<String>,
}

/// What came of an attempt to run Git.
#[derive(Debug, Clone)]
pub enum GitReply {
    Ran(GitProcessOutput),
    NotStarted { error: String },
}

/// The text that `std::fmt::Debug` gives for a list of strings.
pub uninterp spec fn debug_list_text(items: Seq<Seq<char>>) -> Seq<char>;

/// Formats a list of strings with `std`'s `Debug`: each quoted and escaped, in square brackets.
/// The text depends on the strings alone.
#[verifier::external_body]
pub(crate) fn debug_list(items: &Vec<String>) -> (r: String)
    ensures
        r@ == debug_list_text(texts(items@)),
{
    format!("{:?}", items)
}

/// An exit status in words.
pub open spec fn status_text(status: Option<i32>) -> Seq<char> {
    match status {
        Some(n) => if n < 0 {
            "Some(-"@ + decimal((-n) as nat) + ")"@
        } else {
            "Some("@ + decimal(n as nat) + ")"@
        },
        None => "None"@,
    }
}

/// An exit status in words.
pub fn render_status(status: Option<i32>) -> (r: String)
    ensures
        r@ == status_text(status),
{
    match status {
        Some(n) => if n < 0 {
            let magnitude: u128 = (-(n as i64)) as u128;
            concat3("Some(-", &render_u128(magnitude), ")")
        } else {
            concat3("Some(", &render_u128(n as u128), ")")
        },
        None => "None".to_owned(),
    }
}

/// Why a Git process failed: what it printed on standard error and standard output, or, where it
/// printed nothing, what it was asked and how it ended.
pub open spec fn failure_text(output: GitProcessOutput) -> Seq<char> {
    if output.stderr@.len() > 0 && output.stdout@.len() > 0 {
        output.stderr@ + " | "@ + output.stdout@
    } else if output.stderr@.len() > 0 {
        output.stderr@
    } else if output.stdout@.len() > 0 {
        output.stdout@
    } else {
        "git failed for args "@ + debug_list_text(texts(output.args@)) + " with status "@
            + status_text(output.status)
    }
}

/// Why a Git process failed.
pub fn format_git_failure(output: &GitProcessOutput) -> (r: String)
    ensures
        r@ == failure_text(*output),
{
    let err = !output.stderr.as_str().is_empty();
    let out = !output.stdout.as_str().is_empty();
    if err && out {
        concat3(&output.stderr, " | ", &output.stdout)
    } else if err {
        output.stderr.clone()
    } else if out {
        output.stdout.clone()
    } else {
        concat4(
            "git failed for args ",
            &debug_list(&output.args),
            " with status ",
            &render_status(output.status),
        )
    }
}

impl GitCommandError {
    pub open spec fn message_text(self) -> Seq<char> {
        match self {
            GitCommandError::Spawn { args, error } => "failed to spawn git for args "@
                + debug_list_text(texts(args@)) + ": "@ + error@,
            GitCommandError::NonZeroExit { args, status, stderr } => "git failed for args "@
                + debug_list_text(texts(args@)) + " with status "@ + status_text(status) + ": "@
                + stderr@,
        }
    }

    /// The error in words.
    pub fn message(&self) -> (r: String)
        ensures
            r@ == self.message_text(),
    {
        match self {
            GitCommandError::Spawn { args, error } => concat4(
                "failed to spawn git for args ",
                &debug_list(args),
                ": ",
                error,
            ),
            GitCommandError::NonZeroExit { args, status, stderr } => {
                let head = concat4(
                    "git failed for args ",
                    &debug_list(args),
                    " with status ",
                    &render_status(*status),
                );
                concat3(&head, ": ", stderr)
            },
        }
    }
}

/// What is told of a Git process that failed holds all that it printed.
pub proof fn law_failures_tell_what_was_printed(output: GitProcessOutput)
    ensures
        crate::text::holds(failure_text(output), output.stderr@),
        crate::text::holds(failure_text(output), output.stdout@),
        output.stderr@.len() > 0 ==> crate::text::begins(failure_text(output), output.stderr@),
        output.stderr@.len() > 0 && output.stdout@.len() == 0 ==> failure_text(output)
            == output.stderr@,
{
    let said = failure_text(output);
    let err = output.stderr@;
    let out = output.stdout@;
    reveal_strlit(" | ");
    assert(crate::text::stands_at(said, err, 0)) by {
        assert(said.subrange(0, err.len() as int) =~= err);
    }
    let at = said.len() - out.len();
    let k = if out.len() > 0 {
        at as int
    } else {
        0
    };
    assert(crate::text::stands_at(said, out, k)) by {
        assert(said.subrange(k, k + out.len()) =~= out);
    }
    if err.len() > 0 {
        assert(said.take(err.len() as int) =~= err);
    }
}

/// A Git process that printed nothing on standard error is told of by what it printed on standard
/// output, and one that printed nothing at all by its exit status.
pub proof fn law_silent_failures_tell_their_status(output: GitProcessOutput)
    requires
        output.stderr@.len() == 0,
    ensures
        output.stdout@.len() > 0 ==> failure_text(output) == output.stdout@,
        output.stdout@.len() == 0 ==> crate::text::begins(
            failure_text(output),
            "git failed for args "@,
        ),
        output.stdout@.len() == 0 && output.status is None ==> crate::text::ends(
            failure_text(output),
            "None"@,
        ),
        output.stdout@.len() == 0 && output.status is Some && output.status->0 >= 0
            ==> crate::text::ends(
            failure_text(output),
            "Some("@ + decimal(output.status->0 as nat) + ")"@,
        ),
        output.stdout@.len() == 0 && output.status is Some && output.status->0 < 0
            ==> crate::text::ends(
            failure_text(output),
            "Some(-"@ + decimal((-output.status->0) as nat) + ")"@,
        ),
{
    if output.stdout@.len() == 0 {
        let said = failure_text(output);
        let status = status_text(output.status);
        let lead = "git failed for args "@;
        assert(said.take(lead.len() as int) =~= lead);
        assert(said.skip(said.len() - status.len()) =~= status);
    }
}

} // verus!
