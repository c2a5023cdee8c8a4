//! Git as the rest of the crate sees it: a shell that is handed arguments and
//! gives a reply.

use crate::text;
use vstd::prelude::*;

verus! {

/// Why a git invocation failed.
#[derive(Debug, PartialEq, Eq)]
pub enum GitRunError {
    /// The git executable could not be spawned (e.g. not on PATH).
    SpawnFailed,
    /// git ran but exited non-zero.
    NonZero { code: Option<i32>, stderr: String },
    /// The output was not valid UTF-8.
    NonUtf8,
}

/// What a `GitRunError` says.
pub enum RunErrorView {
    SpawnFailed,
    NonZero { code: Option<i32>, stderr: Seq<char> },
    NonUtf8,
}

impl View for GitRunError {
    type V = RunErrorView;

    open spec fn view(&self) -> RunErrorView {
        match *self {
            GitRunError::SpawnFailed => RunErrorView::SpawnFailed,
            GitRunError::NonZero { code, stderr } => RunErrorView::NonZero {
                code,
                stderr: stderr@,
            },
            GitRunError::NonUtf8 => RunErrorView::NonUtf8,
        }
    }
}

impl Clone for GitRunError {
    fn clone(&self) -> (r: Self)
        ensures
            r == *self,
    {
        match self {
            GitRunError::SpawnFailed => GitRunError::SpawnFailed,
            GitRunError::NonZero { code, stderr } => GitRunError::NonZero {
                code: *code,
                stderr: stderr.clone(),
            },
            GitRunError::NonUtf8 => GitRunError::NonUtf8,
        }
    }
}

/// An exit status in a message; `?` where a signal ended the process.
pub open spec fn code_text(code: Option<i32>) -> Seq<char> {
    match code {
        Some(c) => text::signed_decimal(c as int),
        None => "?"@,
    }
}

/// The message for a failed git invocation.
pub open spec fn run_error_text(e: RunErrorView) -> Seq<char> {
    match e {
        RunErrorView::SpawnFailed => "could not run git (is it installed?)"@,
        RunErrorView::NonZero { code, stderr } => if stderr.len() == 0 {
            "git exited with status "@ + code_text(code)
        } else {
            "git exited with status "@ + code_text(code) + ": "@ + stderr
        },
        RunErrorView::NonUtf8 => "git produced non-UTF-8 output"@,
    }
}

impl GitRunError {
    /// The message for this failure.
    pub fn message(&self) -> (r: String)
        ensures
            r@ == run_error_text(self@),
    {
        match self {
            GitRunError::SpawnFailed => "could not run git (is it installed?)".to_string(),
            GitRunError::NonZero { code, stderr } => {
                let mut r = "git exited with status ".to_string();
                let c = match code {
                    Some(c) => text::signed_decimal_text(*c),
                    None => "?".to_string(),
                };
                r.append(c.as_str());
                if !stderr.as_str().is_empty() {
                    r.append(": ");
                    r.append(stderr.as_str());
                }
                r
            },
            GitRunError::NonUtf8 => "git produced non-UTF-8 output".to_string(),
        }
    }
}

/// A reply of git, as contracts speak of it.
pub type Reply = Result<Seq<char>, RunErrorView>;

/// What a reply says.
pub open spec fn reply_view(r: Result<String, GitRunError>) -> Reply {
    match r {
        Ok(s) => Ok(s@),
        Err(e) => Err(e@),
    }
}

/// Runs git. A test can put a `FakeGit` in its place.
pub trait GitShell {
    /// Whether `reply` is one that running git with `args` may give, its
    /// output decoded lossily where `lossy` holds. A shell that knows nothing
    /// of its replies may give any.
    open spec fn answers(&self, args: Seq<Seq<char>>, lossy: bool, reply: Reply) -> bool {
        true
    }

    /// Runs git with `args`; `Err` on spawn failure, non-zero exit, or
    /// non-UTF-8 output. `Ok("")` is a successful empty output.
    fn output(&self, args: &[&str]) -> (r: Result<String, GitRunError>)
        ensures
            self.answers(text::str_texts(args@), false, reply_view(r)),
    ;

    /// Like `output`, but decodes non-UTF-8 output lossily. For output that
    /// must not fail on exotic bytes (e.g. file lists).
    fn output_lossy(&self, args: &[&str]) -> (r: Result<String, GitRunError>)
        ensures
            self.answers(text::str_texts(args@), true, reply_view(r)),
    ;
}

/// Why a revision argument or a run of git cannot be used.
#[derive(Debug, PartialEq, Eq)]
pub enum GitError {
    NotARepo,
    InvalidRevSpec(String),
    MergeBaseFailed(String),
    GitFailed(String),
}

/// What a `GitError` says.
pub enum GitErrorView {
    NotARepo,
    InvalidRevSpec(Seq<char>),
    MergeBaseFailed(Seq<char>),
    GitFailed(Seq<char>),
}

impl View for GitError {
    type V = GitErrorView;

    open spec fn view(&self) -> GitErrorView {
        match *self {
            GitError::NotARepo => GitErrorView::NotARepo,
            GitError::InvalidRevSpec(m) => GitErrorView::InvalidRevSpec(m@),
            GitError::MergeBaseFailed(m) => GitErrorView::MergeBaseFailed(m@),
            GitError::GitFailed(m) => GitErrorView::GitFailed(m@),
        }
    }
}

/// The message for a `GitError`.
pub open spec fn git_error_text(e: GitErrorView) -> Seq<char> {
    match e {
        GitErrorView::NotARepo => "not a git repository"@,
        GitErrorView::InvalidRevSpec(m) => "invalid revision arguments: "@ + m,
        GitErrorView::MergeBaseFailed(m) => "merge-base failed for "@ + m,
        GitErrorView::GitFailed(m) => "git failed: "@ + m,
    }
}

impl GitError {
    /// The message for this error.
    pub fn message(&self) -> (r: String)
        ensures
            r@ == git_error_text(self@),
    {
        match self {
            GitError::NotARepo => "not a git repository".to_string(),
            GitError::InvalidRevSpec(m) => "invalid revision arguments: ".to_string().concat(
                m.as_str(),
            ),
            GitError::MergeBaseFailed(m) => "merge-base failed for ".to_string().concat(
                m.as_str(),
            ),
            GitError::GitFailed(m) => "git failed: ".to_string().concat(m.as_str()),
        }
    }

    /// A failed run of git as an error of its own.
    pub fn from_run(e: &GitRunError) -> (r: GitError)
        ensures
            r@ == GitErrorView::GitFailed(run_error_text(e@)),
    {
        GitError::GitFailed(e.message())
    }
}

/// The arguments that ask for the repository's directory.
pub open spec fn git_dir_args() -> Seq<Seq<char>> {
    seq!["rev-parse"@, "--git-dir"@]
}

/// Whether a reply to `git_dir_args` puts us inside a repository: a non-zero
/// exit means outside, any other failure is an error.
pub open spec fn repo_of_reply(reply: Reply) -> Result<bool, RunErrorView> {
    match reply {
        Ok(s) => Ok(s.len() > 0),
        Err(RunErrorView::NonZero { .. }) => Ok(false),
        Err(e) => Err(e),
    }
}

/// What an answer of `in_repo` says.
pub open spec fn in_repo_view(r: Result<bool, GitRunError>) -> Result<bool, RunErrorView> {
    match r {
        Ok(b) => Ok(b),
        Err(e) => Err(e@),
    }
}

/// Whether a reply to `rev-parse --git-dir` puts us inside a repository.
pub fn repo_reply(reply: Result<String, GitRunError>) -> (r: Result<bool, GitRunError>)
    ensures
        in_repo_view(r) == repo_of_reply(reply_view(reply)),
{
    match reply {
        Ok(s) => Ok(!s.as_str().is_empty()),
        Err(e) => match e {
            GitRunError::NonZero { code, stderr } => Ok(false),
            e => Err(e),
        },
    }
}

/// Whether `r` may be what asking git for the repository's directory gives.
pub open spec fn repo_possible<G: GitShell + ?Sized>(
    g: &G,
    r: Result<bool, RunErrorView>,
) -> bool {
    exists|reply: Reply| #[trigger]
        g.answers(git_dir_args(), false, reply) && r == repo_of_reply(reply)
}

/// True when the current directory is inside a git repository. `Ok(false)` for
/// a non-zero exit (outside a repository); other failures (missing git binary,
/// non-UTF-8 output) are errors.
pub fn in_repo<G: GitShell + ?Sized>(g: &G) -> (r: Result<bool, GitRunError>)
    ensures
        repo_possible(g, in_repo_view(r)),
{
    let args: [&str; 2] = ["rev-parse", "--git-dir"];
    let reply = g.output(&args);
    assert(text::str_texts(args@) =~= git_dir_args());
    repo_reply(reply)
}

/// One run of the git executable: its exit status and what it wrote.
#[derive(Debug, PartialEq, Eq)]
pub struct GitRun {
    pub success: bool,
    pub code: Option<i32>,
    pub stdout: Vec<u8>,
    pub stderr: Vec<u8>,
}

/// The text that `String::from_utf8_lossy` makes of some bytes.
pub uninterp spec fn lossy_text(bytes: Seq<u8>) -> Seq<char>;

/// `String::from_utf8_lossy`: valid UTF-8 is decoded as it stands; what comes
/// of other bytes depends on the bytes alone.
#[verifier::external_body]
fn decode_lossy(bytes: &[u8]) -> (r: String)
    ensures
        r@ == lossy_text(bytes@),
        vstd::utf8::valid_utf8(bytes@) ==> r@ == vstd::utf8::decode_utf8(bytes@),
{
    String::from_utf8_lossy(bytes).into_owned()
}

/// `String::from_utf8`: decodes valid UTF-8 and refuses anything else.
#[verifier::external_body]
fn decode_strict(bytes: Vec<u8>) -> (r: Option<String>)
    ensures
        r is Some <==> vstd::utf8::valid_utf8(bytes@),
        r matches Some(s) ==> s@ == vstd::utf8::decode_utf8(bytes@),
{
    String::from_utf8(bytes).ok()
}

/// The reply that a run of git amounts to; `None` where git could not be run.
pub open spec fn reply_of_run(run: Option<GitRun>, lossy: bool) -> Reply {
    match run {
        None => Err(RunErrorView::SpawnFailed),
        Some(run) => if !run.success {
            Err(RunErrorView::NonZero { code: run.code, stderr: lossy_text(run.stderr@) })
        } else if lossy {
            Ok(lossy_text(run.stdout@))
        } else if vstd::utf8::valid_utf8(run.stdout@) {
            Ok(vstd::utf8::decode_utf8(run.stdout@))
        } else {
            Err(RunErrorView::NonUtf8)
        },
    }
}

/// The reply that a run of git amounts to; `None` where git could not be run.
pub fn reply_from_run(run: Option<GitRun>, lossy: bool) -> (r: Result<String, GitRunError>)
    ensures
        reply_view(r) == reply_of_run(run, lossy),
        run matches Some(run) ==> run.success && vstd::utf8::valid_utf8(run.stdout@) ==> reply_view(
            r,
        ) == Ok::<Seq<char>, RunErrorView>(vstd::utf8::decode_utf8(run.stdout@)),
{
    match run {
        None => Err(GitRunError::SpawnFailed),
        Some(run) => if !run.success {
            Err(
                GitRunError::NonZero {
                    code: run.code,
                    stderr: decode_lossy(run.stderr.as_slice()),
                },
            )
        } else if lossy {
            Ok(decode_lossy(run.stdout.as_slice()))
        } else {
            match decode_strict(run.stdout) {
                Some(s) => Ok(s),
                None => Err(GitRunError::NonUtf8),
            }
        },
    }
}

} // verus!
