//! Opening a repository: from revision arguments to the list of changed files.

use crate::changes;
use crate::changes::{ChangedFile, ChangedFileView};
use crate::git;
use crate::git::{GitError, GitErrorView, GitRunError, GitShell, RunErrorView};
use crate::revs;
use crate::revs::{RevSpec, RevSpecView};
use crate::text;
use vstd::prelude::*;

verus! {

/// What is compared, and the files that changed.
#[derive(Debug, PartialEq, Eq)]
pub struct Repo {
    pub spec: RevSpec,
    pub files: Vec<ChangedFile>,
}

/// What a `Repo` says.
#[verifier::ext_equal]
pub struct RepoView {
    pub spec: RevSpecView,
    pub files: Seq<ChangedFileView>,
}

impl View for Repo {
    type V = RepoView;

    open spec fn view(&self) -> RepoView {
        RepoView { spec: self.spec@, files: changes::file_views(self.files@) }
    }
}

/// Why a repository could not be opened.
#[derive(Debug, PartialEq, Eq)]
pub enum OpenError {
    /// git could not say whether there is a repository.
    Run(GitRunError),
    /// There is none, or it cannot be compared as asked.
    Git(GitError),
}

/// What an `OpenError` says.
pub enum OpenErrorView {
    Run(RunErrorView),
    Git(GitErrorView),
}

impl View for OpenError {
    type V = OpenErrorView;

    open spec fn view(&self) -> OpenErrorView {
        match *self {
            OpenError::Run(e) => OpenErrorView::Run(e@),
            OpenError::Git(e) => OpenErrorView::Git(e@),
        }
    }
}

/// The message for an `OpenError`.
pub open spec fn open_error_text(e: OpenErrorView) -> Seq<char> {
    match e {
        OpenErrorView::Run(e) => git::run_error_text(e),
        OpenErrorView::Git(e) => git::git_error_text(e),
    }
}

/// An `OpenError` as a `GitError`.
pub open spec fn as_git_error(e: OpenErrorView) -> GitErrorView {
    match e {
        OpenErrorView::Run(e) => GitErrorView::GitFailed(git::run_error_text(e)),
        OpenErrorView::Git(e) => e,
    }
}

impl OpenError {
    /// The message for this error.
    pub fn message(&self) -> (r: String)
        ensures
            r@ == open_error_text(self@),
    {
        match self {
            OpenError::Run(e) => e.message(),
            OpenError::Git(e) => e.message(),
        }
    }

    /// This error as a `GitError`.
    pub fn into_git(self) -> (r: GitError)
        ensures
            r@ == as_git_error(self@),
    {
        match self {
            OpenError::Run(e) => GitError::from_run(&e),
            OpenError::Git(e) => e,
        }
    }
}

/// What opening a repository gave.
pub type Opened = Result<RepoView, OpenErrorView>;

/// What an answer of `open_repo` says.
pub open spec fn opened_view(r: Result<Repo, OpenError>) -> Opened {
    match r {
        Ok(repo) => Ok(repo@),
        Err(e) => Err(e@),
    }
}

/// Whether `r` may come of listing the changed files of `spec`.
pub open spec fn list_possible<G: GitShell + ?Sized>(
    g: &G,
    spec: RevSpecView,
    r: Opened,
) -> bool {
    exists|files: Result<Seq<ChangedFileView>, GitErrorView>| #[trigger]
        changes::files_possible(g, spec.diff_args, files) && r == match files {
            Ok(files) => Ok::<RepoView, OpenErrorView>(RepoView { spec, files }),
            Err(e) => Err(OpenErrorView::Git(e)),
        }
}

/// Whether `r` may come of opening a repository that is known to be there.
pub open spec fn compare_possible<G: GitShell + ?Sized>(
    g: &G,
    cached: bool,
    revs: Seq<Seq<char>>,
    r: Opened,
) -> bool {
    exists|spec: Result<RevSpecView, GitErrorView>| #[trigger]
        revs::resolve_possible(g, cached, revs, spec) && match spec {
            Ok(spec) => list_possible(g, spec, r),
            Err(e) => r == Err::<RepoView, OpenErrorView>(OpenErrorView::Git(e)),
        }
}

/// Whether `r` may come of opening a repository: first git is asked whether
/// there is one, then the revisions are resolved, then the files are listed;
/// the first failure ends it.
pub open spec fn open_possible<G: GitShell + ?Sized>(
    g: &G,
    cached: bool,
    revs: Seq<Seq<char>>,
    r: Opened,
) -> bool {
    exists|inside: Result<bool, RunErrorView>| #[trigger]
        git::repo_possible(g, inside) && match inside {
            Err(e) => r == Err::<RepoView, OpenErrorView>(OpenErrorView::Run(e)),
            Ok(false) => r == Err::<RepoView, OpenErrorView>(
                OpenErrorView::Git(GitErrorView::NotARepo),
            ),
            Ok(true) => compare_possible(g, cached, revs, r),
        }
}

/// Resolves the revisions and lists the changed files.
fn compare<G: GitShell + ?Sized>(g: &G, cached: bool, revs: &[String]) -> (r: Result<
    Repo,
    OpenError,
>)
    ensures
        compare_possible(g, cached, text::texts(revs@), opened_view(r)),
{
    let resolved = revs::resolve(g, cached, revs);
    let ghost answer = revs::resolve_view(resolved);
    assert(revs::resolve_possible(g, cached, text::texts(revs@), answer));
    let spec = match resolved {
        Ok(spec) => spec,
        Err(e) => {
            return Err(OpenError::Git(e));
        },
    };
    let listed = changes::changed_files(g, &spec);
    let ghost list = changes::files_view(listed);
    assert(changes::files_possible(g, spec@.diff_args, list));
    let r = match listed {
        Ok(files) => Ok(Repo { spec, files }),
        Err(e) => Err(OpenError::Git(e)),
    };
    assert(list_possible(g, spec@, opened_view(r)));
    r
}

/// Opens the repository around the current directory and compares what the
/// revision arguments say.
pub fn open_repo<G: GitShell + ?Sized>(g: &G, cached: bool, revs: &[String]) -> (r: Result<
    Repo,
    OpenError,
>)
    ensures
        open_possible(g, cached, text::texts(revs@), opened_view(r)),
{
    let inside = git::in_repo(g);
    let ghost answer = git::in_repo_view(inside);
    assert(git::repo_possible(g, answer));
    match inside {
        Err(e) => Err(OpenError::Run(e)),
        Ok(inside) => if inside {
            compare(g, cached, revs)
        } else {
            Err(OpenError::Git(GitError::NotARepo))
        },
    }
}

} // verus!
