//! The two texts that a changed file is compared by.

use crate::changes::{ChangedFile, ChangedFileView, Status};
use crate::git;
use crate::git::{GitRunError, GitShell, Reply, RunErrorView};
use crate::revs::{RevSpec, RevSpecView, Source, SourceView};
use crate::text;
use vstd::prelude::*;

verus! {

/// Why one diff side's content could not be loaded.
#[derive(Debug, PartialEq, Eq)]
pub enum FetchError {
    /// The side is not text: binary blob, non-UTF-8 bytes, or an unreadable
    /// file. Surfaced as "(binary or unreadable)".
    Binary,
    /// git itself failed to produce the content (missing blob, submodule, ...).
    GitFailed(GitRunError),
}

/// What a `FetchError` says.
pub enum FetchErrorView {
    Binary,
    GitFailed(RunErrorView),
}

impl View for FetchError {
    type V = FetchErrorView;

    open spec fn view(&self) -> FetchErrorView {
        match *self {
            FetchError::Binary => FetchErrorView::Binary,
            FetchError::GitFailed(e) => FetchErrorView::GitFailed(e@),
        }
    }
}

/// The message for a `FetchError`.
pub open spec fn fetch_error_text(e: FetchErrorView) -> Seq<char> {
    match e {
        FetchErrorView::Binary => "binary or unreadable"@,
        FetchErrorView::GitFailed(e) => "git failed: "@ + git::run_error_text(e),
    }
}

impl FetchError {
    /// The message for this error.
    pub fn message(&self) -> (r: String)
        ensures
            r@ == fetch_error_text(self@),
    {
        match self {
            FetchError::Binary => "binary or unreadable".to_string(),
            FetchError::GitFailed(e) => {
                let why = e.message();
                "git failed: ".to_string().concat(why.as_str())
            },
        }
    }
}

/// A side's text, as contracts speak of it.
pub type SideText = Result<Seq<char>, FetchErrorView>;

/// What a side's text says.
pub open spec fn side_view(r: Result<String, FetchError>) -> SideText {
    match r {
        Ok(s) => Ok(s@),
        Err(e) => Err(e@),
    }
}

/// A file on disk: a path below a directory.
#[derive(Debug, PartialEq, Eq)]
pub struct DiskPath {
    pub root: String,
    pub path: String,
}

/// The files on disk that the two sides of a changed file are read from.
#[derive(Debug, PartialEq, Eq)]
pub struct DiskReads {
    pub old: Option<DiskPath>,
    pub new: Option<DiskPath>,
}

/// The texts of the files that `DiskReads` names; `None` where a file was not
/// asked for or could not be read as text.
#[derive(Debug, PartialEq, Eq)]
pub struct DiskTexts {
    pub old: Option<String>,
    pub new: Option<String>,
}

impl Default for DiskTexts {
    /// No text at all.
    fn default() -> (r: DiskTexts)
        ensures
            r.old is None,
            r.new is None,
    {
        DiskTexts { old: None, new: None }
    }
}

/// What a text read from disk says; `None` where the file was unreadable.
pub open spec fn disk_view(disk: Option<String>) -> Option<Seq<char>> {
    match disk {
        Some(s) => Some(s@),
        None => None,
    }
}

/// The name of the git object that holds `path` on this side, `None` where the
/// side is on disk. Paths from `git diff --name-status` are root-relative, or
/// relative to `prefix`; `cat-file` resolves against the root.
pub open spec fn object_of(src: SourceView, prefix: Seq<char>, path: Seq<char>) -> Option<
    Seq<char>,
> {
    match src {
        SourceView::Worktree => None,
        SourceView::Index => Some(seq![':'] + prefix + path),
        SourceView::Rev(rev) => Some(rev.push(':') + prefix + path),
    }
}

/// The arguments that ask for a blob.
pub open spec fn blob_args(object: Seq<char>) -> Seq<Seq<char>> {
    seq!["cat-file"@, "-p"@, object]
}

/// The text that a reply to `blob_args` amounts to.
pub open spec fn blob_of(reply: Reply) -> SideText {
    match reply {
        Ok(s) => Ok(s),
        Err(RunErrorView::NonUtf8) => Err(FetchErrorView::Binary),
        Err(e) => Err(FetchErrorView::GitFailed(e)),
    }
}

/// The text of a file on disk.
pub open spec fn disk_text(disk: Option<Seq<char>>) -> SideText {
    match disk {
        Some(s) => Ok(s),
        None => Err(FetchErrorView::Binary),
    }
}

/// The text that a reply to `cat-file -p <object>` amounts to.
pub fn blob_reply(reply: Result<String, GitRunError>) -> (r: Result<String, FetchError>)
    ensures
        side_view(r) == blob_of(git::reply_view(reply)),
{
    match reply {
        Ok(s) => Ok(s),
        Err(e) => match e {
            GitRunError::NonUtf8 => Err(FetchError::Binary),
            e => Err(FetchError::GitFailed(e)),
        },
    }
}

/// Whether `side` may be what asking git for a blob gives.
pub open spec fn blob_possible<G: GitShell + ?Sized>(
    g: &G,
    object: Seq<char>,
    side: SideText,
) -> bool {
    exists|reply: Reply| #[trigger]
        g.answers(blob_args(object), false, reply) && side == blob_of(reply)
}

/// Asks git for a blob.
pub fn fetch_blob<G: GitShell + ?Sized>(g: &G, object: &str) -> (r: Result<String, FetchError>)
    ensures
        blob_possible(g, object@, side_view(r)),
{
    let args: [&str; 3] = ["cat-file", "-p", object];
    let reply = g.output(&args);
    assert(text::str_texts(args@) =~= blob_args(object@));
    blob_reply(reply)
}

/// Whether `side` may be what fetching `path` from `src` gives, where `disk` is
/// the text of the file in the worktree.
pub open spec fn source_possible<G: GitShell + ?Sized>(
    g: &G,
    src: SourceView,
    prefix: Seq<char>,
    path: Seq<char>,
    disk: Option<Seq<char>>,
    side: SideText,
) -> bool {
    match object_of(src, prefix, path) {
        None => side == disk_text(disk),
        Some(object) => blob_possible(g, object, side),
    }
}

/// Fetches `path` from `src`; `disk` is the text of the file in the worktree,
/// `None` where it could not be read.
pub fn fetch_source<G: GitShell + ?Sized>(
    g: &G,
    spec: &RevSpec,
    src: &Source,
    path: &str,
    disk: Option<String>,
) -> (r: Result<String, FetchError>)
    ensures
        source_possible(g, src@, spec@.prefix, path@, disk_view(disk), side_view(r)),
{
    match src {
        Source::Worktree => match disk {
            Some(s) => Ok(s),
            None => Err(FetchError::Binary),
        },
        Source::Index => {
            let mut object = String::new();
            object.push(':');
            object.append(spec.prefix.as_str());
            object.append(path);
            assert(object@ =~= seq![':'] + spec@.prefix + path@);
            fetch_blob(g, object.as_str())
        },
        Source::Rev(rev) => {
            let mut object = rev.clone();
            object.push(':');
            object.append(spec.prefix.as_str());
            object.append(path);
            assert(object@ =~= rev@.push(':') + spec@.prefix + path@);
            fetch_blob(g, object.as_str())
        },
    }
}

/// The file on disk that this side reads, if it is a worktree side.
pub open spec fn disk_path_of(src: SourceView, spec: RevSpecView, path: Seq<char>) -> Option<
    (Seq<char>, Seq<char>),
> {
    match src {
        SourceView::Worktree => Some((spec.toplevel, spec.prefix + path)),
        _ => None,
    }
}

/// What a file on disk is.
pub open spec fn disk_path_view(p: Option<DiskPath>) -> Option<(Seq<char>, Seq<char>)> {
    match p {
        Some(p) => Some((p.root@, p.path@)),
        None => None,
    }
}

/// What the files on disk are.
pub open spec fn reads_view(r: DiskReads) -> (
    Option<(Seq<char>, Seq<char>)>,
    Option<(Seq<char>, Seq<char>)>,
) {
    (disk_path_view(r.old), disk_path_view(r.new))
}

/// The file on disk that this side reads, if it is a worktree side.
fn disk_path(src: &Source, spec: &RevSpec, path: &str) -> (r: Option<DiskPath>)
    ensures
        disk_path_view(r) == disk_path_of(src@, spec@, path@),
{
    match src {
        Source::Worktree => {
            let mut p = spec.prefix.clone();
            p.append(path);
            Some(DiskPath { root: spec.toplevel.clone(), path: p })
        },
        Source::Index => None,
        Source::Rev(_) => None,
    }
}

/// The files on disk that the old and the new side of a changed file are read
/// from. An added file has no old side, a deleted file no new side.
pub open spec fn reads_of(spec: RevSpecView, file: ChangedFileView) -> (
    Option<(Seq<char>, Seq<char>)>,
    Option<(Seq<char>, Seq<char>)>,
) {
    (
        if file.status == Status::Added {
            None
        } else {
            disk_path_of(spec.old, spec, file.old_path)
        },
        if file.status == Status::Deleted {
            None
        } else {
            disk_path_of(spec.new, spec, file.new_path)
        },
    )
}

/// The files on disk whose texts `load_content` needs.
pub fn disk_reads(spec: &RevSpec, file: &ChangedFile) -> (r: DiskReads)
    ensures
        reads_view(r) == reads_of(spec@, file@),
{
    let old = if file.status == Status::Added {
        None
    } else {
        disk_path(&spec.old, spec, file.old_path.as_str())
    };
    let new = if file.status == Status::Deleted {
        None
    } else {
        disk_path(&spec.new, spec, file.new_path.as_str())
    };
    DiskReads { old, new }
}

/// Whether `side` may be the old side of a changed file.
pub open spec fn old_possible<G: GitShell + ?Sized>(
    g: &G,
    spec: RevSpecView,
    file: ChangedFileView,
    disk: Option<Seq<char>>,
    side: SideText,
) -> bool {
    if file.status == Status::Added {
        side == Ok::<Seq<char>, FetchErrorView>(Seq::empty())
    } else {
        source_possible(g, spec.old, spec.prefix, file.old_path, disk, side)
    }
}

/// Whether `side` may be the new side of a changed file.
pub open spec fn new_possible<G: GitShell + ?Sized>(
    g: &G,
    spec: RevSpecView,
    file: ChangedFileView,
    disk: Option<Seq<char>>,
    side: SideText,
) -> bool {
    if file.status == Status::Deleted {
        side == Ok::<Seq<char>, FetchErrorView>(Seq::empty())
    } else {
        source_possible(g, spec.new, spec.prefix, file.new_path, disk, side)
    }
}

/// Both texts of a changed file; `None` where one of them is not text.
pub type Texts = Result<Option<(Seq<char>, Seq<char>)>, FetchErrorView>;

/// What an answer of `load_content` says.
pub open spec fn texts_view(r: Result<Option<(String, String)>, FetchError>) -> Texts {
    match r {
        Ok(Some((old, new))) => Ok(Some((old@, new@))),
        Ok(None) => Ok(None),
        Err(e) => Err(e@),
    }
}

/// What two sides amount to: a failure of git comes through, the old side's
/// first; a side that is not text hides both.
pub open spec fn texts_of(old: SideText, new: SideText) -> Texts {
    match (old, new) {
        (Err(FetchErrorView::GitFailed(e)), _) => Err(FetchErrorView::GitFailed(e)),
        (_, Err(FetchErrorView::GitFailed(e))) => Err(FetchErrorView::GitFailed(e)),
        (Ok(a), Ok(b)) => Ok(Some((a, b))),
        _ => Ok(None),
    }
}

/// What two sides amount to.
pub fn pair_texts(old: Result<String, FetchError>, new: Result<String, FetchError>) -> (r: Result<
    Option<(String, String)>,
    FetchError,
>)
    ensures
        texts_view(r) == texts_of(side_view(old), side_view(new)),
{
    let a = match old {
        Ok(s) => Some(s),
        Err(e) => match e {
            FetchError::Binary => None,
            FetchError::GitFailed(e) => {
                return Err(FetchError::GitFailed(e));
            },
        },
    };
    let b = match new {
        Ok(s) => Some(s),
        Err(e) => match e {
            FetchError::Binary => None,
            FetchError::GitFailed(e) => {
                return Err(FetchError::GitFailed(e));
            },
        },
    };
    match a {
        Some(old) => match b {
            Some(new) => Ok(Some((old, new))),
            None => Ok(None),
        },
        None => Ok(None),
    }
}

/// Whether `r` may be the outcome of loading both sides of a changed file. The
/// new side is not asked for once git has failed on the old one.
pub open spec fn load_possible<G: GitShell + ?Sized>(
    g: &G,
    spec: RevSpecView,
    file: ChangedFileView,
    disk: DiskTexts,
    r: Texts,
) -> bool {
    exists|old: SideText| #[trigger]
        old_possible(g, spec, file, disk_view(disk.old), old) && match old {
            Err(FetchErrorView::GitFailed(e)) => r == Err::<
                Option<(Seq<char>, Seq<char>)>,
                FetchErrorView,
            >(FetchErrorView::GitFailed(e)),
            _ => exists|new: SideText| #[trigger]
                new_possible(g, spec, file, disk_view(disk.new), new) && r == texts_of(old, new),
        }
}

/// Loads the (old, new) contents of a changed file. `Ok(None)` means that one
/// side is binary or unreadable; `Err` means that git itself failed. Added
/// files have an empty old side; deleted files an empty new side. `disk` holds
/// the texts of the files that `disk_reads` names.
pub fn load_content<G: GitShell + ?Sized>(
    g: &G,
    spec: &RevSpec,
    file: &ChangedFile,
    disk: DiskTexts,
) -> (r: Result<Option<(String, String)>, FetchError>)
    ensures
        load_possible(g, spec@, file@, disk, texts_view(r)),
{
    let old = if file.status == Status::Added {
        Ok(String::new())
    } else {
        fetch_source(g, spec, &spec.old, file.old_path.as_str(), disk.old)
    };
    proof {
        assert(old_possible(g, spec@, file@, disk_view(disk.old), side_view(old)));
    }
    if let Err(FetchError::GitFailed(e)) = old {
        return Err(FetchError::GitFailed(e));
    }
    let new = if file.status == Status::Deleted {
        Ok(String::new())
    } else {
        fetch_source(g, spec, &spec.new, file.new_path.as_str(), disk.new)
    };
    proof {
        assert(new_possible(g, spec@, file@, disk_view(disk.new), side_view(new)));
    }
    pair_texts(old, new)
}

} // verus!
