//! The list of changed files, as git reports it.

use crate::git;
use crate::git::{GitError, GitErrorView, GitRunError, GitShell, Reply};
use crate::revs::RevSpec;
use crate::text;
use vstd::prelude::*;

verus! {

#[derive(Debug, Clone, Copy, PartialEq, Eq, Structural)]
pub enum Status {
    Modified,
    Added,
    Deleted,
    Renamed,
}

#[derive(Debug, PartialEq, Eq)]
pub struct ChangedFile {
    pub status: Status,
    pub old_path: String,
    pub new_path: String,
}

/// What a `ChangedFile` says.
#[verifier::ext_equal]
pub struct ChangedFileView {
    pub status: Status,
    pub old_path: Seq<char>,
    pub new_path: Seq<char>,
}

impl View for ChangedFile {
    type V = ChangedFileView;

    open spec fn view(&self) -> ChangedFileView {
        ChangedFileView {
            status: self.status,
            old_path: self.old_path@,
            new_path: self.new_path@,
        }
    }
}

impl Clone for ChangedFile {
    fn clone(&self) -> (r: Self)
        ensures
            r == *self,
    {
        ChangedFile {
            status: self.status,
            old_path: self.old_path.clone(),
            new_path: self.new_path.clone(),
        }
    }
}

/// What a list of changed files says.
pub open spec fn file_views(files: Seq<ChangedFile>) -> Seq<ChangedFileView> {
    files.map_values(|f: ChangedFile| f@)
}

/// The status that a letter stands for; an unknown letter stands for
/// `Modified`.
pub open spec fn status_for(letter: char) -> Status {
    match letter {
        'A' => Status::Added,
        'D' => Status::Deleted,
        'R' => Status::Renamed,
        _ => Status::Modified,
    }
}

/// The status that a letter stands for.
pub fn status_of(letter: char) -> (r: Status)
    ensures
        r == status_for(letter),
{
    match letter {
        'A' => Status::Added,
        'D' => Status::Deleted,
        'R' => Status::Renamed,
        _ => Status::Modified,
    }
}

/// The parts that are not empty, in order.
pub open spec fn non_empty(parts: Seq<Seq<char>>) -> Seq<Seq<char>>
    decreases parts.len(),
{
    if parts.len() == 0 {
        Seq::empty()
    } else if parts.last().len() == 0 {
        non_empty(parts.drop_last())
    } else {
        non_empty(parts.drop_last()).push(parts.last())
    }
}

/// The fields of NUL-separated output.
pub open spec fn fields_of(out: Seq<char>) -> Seq<Seq<char>> {
    non_empty(text::split_on(out, '\0'))
}

/// Whether a record with this status letter carries two paths, old first.
pub open spec fn two_paths(letter: char) -> bool {
    letter == 'R' || letter == 'C'
}

/// Field `i`, or `default` past the end.
pub open spec fn field_or(fields: Seq<Seq<char>>, i: int, default: Seq<char>) -> Seq<char> {
    if 0 <= i < fields.len() {
        fields[i]
    } else {
        default
    }
}

/// The record that starts at field `i`.
pub open spec fn record_at(fields: Seq<Seq<char>>, i: int) -> ChangedFileView {
    let letter = fields[i].first();
    let old = field_or(fields, i + 1, Seq::empty());
    ChangedFileView {
        status: status_for(letter),
        old_path: old,
        new_path: if two_paths(letter) {
            field_or(fields, i + 2, old)
        } else {
            old
        },
    }
}

/// How many fields the record that starts at field `i` takes.
pub open spec fn record_len(fields: Seq<Seq<char>>, i: int) -> int {
    if two_paths(fields[i].first()) {
        3
    } else {
        2
    }
}

/// The records from field `i` on, read by position.
pub open spec fn records_from(fields: Seq<Seq<char>>, i: int) -> Seq<ChangedFileView>
    decreases
            (if i < fields.len() {
                fields.len() - i
            } else {
                0
            }),
{
    if i >= fields.len() {
        Seq::empty()
    } else {
        seq![record_at(fields, i)] + records_from(fields, i + record_len(fields, i))
    }
}

/// The changed files that `git diff --name-status -z` output lists.
pub open spec fn listed_files(out: Seq<char>) -> Seq<ChangedFileView> {
    records_from(fields_of(out), 0)
}

/// The fields of NUL-separated output.
fn split_fields(out: &str) -> (r: Vec<String>)
    ensures
        text::texts(r@) == fields_of(out@),
{
    let parts = text::split_text(out, '\0');
    let ghost t = text::texts(parts@);
    let mut r: Vec<String> = Vec::new();
    let mut i: usize = 0;
    assert(text::texts(r@) =~= non_empty(t.take(0)));
    while i < parts.len()
        invariant
            i <= parts.len(),
            t == text::texts(parts@),
            text::texts(r@) == non_empty(t.take(i as int)),
        decreases parts.len() - i,
    {
        let ghost before = text::texts(r@);
        proof {
            assert(t.take(i + 1).drop_last() =~= t.take(i as int));
            assert(t.take(i + 1).last() == parts@[i as int]@);
        }
        if !parts[i].as_str().is_empty() {
            r.push(parts[i].clone());
            assert(text::texts(r@) =~= before.push(parts@[i as int]@));
        }
        i += 1;
    }
    assert(t.take(i as int) =~= t);
    r
}

proof fn lemma_fields_not_empty(parts: Seq<Seq<char>>)
    ensures
        forall|i: int|
            0 <= i < non_empty(parts).len() ==> (#[trigger] non_empty(parts)[i]).len() > 0,
    decreases parts.len(),
{
    if parts.len() > 0 {
        lemma_fields_not_empty(parts.drop_last());
        let head = non_empty(parts.drop_last());
        assert forall|i: int| 0 <= i < non_empty(parts).len() implies (
        #[trigger] non_empty(parts)[i]).len() > 0 by {
            if i < head.len() {
                assert(non_empty(parts)[i] == head[i]);
            }
        }
    }
}

/// Parses `git diff --name-status -z` output: fields NUL-separated, each file
/// a status letter (possibly `R` plus a similarity score) followed by one path,
/// or by old and new paths for renames and copies. Only the NUL separates
/// fields; a tab inside a filename is data. The field stream is positional, so
/// a single-letter path cannot be mistaken for a status. Unknown status letters
/// are treated as `Modified`.
pub fn parse_name_status_z(out: &str) -> (r: Vec<ChangedFile>)
    ensures
        file_views(r@) == listed_files(out@),
{
    let fields = split_fields(out);
    let ghost t = fields_of(out@);
    proof {
        lemma_fields_not_empty(text::split_on(out@, '\0'));
        assert(t.len() == fields@.len());
    }
    let mut files: Vec<ChangedFile> = Vec::new();
    let mut i: usize = 0;
    assert(file_views(files@) + records_from(t, 0) =~= records_from(t, 0));
    while i < fields.len()
        invariant
            i <= fields.len(),
            t == text::texts(fields@),
            t.len() == fields@.len(),
            forall|x: int| 0 <= x < t.len() ==> (#[trigger] t[x]).len() > 0,
            file_views(files@) + records_from(t, i as int) == records_from(t, 0),
        decreases fields.len() - i,
    {
        let ghost before = file_views(files@);
        assert(t[i as int].len() > 0);
        assert(t[i as int] == fields@[i as int]@);
        let letter = text::chars_of(fields[i].as_str())[0];
        let left: usize = fields.len() - i;
        let old = if left > 1 {
            assert(t[i + 1] == fields@[i + 1]@);
            fields[i + 1].clone()
        } else {
            String::new()
        };
        let two = letter == 'R' || letter == 'C';
        let new = if two && left > 2 {
            assert(t[i + 2] == fields@[i + 2]@);
            fields[i + 2].clone()
        } else {
            old.clone()
        };
        let file = ChangedFile { status: status_of(letter), old_path: old, new_path: new };
        let step: usize = if two {
            3
        } else {
            2
        };
        files.push(file);
        proof {
            assert(file@ == record_at(t, i as int));
            assert(file_views(files@) =~= before + seq![file@]);
            if left <= step {
                assert(records_from(t, i + step) =~= Seq::empty());
                assert(records_from(t, t.len() as int) =~= Seq::empty());
            }
            assert(file_views(files@) + records_from(t, i + step) =~= records_from(t, 0));
        }
        if left <= step {
            i = fields.len();
        } else {
            i += step;
        }
    }
    assert(records_from(t, t.len() as int) =~= Seq::empty());
    files
}

/// The arguments that ask for the list of changed files.
pub open spec fn list_args(diff_args: Seq<Seq<char>>) -> Seq<Seq<char>> {
    seq!["diff"@] + diff_args + seq!["--name-status"@, "-z"@]
}

/// The list that a reply to `list_args` amounts to.
pub open spec fn files_of_reply(reply: Reply) -> Result<Seq<ChangedFileView>, GitErrorView> {
    match reply {
        Ok(out) => Ok(listed_files(out)),
        Err(e) => Err(GitErrorView::GitFailed(git::run_error_text(e))),
    }
}

/// What an answer of `changed_files` says.
pub open spec fn files_view(r: Result<Vec<ChangedFile>, GitError>) -> Result<
    Seq<ChangedFileView>,
    GitErrorView,
> {
    match r {
        Ok(files) => Ok(file_views(files@)),
        Err(e) => Err(e@),
    }
}

/// The list of changed files that a reply to the list command amounts to.
pub fn files_reply(reply: Result<String, GitRunError>) -> (r: Result<Vec<ChangedFile>, GitError>)
    ensures
        files_view(r) == files_of_reply(git::reply_view(reply)),
{
    match reply {
        Ok(out) => Ok(parse_name_status_z(out.as_str())),
        Err(e) => Err(GitError::from_run(&e)),
    }
}

/// Whether `r` may be what asking git for the changed files gives.
pub open spec fn files_possible<G: GitShell + ?Sized>(
    g: &G,
    diff_args: Seq<Seq<char>>,
    r: Result<Seq<ChangedFileView>, GitErrorView>,
) -> bool {
    exists|reply: Reply| #[trigger]
        g.answers(list_args(diff_args), true, reply) && r == files_of_reply(reply)
}

/// The list of changed files for a comparison, via
/// `git diff <diff_args> --name-status -z`. An `Err` means that the command
/// failed (bad revision, `--cached` without a HEAD, ...); an empty list is a
/// genuinely clean tree. The output is decoded lossily: one non-UTF-8 filename
/// must not kill the whole list.
pub fn changed_files<G: GitShell + ?Sized>(g: &G, spec: &RevSpec) -> (r: Result<
    Vec<ChangedFile>,
    GitError,
>)
    ensures
        files_possible(g, spec@.diff_args, files_view(r)),
{
    let mut args: Vec<&str> = Vec::new();
    args.push("diff");
    let mut i: usize = 0;
    assert(text::str_texts(args@) =~= seq!["diff"@] + spec@.diff_args.take(0));
    while i < spec.diff_args.len()
        invariant
            i <= spec.diff_args.len(),
            text::str_texts(args@) == seq!["diff"@] + spec@.diff_args.take(i as int),
        decreases spec.diff_args.len() - i,
    {
        let ghost before = text::str_texts(args@);
        args.push(spec.diff_args[i].as_str());
        proof {
            assert(text::str_texts(args@) =~= before.push(spec@.diff_args[i as int]));
            assert(text::str_texts(args@) =~= seq!["diff"@] + spec@.diff_args.take(i + 1));
        }
        i += 1;
    }
    let ghost before = text::str_texts(args@);
    args.push("--name-status");
    args.push("-z");
    let reply = g.output_lossy(args.as_slice());
    proof {
        assert(text::str_texts(args@) =~= before + seq!["--name-status"@, "-z"@]);
        assert(spec@.diff_args.take(i as int) =~= spec@.diff_args);
        assert(text::str_texts(args@) =~= list_args(spec@.diff_args));
    }
    files_reply(reply)
}

} // verus!
