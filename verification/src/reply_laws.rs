//! What replies of git come to, and how failures are told.

use crate::changes;
use crate::changes::{ChangedFileView, Status};
use crate::fake_git;
use crate::fake_git::FakeGit;
use crate::git;
use crate::git::{GitErrorView, GitRun, GitShell, Reply, RunErrorView};
use crate::git_laws;
use crate::repo;
use crate::repo::{OpenErrorView, Opened, RepoView};
use crate::resolve_laws;
use crate::revs;
use crate::revs::RevSpecView;
use crate::text;
use crate::text_laws;
use vstd::prelude::*;

verus! {

/// How failures are told.
pub proof fn law_failures_are_told(code: i32, stderr: Seq<char>, m: Seq<char>)
    ensures
        git::run_error_text(RunErrorView::SpawnFailed) == "could not run git (is it installed?)"@,
        git::run_error_text(RunErrorView::NonUtf8) == "git produced non-UTF-8 output"@,
        git::run_error_text(RunErrorView::NonZero { code: Some(code), stderr })
            == "git exited with status "@ + text::signed_decimal(code as int) + if stderr.len()
            == 0 {
            Seq::<char>::empty()
        } else {
            ": "@ + stderr
        },
        git::run_error_text(RunErrorView::NonZero { code: None, stderr })
            == "git exited with status "@ + "?"@ + if stderr.len() == 0 {
            Seq::<char>::empty()
        } else {
            ": "@ + stderr
        },
        git::git_error_text(GitErrorView::NotARepo) == "not a git repository"@,
        git::git_error_text(GitErrorView::InvalidRevSpec(m)) == "invalid revision arguments: "@ + m,
        git::git_error_text(GitErrorView::MergeBaseFailed(m)) == "merge-base failed for "@ + m,
        git::git_error_text(GitErrorView::GitFailed(m)) == "git failed: "@ + m,
        repo::open_error_text(OpenErrorView::Run(RunErrorView::SpawnFailed))
            == "could not run git (is it installed?)"@,
        repo::open_error_text(OpenErrorView::Git(GitErrorView::NotARepo))
            == "not a git repository"@,
        repo::open_error_text(OpenErrorView::Git(GitErrorView::GitFailed(m))) == "git failed: "@
            + m,
{
    let some = "git exited with status "@ + text::signed_decimal(code as int);
    let none = "git exited with status "@ + "?"@;
    assert(some + Seq::<char>::empty() =~= some);
    assert(none + Seq::<char>::empty() =~= none);
    assert(some + (": "@ + stderr) =~= some + ": "@ + stderr);
    assert(none + (": "@ + stderr) =~= none + ": "@ + stderr);
}

/// A run that succeeded gives its output: as it stands where it is UTF-8; where
/// it is not, a lossy reader still gets a text and a strict one none. A run that
/// failed gives its exit status and its error output, one that never started
/// neither.
pub proof fn law_run_makes_a_reply(run: GitRun, lossy: bool)
    ensures
        git::reply_of_run(None, lossy) == Err::<Seq<char>, RunErrorView>(
            RunErrorView::SpawnFailed,
        ),
        !run.success ==> git::reply_of_run(Some(run), lossy) == Err::<Seq<char>, RunErrorView>(
            RunErrorView::NonZero { code: run.code, stderr: git::lossy_text(run.stderr@) },
        ),
        run.success && lossy ==> git::reply_of_run(Some(run), lossy) == Ok::<
            Seq<char>,
            RunErrorView,
        >(git::lossy_text(run.stdout@)),
        run.success && !lossy && vstd::utf8::valid_utf8(run.stdout@) ==> git::reply_of_run(
            Some(run),
            lossy,
        ) == Ok::<Seq<char>, RunErrorView>(vstd::utf8::decode_utf8(run.stdout@)),
        run.success && !lossy && !vstd::utf8::valid_utf8(run.stdout@) ==> git::reply_of_run(
            Some(run),
            lossy,
        ) == Err::<Seq<char>, RunErrorView>(RunErrorView::NonUtf8),
{
}

/// Git puts us inside a repository where it names the repository's directory,
/// and outside where it names none or exits with a failure; any other failure
/// tells nothing.
pub proof fn law_directory_means_repository(reply: Reply)
    ensures
        git::repo_of_reply(reply) == Ok::<bool, RunErrorView>(true) <==> (reply matches Ok(s)
            && s.len() > 0),
        git::repo_of_reply(reply) == Ok::<bool, RunErrorView>(false) <==> ((reply matches Ok(s)
            && s.len() == 0) || (reply matches Err(e) && e is NonZero)),
        git::repo_of_reply(reply) matches Err(e) ==> reply == Err::<Seq<char>, RunErrorView>(e),
{
}

/// A repository is opened where git names its directory, the revisions resolve
/// and the files can be listed for them; the first of these that fails is told,
/// and outside a repository nothing else is.
pub proof fn law_repository_is_opened<G: GitShell + ?Sized>(
    g: &G,
    cached: bool,
    revs: Seq<Seq<char>>,
    r: Opened,
)
    requires
        repo::open_possible(g, cached, revs, r),
    ensures
        exists|dir: Reply| #[trigger]
            g.answers(git::git_dir_args(), false, dir) && match dir {
                Ok(s) => if s.len() == 0 {
                    r == Err::<RepoView, OpenErrorView>(OpenErrorView::Git(GitErrorView::NotARepo))
                } else {
                    opened_inside(g, cached, revs, r)
                },
                Err(e) => if e is NonZero {
                    r == Err::<RepoView, OpenErrorView>(OpenErrorView::Git(GitErrorView::NotARepo))
                } else {
                    r == Err::<RepoView, OpenErrorView>(OpenErrorView::Run(e))
                },
            },
{
    let inside = choose|inside: Result<bool, RunErrorView>| #[trigger]
        git::repo_possible(g, inside) && match inside {
            Err(e) => r == Err::<RepoView, OpenErrorView>(OpenErrorView::Run(e)),
            Ok(false) => r == Err::<RepoView, OpenErrorView>(
                OpenErrorView::Git(GitErrorView::NotARepo),
            ),
            Ok(true) => repo::compare_possible(g, cached, revs, r),
        };
    let dir = choose|dir: Reply| #[trigger]
        g.answers(git::git_dir_args(), false, dir) && inside == git::repo_of_reply(dir);
    assert(g.answers(git::git_dir_args(), false, dir));
    if dir is Ok && dir->Ok_0.len() > 0 {
        lemma_opened_inside(g, cached, revs, r);
    }
}

/// Whether `r` may come of opening a repository that is there: the error of its
/// revisions, or the files that git lists for them, or git's failure to.
pub open spec fn opened_inside<G: GitShell + ?Sized>(
    g: &G,
    cached: bool,
    revs: Seq<Seq<char>>,
    r: Opened,
) -> bool {
    exists|spec: Result<RevSpecView, GitErrorView>| #[trigger]
        revs::resolve_possible(g, cached, revs, spec) && match spec {
            Err(e) => r == Err::<RepoView, OpenErrorView>(OpenErrorView::Git(e)),
            Ok(spec) => lists(g, spec, r),
        }
}

/// Whether `r` may come of asking git for the files of a comparison.
pub open spec fn lists<G: GitShell + ?Sized>(g: &G, spec: RevSpecView, r: Opened) -> bool {
    exists|list: Reply| #[trigger]
        g.answers(changes::list_args(spec.diff_args), true, list) && match list {
            Ok(out) => r == Ok::<RepoView, OpenErrorView>(
                RepoView { spec, files: changes::listed_files(out) },
            ),
            Err(e) => r == Err::<RepoView, OpenErrorView>(
                OpenErrorView::Git(GitErrorView::GitFailed(git::run_error_text(e))),
            ),
        }
}

proof fn lemma_opened_inside<G: GitShell + ?Sized>(
    g: &G,
    cached: bool,
    revs: Seq<Seq<char>>,
    r: Opened,
)
    requires
        repo::compare_possible(g, cached, revs, r),
    ensures
        opened_inside(g, cached, revs, r),
{
    let spec = choose|spec: Result<RevSpecView, GitErrorView>| #[trigger]
        revs::resolve_possible(g, cached, revs, spec) && match spec {
            Ok(spec) => repo::list_possible(g, spec, r),
            Err(e) => r == Err::<RepoView, OpenErrorView>(OpenErrorView::Git(e)),
        };
    assert(revs::resolve_possible(g, cached, revs, spec));
    if spec is Ok {
        let s = spec->Ok_0;
        let files = choose|files: Result<Seq<ChangedFileView>, GitErrorView>| #[trigger]
            changes::files_possible(g, s.diff_args, files) && r == match files {
                Ok(files) => Ok::<RepoView, OpenErrorView>(RepoView { spec: s, files }),
                Err(e) => Err(OpenErrorView::Git(e)),
            };
        let list = choose|list: Reply| #[trigger]
            g.answers(changes::list_args(s.diff_args), true, list) && files
                == changes::files_of_reply(list);
        assert(g.answers(changes::list_args(s.diff_args), true, list));
    }
}

/// The first of `revs` that starts with a dash.
proof fn lemma_first_dashed(revs: Seq<Seq<char>>, i: int)
    requires
        0 <= i < revs.len(),
        revs[i].len() > 0,
        revs[i][0] == '-',
        forall|j: int| 0 <= j < i ==> !((#[trigger] revs[j]).len() > 0 && revs[j][0] == '-'),
    ensures
        revs::first_dashed(revs) == Some(revs[i]),
    decreases i,
{
    if i > 0 {
        let rest = revs.drop_first();
        assert(!(revs[0].len() > 0 && revs[0][0] == '-'));
        assert forall|j: int| 0 <= j < i - 1 implies !((#[trigger] rest[j]).len() > 0
            && rest[j][0] == '-') by {
            assert(rest[j] == revs[j + 1]);
        }
        assert(rest[i - 1] == revs[i]);
        lemma_first_dashed(rest, i - 1);
    }
}

/// How wrong revision arguments are told: the first that starts with a dash, or
/// how many there are.
pub proof fn law_wrong_arguments_are_told<G: GitShell + ?Sized>(
    g: &G,
    cached: bool,
    revs: Seq<Seq<char>>,
    i: int,
    r: Result<RevSpecView, GitErrorView>,
)
    requires
        revs::resolve_possible(g, cached, revs, r),
    ensures
        0 <= i < revs.len() && revs[i].len() > 0 && revs[i][0] == '-' && (forall|j: int|
            0 <= j < i ==> !((#[trigger] revs[j]).len() > 0 && revs[j][0] == '-')) ==> r == Err::<
            RevSpecView,
            GitErrorView,
        >(
            GitErrorView::InvalidRevSpec(
                "revision arguments must not start with '-': "@ + revs[i],
            ),
        ),
        !resolve_laws::some_dash(revs) && cached && revs.len() > 1 ==> r == Err::<
            RevSpecView,
            GitErrorView,
        >(GitErrorView::InvalidRevSpec("--cached takes at most one revision"@)),
        !resolve_laws::some_dash(revs) && !cached && revs.len() > 2 ==> r == Err::<
            RevSpecView,
            GitErrorView,
        >(
            GitErrorView::InvalidRevSpec(
                "expected at most two revisions, got "@ + text::decimal(revs.len()),
            ),
        ),
{
    if 0 <= i < revs.len() && revs[i].len() > 0 && revs[i][0] == '-' && (forall|j: int|
        0 <= j < i ==> !((#[trigger] revs[j]).len() > 0 && revs[j][0] == '-')) {
        lemma_first_dashed(revs, i);
    }
    resolve_laws::lemma_first_dashed(revs);
}

/// How a range with a side that starts with a dash is told.
pub proof fn law_dashed_side_is_told(kind: revs::RangeKind, a: Seq<char>, b: Seq<char>)
    ensures
        (a.len() > 0 && a[0] == '-') || (b.len() > 0 && b[0] == '-') ==> revs::plan_of_range(
            kind,
            a,
            b,
        ) == Err::<revs::RevPlanView, Seq<char>>("range sides must not start with '-'"@),
{
}

/// Whether every field is one that output can hold: not empty, and no NUL.
pub open spec fn clean(fields: Seq<Seq<char>>) -> bool {
    forall|i: int|
        0 <= i < fields.len() ==> (#[trigger] fields[i]).len() > 0 && text_laws::free_of(
            fields[i],
            '\0',
        )
}

/// The fields, each with a NUL behind it.
pub open spec fn with_nuls(fields: Seq<Seq<char>>) -> Seq<char> {
    fields.map_values(|f: Seq<char>| f.push('\0')).flatten()
}

proof fn lemma_with_nuls(fields: Seq<Seq<char>>)
    ensures
        with_nuls(fields) == git_laws::terminated(fields),
    decreases fields.len(),
{
    let f = |f: Seq<char>| f.push('\0');
    if fields.len() > 0 {
        let rest = fields.drop_last();
        lemma_with_nuls(rest);
        assert(fields.map_values(f) =~= rest.map_values(f).push(fields.last().push('\0')));
        rest.map_values(f).lemma_flatten_push(fields.last().push('\0'));
        assert(git_laws::terminated(fields) =~= git_laws::terminated(rest) + fields.last().push(
            '\0',
        ));
    } else {
        assert(fields.map_values(f) =~= Seq::<Seq<char>>::empty());
    }
}

proof fn lemma_records_move(fields: Seq<Seq<char>>, n: int, i: int)
    requires
        0 <= n <= fields.len(),
        0 <= i,
    ensures
        changes::records_from(fields, n + i) == changes::records_from(fields.skip(n), i),
    decreases
            (if n + i < fields.len() {
                fields.len() - n - i
            } else {
                0
            }),
{
    let rest = fields.skip(n);
    if n + i < fields.len() {
        assert(rest[i] == fields[n + i]);
        lemma_records_move(fields, n, i + changes::record_len(rest, i));
        assert(changes::record_len(rest, i) == changes::record_len(fields, n + i));
        assert(changes::record_at(rest, i) == changes::record_at(fields, n + i));
    }
}

/// Output is read record by record. The first field is a status, of which the
/// first letter counts: `A`, `D` and `R` stand for added, deleted and renamed,
/// any other for modified. One path follows it, and a second one, the new path,
/// after `R` and `C`. A path that is missing is empty, a second one that is
/// missing is the first one. The rest is read likewise.
pub proof fn law_output_is_read_by_position(fields: Seq<Seq<char>>)
    requires
        clean(fields),
    ensures
        fields.len() == 0 ==> changes::listed_files(with_nuls(fields)).len() == 0,
        fields.len() > 0 ==> ({
            let letter = fields[0][0];
            let two = letter == 'R' || letter == 'C';
            let n: int = if two {
                3
            } else {
                2
            };
            let old = if fields.len() > 1 {
                fields[1]
            } else {
                Seq::<char>::empty()
            };
            let first = ChangedFileView {
                status: if letter == 'A' {
                    Status::Added
                } else if letter == 'D' {
                    Status::Deleted
                } else if letter == 'R' {
                    Status::Renamed
                } else {
                    Status::Modified
                },
                old_path: old,
                new_path: if two && fields.len() > 2 {
                    fields[2]
                } else {
                    old
                },
            };
            let rest = if fields.len() > n {
                fields.skip(n)
            } else {
                Seq::<Seq<char>>::empty()
            };
            changes::listed_files(with_nuls(fields)) == seq![first] + changes::listed_files(
                with_nuls(rest),
            )
        }),
{
    lemma_with_nuls(fields);
    git_laws::lemma_fields_read_back(fields);
    if fields.len() > 0 {
        let letter = fields[0][0];
        let n: int = if letter == 'R' || letter == 'C' {
            3
        } else {
            2
        };
        let rest = if fields.len() > n {
            fields.skip(n)
        } else {
            Seq::<Seq<char>>::empty()
        };
        assert forall|i: int| 0 <= i < rest.len() implies (#[trigger] rest[i]).len() > 0
            && text_laws::free_of(rest[i], '\0') by {
            assert(rest[i] == fields[n + i]);
        }
        lemma_with_nuls(rest);
        git_laws::lemma_fields_read_back(rest);
        assert(changes::record_len(fields, 0) == n);
        if fields.len() > n {
            lemma_records_move(fields, n, 0);
        } else {
            assert(changes::records_from(fields, n) =~= changes::records_from(rest, 0));
        }
    }
}

proof fn lemma_split_concat(x: Seq<char>, y: Seq<char>)
    ensures
        text::split_on(x.push('\0') + y, '\0') == text::split_on(x, '\0') + text::split_on(
            y,
            '\0',
        ),
    decreases y.len(),
{
    let head = x.push('\0');
    text_laws::law_join_undoes_split(y, '\0');
    if y.len() == 0 {
        assert(head + y =~= head);
        assert(head.drop_last() =~= x);
        assert(text::split_on(head, '\0') =~= text::split_on(x, '\0') + text::split_on(
            y,
            '\0',
        ));
    } else {
        let rest = y.drop_last();
        lemma_split_concat(x, rest);
        text_laws::law_join_undoes_split(rest, '\0');
        assert((head + y).drop_last() =~= head + rest);
        assert((head + y).last() == y.last());
        assert(text::split_on(head + y, '\0') =~= text::split_on(x, '\0') + text::split_on(
            y,
            '\0',
        ));
    }
}

/// Empty fields do not count, wherever they stand, and neither does a NUL that
/// is missing at the end: a NUL more before the output, after it, or beside one
/// that is there changes nothing.
pub proof fn law_empty_fields_do_not_count(x: Seq<char>, y: Seq<char>)
    ensures
        changes::listed_files(seq!['\0'] + y) == changes::listed_files(y),
        changes::listed_files(x.push('\0')) == changes::listed_files(x),
        changes::listed_files(x.push('\0').push('\0') + y) == changes::listed_files(
            x.push('\0') + y,
        ),
{
    let empty = Seq::<char>::empty();
    let none = changes::non_empty(text::split_on(empty, '\0'));
    assert(text::split_on(empty, '\0').drop_last() =~= Seq::<Seq<char>>::empty());
    assert(changes::non_empty(Seq::<Seq<char>>::empty()) =~= Seq::<Seq<char>>::empty());
    assert(none =~= Seq::<Seq<char>>::empty());
    assert(seq!['\0'] =~= empty.push('\0'));
    lemma_split_concat(empty, y);
    lemma_non_empty_concat(text::split_on(empty, '\0'), text::split_on(y, '\0'));
    assert(changes::fields_of(seq!['\0'] + y) =~= changes::fields_of(y));
    lemma_split_concat(x, empty);
    assert(x.push('\0') + empty =~= x.push('\0'));
    lemma_non_empty_concat(text::split_on(x, '\0'), text::split_on(empty, '\0'));
    assert(changes::fields_of(x.push('\0')) =~= changes::fields_of(x));
    lemma_split_concat(x.push('\0'), y);
    lemma_split_concat(x, y);
    lemma_non_empty_concat(text::split_on(x.push('\0'), '\0'), text::split_on(y, '\0'));
    lemma_non_empty_concat(text::split_on(x, '\0'), text::split_on(y, '\0'));
}

proof fn lemma_non_empty_concat(x: Seq<Seq<char>>, y: Seq<Seq<char>>)
    ensures
        changes::non_empty(x + y) == changes::non_empty(x) + changes::non_empty(y),
    decreases y.len(),
{
    if y.len() == 0 {
        assert(x + y =~= x);
    } else {
        lemma_non_empty_concat(x, y.drop_last());
        assert((x + y).drop_last() =~= x + y.drop_last());
        assert((x + y).last() == y.last());
    }
}

/// A shell with canned replies tells calls apart by their arguments with a space
/// between each two, and answers with a failure what was never seeded.
pub proof fn law_unseeded_calls_fail(g: FakeGit, args: Seq<Seq<char>>)
    ensures
        fake_git::key_of(args) == text::join_with(args, seq![' ']),
        !g@.dom().contains(fake_git::key_of(args)) ==> g.reply_to(args) == Err::<
            Seq<char>,
            RunErrorView,
        >(RunErrorView::NonZero { code: Some(1), stderr: "fake failure"@ }),
        g@.dom().contains(fake_git::key_of(args)) ==> g.reply_to(args) == g@[fake_git::key_of(
            args,
        )],
{
    reveal_strlit(" ");
    assert(" "@ =~= seq![' ']);
}

} // verus!
