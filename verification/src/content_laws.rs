//! Where the texts of a changed file come from, told of a shell whose replies
//! are known.

use crate::changes::{ChangedFileView, Status};
use crate::content;
use crate::content::{DiskReads, DiskTexts, FetchErrorView, SideText, Texts};
use crate::git::{GitShell, Reply};
use crate::revs::{RevSpecView, SourceView};
use vstd::prelude::*;

verus! {

/// Whether the shell has but one answer for the object `name`, and that answer
/// amounts to `side`: the object's text, or no text where it is not UTF-8, or
/// git's failure.
pub open spec fn stored<G: GitShell + ?Sized>(g: &G, name: Seq<char>, side: SideText) -> bool {
    forall|reply: Reply| #[trigger]
        g.answers(content::blob_args(name), false, reply) ==> match reply {
            Ok(s) => side == Ok::<Seq<char>, FetchErrorView>(s),
            Err(e) => side == Err::<Seq<char>, FetchErrorView>(
                if e is NonUtf8 {
                    FetchErrorView::Binary
                } else {
                    FetchErrorView::GitFailed(e)
                },
            ),
        }
}

/// Whether `side` is what a source holds under a path below the root: the
/// worktree what was read from disk, the index the object `:path`, a revision
/// the object `rev:path`.
pub open spec fn held<G: GitShell + ?Sized>(
    g: &G,
    src: SourceView,
    path: Seq<char>,
    disk: Option<String>,
    side: SideText,
) -> bool {
    match src {
        SourceView::Worktree => match disk {
            Some(s) => side == Ok::<Seq<char>, FetchErrorView>(s@),
            None => side == Err::<Seq<char>, FetchErrorView>(FetchErrorView::Binary),
        },
        SourceView::Index => stored(g, seq![':'] + path, side),
        SourceView::Rev(rev) => stored(g, rev + seq![':'] + path, side),
    }
}

/// The texts of a changed file are what the old side holds under the file's old
/// path and what the new side holds under its new path, both below the prefix.
/// An added file has an empty old text and a deleted file an empty new one,
/// whatever the sides hold. Both texts are given where both are text, none
/// where one is not, and git's failure comes through, the old side's first.
pub proof fn law_each_side_is_read_under_its_own_path<G: GitShell + ?Sized>(
    g: &G,
    spec: RevSpecView,
    file: ChangedFileView,
    disk: DiskTexts,
    old: SideText,
    new: SideText,
    r: Texts,
)
    requires
        content::load_possible(g, spec, file, disk, r),
        if file.status == Status::Added {
            old == Ok::<Seq<char>, FetchErrorView>(Seq::empty())
        } else {
            held(g, spec.old, spec.prefix + file.old_path, disk.old, old)
        },
        if file.status == Status::Deleted {
            new == Ok::<Seq<char>, FetchErrorView>(Seq::empty())
        } else {
            held(g, spec.new, spec.prefix + file.new_path, disk.new, new)
        },
    ensures
        old is Ok && new is Ok ==> r == Ok::<Option<(Seq<char>, Seq<char>)>, FetchErrorView>(
            Some((old->Ok_0, new->Ok_0)),
        ),
        old matches Err(FetchErrorView::GitFailed(e)) ==> r == Err::<
            Option<(Seq<char>, Seq<char>)>,
            FetchErrorView,
        >(FetchErrorView::GitFailed(e)),
        !(old matches Err(FetchErrorView::GitFailed(_))) ==> (new matches Err(
            FetchErrorView::GitFailed(e),
        ) ==> r == Err::<Option<(Seq<char>, Seq<char>)>, FetchErrorView>(
            FetchErrorView::GitFailed(e),
        )),
        old is Err && !(old matches Err(FetchErrorView::GitFailed(_))) && !(new matches Err(
            FetchErrorView::GitFailed(_),
        )) ==> r == Ok::<Option<(Seq<char>, Seq<char>)>, FetchErrorView>(None),
        new is Err && !(old matches Err(FetchErrorView::GitFailed(_))) && !(new matches Err(
            FetchErrorView::GitFailed(_),
        )) ==> r == Ok::<Option<(Seq<char>, Seq<char>)>, FetchErrorView>(None),
{
    let o = choose|o: SideText| #[trigger]
        content::old_possible(g, spec, file, content::disk_view(disk.old), o) && match o {
            Err(FetchErrorView::GitFailed(e)) => r == Err::<
                Option<(Seq<char>, Seq<char>)>,
                FetchErrorView,
            >(FetchErrorView::GitFailed(e)),
            _ => exists|n: SideText| #[trigger]
                content::new_possible(g, spec, file, content::disk_view(disk.new), n) && r
                    == content::texts_of(o, n),
        };
    if file.status != Status::Added {
        lemma_held(g, spec.old, spec.prefix, file.old_path, disk.old, old, o);
    }
    assert(o == old);
    if !(o matches Err(FetchErrorView::GitFailed(_))) {
        let n = choose|n: SideText| #[trigger]
            content::new_possible(g, spec, file, content::disk_view(disk.new), n) && r
                == content::texts_of(o, n);
        if file.status != Status::Deleted {
            lemma_held(g, spec.new, spec.prefix, file.new_path, disk.new, new, n);
        }
        assert(n == new);
    }
}

proof fn lemma_held<G: GitShell + ?Sized>(
    g: &G,
    src: SourceView,
    prefix: Seq<char>,
    path: Seq<char>,
    disk: Option<String>,
    side: SideText,
    got: SideText,
)
    requires
        held(g, src, prefix + path, disk, side),
        content::source_possible(g, src, prefix, path, content::disk_view(disk), got),
    ensures
        got == side,
{
    match src {
        SourceView::Worktree => {},
        SourceView::Index => {
            let name = seq![':'] + prefix + path;
            assert(name =~= seq![':'] + (prefix + path));
            let reply = choose|reply: Reply| #[trigger]
                g.answers(content::blob_args(name), false, reply) && got == content::blob_of(
                    reply,
                );
            assert(g.answers(content::blob_args(name), false, reply));
        },
        SourceView::Rev(rev) => {
            let name = rev.push(':') + prefix + path;
            assert(name =~= rev + seq![':'] + (prefix + path));
            let reply = choose|reply: Reply| #[trigger]
                g.answers(content::blob_args(name), false, reply) && got == content::blob_of(
                    reply,
                );
            assert(g.answers(content::blob_args(name), false, reply));
        },
    }
}

/// A side is read from disk where it is the worktree and the file is there on
/// that side: below the root, under the prefix and the side's own path.
pub proof fn law_disk_reads_follow_the_sides(spec: RevSpecView, file: ChangedFileView)
    ensures
        content::reads_of(spec, file).0 is Some <==> spec.old == SourceView::Worktree
            && file.status != Status::Added,
        content::reads_of(spec, file).1 is Some <==> spec.new == SourceView::Worktree
            && file.status != Status::Deleted,
        content::reads_of(spec, file).0 matches Some(at) ==> at.0 == spec.toplevel && at.1
            == spec.prefix + file.old_path,
        content::reads_of(spec, file).1 matches Some(at) ==> at.0 == spec.toplevel && at.1
            == spec.prefix + file.new_path,
{
}

/// What is to be read from disk is told side by side, and so are the texts that
/// were read: each answer speaks of the old side first.
pub proof fn law_answers_speak_of_the_old_side_first(reads: DiskReads, a: String, b: String)
    ensures
        reads.old matches Some(p) ==> content::reads_view(reads).0 == Some((p.root@, p.path@)),
        reads.old is None ==> content::reads_view(reads).0 is None,
        reads.new matches Some(p) ==> content::reads_view(reads).1 == Some((p.root@, p.path@)),
        reads.new is None ==> content::reads_view(reads).1 is None,
        content::texts_view(Ok(Some((a, b)))) == Ok::<
            Option<(Seq<char>, Seq<char>)>,
            FetchErrorView,
        >(Some((a@, b@))),
{
}

} // verus!
