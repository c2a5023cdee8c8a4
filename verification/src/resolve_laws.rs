//! What revision arguments come to be compared, told without the plan behind
//! it.

use crate::changes;
use crate::content;
use crate::git;
use crate::git::{GitErrorView, GitShell, Reply};
use crate::revs;
use crate::revs::{RangeKind, RevSpecView, SourceView};
use crate::text;
use crate::text::CharSet;
use crate::text_laws;
use vstd::prelude::*;

verus! {

/// The words that git is handed, each as it stands on a command line.
pub proof fn law_words_for_git(a: Seq<char>, b: Seq<char>, args: Seq<Seq<char>>)
    ensures
        git::git_dir_args() == seq!["rev-parse"@, "--git-dir"@],
        revs::toplevel_args() == seq!["rev-parse"@, "--show-toplevel"@],
        revs::prefix_args() == seq!["rev-parse"@, "--show-prefix"@],
        revs::relative_args() == seq!["config"@, "--bool"@, "diff.relative"@],
        revs::merge_base_args(a, b) == seq!["merge-base"@, a, b],
        content::blob_args(a) == seq!["cat-file"@, "-p"@, a],
        changes::list_args(args) == seq!["diff"@] + args + seq!["--name-status"@, "-z"@],
{
}

/// Whether `t` is `s` without the line breaks at its end.
pub open spec fn without_breaks(t: Seq<char>, s: Seq<char>) -> bool {
    &&& t.len() <= s.len()
    &&& t == s.take(t.len() as int)
    &&& forall|i: int| t.len() <= i < s.len() ==> #[trigger] s[i] == '\n' || s[i] == '\r'
    &&& t.len() > 0 ==> t.last() != '\n' && t.last() != '\r'
}

/// Whether `t` is `s` without the white space around it.
pub open spec fn without_blanks(t: Seq<char>, s: Seq<char>) -> bool {
    exists|i: int, j: int|
        #![trigger s.subrange(i, j)]
        0 <= i <= j <= s.len() && s.subrange(i, j) == t && blank(s.take(i)) && blank(s.skip(j)) && (
        t.len() > 0 ==> !text::is_white_space(t.first()) && !text::is_white_space(t.last()))
}

/// Whether `s` is nothing but white space.
pub open spec fn blank(s: Seq<char>) -> bool {
    forall|i: int| 0 <= i < s.len() ==> text::is_white_space(#[trigger] s[i])
}

proof fn lemma_without_breaks(s: Seq<char>)
    ensures
        without_breaks(text::trim_end(s, CharSet::LineBreaks), s),
{
    text_laws::law_trim_end_cuts_the_suffix(s, CharSet::LineBreaks);
    let t = text::trim_end(s, CharSet::LineBreaks);
    assert forall|i: int| t.len() <= i < s.len() implies #[trigger] s[i] == '\n' || s[i]
        == '\r' by {
        assert(CharSet::LineBreaks.holds(s[i]));
    }
}

proof fn lemma_trim_start(s: Seq<char>)
    ensures
        text::trim_start(s, CharSet::WhiteSpace).len() <= s.len(),
        text::trim_start(s, CharSet::WhiteSpace) == s.skip(
            s.len() - text::trim_start(s, CharSet::WhiteSpace).len(),
        ),
        blank(s.take(s.len() - text::trim_start(s, CharSet::WhiteSpace).len())),
        text::trim_start(s, CharSet::WhiteSpace).len() > 0 ==> !text::is_white_space(
            text::trim_start(s, CharSet::WhiteSpace).first(),
        ),
    decreases s.len(),
{
    let t = text::trim_start(s, CharSet::WhiteSpace);
    if s.len() > 0 && text::is_white_space(s.first()) {
        let rest = s.drop_first();
        lemma_trim_start(rest);
        let n = s.len() - t.len();
        assert(rest.skip(rest.len() - t.len()) =~= s.skip(n));
        assert forall|i: int| 0 <= i < s.take(n).len() implies text::is_white_space(
            #[trigger] s.take(n)[i],
        ) by {
            if i > 0 {
                assert(rest.take(n - 1)[i - 1] == s[i]);
            }
        }
    } else {
        assert(s.skip(0) =~= s);
    }
}

/// Trimming white space leaves what stands between the blanks, and nothing else
/// can stand between them.
pub proof fn law_trimmed_of_blanks(s: Seq<char>, t: Seq<char>)
    ensures
        without_blanks(
            text::trim_end(text::trim_start(s, CharSet::WhiteSpace), CharSet::WhiteSpace),
            s,
        ),
        without_blanks(t, s) ==> t == text::trim_end(
            text::trim_start(s, CharSet::WhiteSpace),
            CharSet::WhiteSpace,
        ),
{
    let head = text::trim_start(s, CharSet::WhiteSpace);
    let u = text::trim_end(head, CharSet::WhiteSpace);
    lemma_trim_start(s);
    text_laws::law_trim_end_cuts_the_suffix(head, CharSet::WhiteSpace);
    let i = s.len() - head.len();
    let j = i + u.len();
    assert(s.subrange(i, j) =~= u);
    assert forall|k: int| 0 <= k < s.skip(j).len() implies text::is_white_space(
        #[trigger] s.skip(j)[k],
    ) by {
        assert(s.skip(j)[k] == head[u.len() + k]);
        assert(CharSet::WhiteSpace.holds(head[u.len() + k]));
    }
    if u.len() > 0 {
        assert(u.first() == head.first());
        assert(!CharSet::WhiteSpace.holds(u.last()));
    }
    if without_blanks(t, s) {
        let (x, y) = choose|x: int, y: int|
            #![trigger s.subrange(x, y)]
            0 <= x <= y <= s.len() && s.subrange(x, y) == t && blank(s.take(x)) && blank(s.skip(y))
                && (t.len() > 0 ==> !text::is_white_space(t.first()) && !text::is_white_space(
                t.last(),
            ));
        lemma_same_piece(s, i, j, x, y);
        lemma_same_piece(s, x, y, i, j);
        assert(t =~= u);
    }
}

/// A place inside the blanks around one piece is no end of another.
proof fn lemma_same_piece(s: Seq<char>, i: int, j: int, x: int, y: int)
    requires
        0 <= i <= j <= s.len(),
        0 <= x <= y <= s.len(),
        blank(s.take(i)),
        blank(s.skip(j)),
        i < j ==> !text::is_white_space(s[i]) && !text::is_white_space(s[j - 1]),
        blank(s.take(x)),
        blank(s.skip(y)),
        x < y ==> !text::is_white_space(s[x]) && !text::is_white_space(s[y - 1]),
    ensures
        i < j ==> x <= i && j <= y,
        i < j ==> x < y,
{
    if i < j {
        if x > i {
            assert(s.take(x)[i] == s[i]);
        }
        if y < j {
            assert(s.skip(y)[j - 1 - y] == s[j - 1]);
        }
    }
}

/// The reply `true`, whatever white space stands around it, and no other, says
/// that paths are relative.
pub proof fn law_only_true_says_relative(reply: Reply)
    ensures
        revs::says_true(reply) <==> (reply matches Ok(s) && without_blanks("true"@, s)),
{
    if reply is Ok {
        law_trimmed_of_blanks(reply->Ok_0, "true"@);
    }
}

/// A comparison with the worktree, whatever its old side is, carries the root
/// that git reported, without line breaks at its end, and nothing only where
/// git reported none; under `diff.relative` it carries the directory inside the
/// root likewise, and otherwise none.
pub proof fn law_worktree_carries_its_layout<G: GitShell + ?Sized>(
    g: &G,
    cached: bool,
    revs: Seq<Seq<char>>,
    spec: RevSpecView,
)
    requires
        revs::resolve_possible(g, cached, revs, Ok::<RevSpecView, GitErrorView>(spec)),
        spec.new == SourceView::Worktree,
    ensures
        exists|top: Reply| #[trigger]
            g.answers(revs::toplevel_args(), false, top) && match top {
                Ok(s) => without_breaks(spec.toplevel, s),
                Err(_) => spec.toplevel.len() == 0,
            },
        exists|rel: Reply| #[trigger]
            g.answers(revs::relative_args(), false, rel) && if (rel matches Ok(s)
                && without_blanks("true"@, s)) && spec.toplevel.len() > 0 {
                exists|p: Reply| #[trigger]
                    g.answers(revs::prefix_args(), true, p) && match p {
                        Ok(s) => without_breaks(spec.prefix, s),
                        Err(_) => spec.prefix.len() == 0,
                    }
            } else {
                spec.prefix.len() == 0
            },
{
    let plan = revs::plan_of(cached, revs)->Ok_0;
    assert(revs::layout_possible(g, spec.toplevel, spec.prefix));
    let (rel, top) = choose|relative: Reply, top: Reply| #[trigger]
        g.answers(revs::relative_args(), false, relative) && #[trigger] g.answers(
            revs::toplevel_args(),
            false,
            top,
        ) && spec.toplevel == revs::path_of(top) && revs::prefix_possible(
            g,
            revs::says_true(relative),
            spec.toplevel,
            spec.prefix,
        );
    law_only_true_says_relative(rel);
    if top is Ok {
        lemma_without_breaks(top->Ok_0);
    }
    assert(g.answers(revs::toplevel_args(), false, top));
    if revs::says_true(rel) && spec.toplevel.len() > 0 {
        let p = choose|reply: Reply| #[trigger]
            g.answers(revs::prefix_args(), true, reply) && spec.prefix == revs::path_of(reply);
        if p is Ok {
            lemma_without_breaks(p->Ok_0);
        }
        assert(g.answers(revs::prefix_args(), true, p));
    }
    assert(g.answers(revs::relative_args(), false, rel));
}

/// A comparison that does not read the worktree needs no layout, and carries
/// none.
pub proof fn law_no_worktree_no_layout<G: GitShell + ?Sized>(
    g: &G,
    cached: bool,
    revs: Seq<Seq<char>>,
    spec: RevSpecView,
)
    requires
        revs::resolve_possible(g, cached, revs, Ok::<RevSpecView, GitErrorView>(spec)),
        spec.new != SourceView::Worktree,
    ensures
        spec.toplevel.len() == 0,
        spec.prefix.len() == 0,
        spec.old != SourceView::Worktree,
{
}

/// Whether some revision starts with a dash.
pub open spec fn some_dash(revs: Seq<Seq<char>>) -> bool {
    exists|i: int| 0 <= i < revs.len() && (#[trigger] revs[i]).len() > 0 && revs[i][0] == '-'
}

/// Some revision starts with a dash where a first one does.
pub proof fn lemma_first_dashed(revs: Seq<Seq<char>>)
    ensures
        revs::first_dashed(revs) is Some <==> some_dash(revs),
    decreases revs.len(),
{
    if revs.len() > 0 {
        let rest = revs.drop_first();
        lemma_first_dashed(rest);
        if some_dash(rest) {
            let i = choose|i: int|
                0 <= i < rest.len() && (#[trigger] rest[i]).len() > 0 && rest[i][0] == '-';
            assert(rest[i] == revs[i + 1]);
            assert(some_dash(revs));
        }
        if some_dash(revs) {
            let i = choose|i: int|
                0 <= i < revs.len() && (#[trigger] revs[i]).len() > 0 && revs[i][0] == '-';
            if i > 0 {
                assert(rest[i - 1] == revs[i]);
                assert(some_dash(rest));
            } else {
                assert(revs.first() == revs[0]);
            }
        }
        if revs::dashed(revs.first()) {
            assert(revs[0].len() > 0 && revs[0][0] == '-');
        }
    }
}

/// Revision arguments are refused where one of them starts with a dash, where
/// there are more than two, and where `--cached` comes with more than one.
pub proof fn law_wrong_arguments_are_refused<G: GitShell + ?Sized>(
    g: &G,
    cached: bool,
    revs: Seq<Seq<char>>,
    r: Result<RevSpecView, GitErrorView>,
)
    requires
        revs::resolve_possible(g, cached, revs, r),
        some_dash(revs) || revs.len() > 2 || (cached && revs.len() > 1),
    ensures
        r matches Err(GitErrorView::InvalidRevSpec(_)),
{
    lemma_first_dashed(revs);
}

/// With `--cached` the index is compared with the given revision, or with
/// `HEAD`, and git is told so for the list of files.
pub proof fn law_cached_compares_the_index<G: GitShell + ?Sized>(
    g: &G,
    revs: Seq<Seq<char>>,
    r: Result<RevSpecView, GitErrorView>,
)
    requires
        revs::resolve_possible(g, true, revs, r),
        !some_dash(revs),
        revs.len() <= 1,
    ensures
        r matches Ok(spec) && spec.new == SourceView::Index && spec.diff_args == seq![
            "--cached"@,
        ] + revs && spec.old == SourceView::Rev(
            if revs.len() == 1 {
                revs[0]
            } else {
                "HEAD"@
            },
        ),
{
    lemma_first_dashed(revs);
}

/// Whether `n` dots stand at place `p`.
pub open spec fn dots_stand(s: Seq<char>, p: int, n: int) -> bool {
    0 <= p && p + n <= s.len() && forall|k: int| p <= k < p + n ==> #[trigger] s[k] == '.'
}

/// Whether `n` dots stand at place `p` of `s` and nowhere further left.
pub open spec fn first_dots(s: Seq<char>, p: int, n: int) -> bool {
    dots_stand(s, p, n) && forall|q: int| q < p ==> !#[trigger] dots_stand(s, q, n)
}

/// Whether `n` dots stand nowhere in `s`.
pub open spec fn no_dots(s: Seq<char>, n: int) -> bool {
    forall|q: int| !#[trigger] dots_stand(s, q, n)
}

proof fn lemma_find_dots(s: Seq<char>, n: nat, i: int)
    requires
        0 <= i,
        n >= 1,
    ensures
        match revs::find_dots(s, n, i) {
            Some(p) => i <= p && dots_stand(s, p, n as int) && forall|q: int|
                i <= q < p ==> !#[trigger] dots_stand(s, q, n as int),
            None => forall|q: int| i <= q ==> !#[trigger] dots_stand(s, q, n as int),
        },
    decreases s.len() - i,
{
    if i + n <= s.len() && i < s.len() {
        assert(revs::dots_at(s, i, n) == dots_stand(s, i, n as int));
        if !revs::dots_at(s, i, n) {
            lemma_find_dots(s, n, i + 1);
        }
    }
}

proof fn lemma_range(s: Seq<char>, p: int)
    ensures
        no_dots(s, 2) ==> revs::range_of(s) is None,
        first_dots(s, p, 3) ==> revs::range_of(s) == Some(
            (RangeKind::MergeBase, named(s.take(p)), named(s.skip(p + 3))),
        ),
        no_dots(s, 3) && first_dots(s, p, 2) ==> revs::range_of(s) == Some(
            (RangeKind::Plain, named(s.take(p)), named(s.skip(p + 2))),
        ),
{
    lemma_find_dots(s, 3, 0);
    lemma_find_dots(s, 2, 0);
    if no_dots(s, 2) {
        assert forall|q: int| !#[trigger] dots_stand(s, q, 3) by {
            assert(!dots_stand(s, q, 2));
            if dots_stand(s, q, 3) {
                assert(s[q] == '.' && s[q + 1] == '.');
            }
        }
        if revs::find_dots(s, 3, 0) is Some {
            assert(dots_stand(s, revs::find_dots(s, 3, 0)->0, 3));
        }
        if revs::find_dots(s, 2, 0) is Some {
            assert(dots_stand(s, revs::find_dots(s, 2, 0)->0, 2));
        }
    }
    if first_dots(s, p, 3) {
        match revs::find_dots(s, 3, 0) {
            Some(q) => {
                assert(dots_stand(s, q, 3));
                assert(dots_stand(s, p, 3));
            },
            None => {
                assert(dots_stand(s, p, 3));
            },
        }
    }
    if no_dots(s, 3) && first_dots(s, p, 2) {
        if revs::find_dots(s, 3, 0) is Some {
            assert(dots_stand(s, revs::find_dots(s, 3, 0)->0, 3));
        }
        match revs::find_dots(s, 2, 0) {
            Some(q) => {
                assert(dots_stand(s, q, 2));
                assert(dots_stand(s, p, 2));
            },
            None => {
                assert(dots_stand(s, p, 2));
            },
        }
    }
}

/// A revision, `HEAD` where it is left out.
pub open spec fn named(s: Seq<char>) -> Seq<char> {
    if s.len() == 0 {
        "HEAD"@
    } else {
        s
    }
}

/// Without any revision the worktree is compared with the index; with one that
/// is no range, the worktree is compared with that revision.
pub proof fn law_no_range_compares_the_worktree<G: GitShell + ?Sized>(
    g: &G,
    revs: Seq<Seq<char>>,
    r: Result<RevSpecView, GitErrorView>,
)
    requires
        revs::resolve_possible(g, false, revs, r),
        !some_dash(revs),
        revs.len() == 0 || (revs.len() == 1 && no_dots(revs[0], 2)),
    ensures
        r matches Ok(spec) && spec.new == SourceView::Worktree && spec.diff_args == revs
            && spec.old == if revs.len() == 0 {
            SourceView::Index
        } else {
            SourceView::Rev(revs[0])
        },
{
    lemma_first_dashed(revs);
    if revs.len() == 1 {
        lemma_range(revs[0], 0);
    }
}

/// Two revisions of which the second is no range are compared with each other.
pub proof fn law_two_revisions_are_compared<G: GitShell + ?Sized>(
    g: &G,
    revs: Seq<Seq<char>>,
    r: Result<RevSpecView, GitErrorView>,
)
    requires
        revs::resolve_possible(g, false, revs, r),
        !some_dash(revs),
        revs.len() == 2,
        no_dots(revs[1], 2),
    ensures
        r matches Ok(spec) && spec.old == SourceView::Rev(revs[0]) && spec.new == SourceView::Rev(
            revs[1],
        ) && spec.diff_args == revs,
{
    lemma_first_dashed(revs);
    lemma_range(revs[1], 0);
}

/// A range with two dots compares the revision before its first two dots with
/// the revision after them; three dots anywhere make it another range. A side
/// that starts with a dash is refused.
pub proof fn law_two_dots_compare_both_sides<G: GitShell + ?Sized>(
    g: &G,
    revs: Seq<Seq<char>>,
    p: int,
    r: Result<RevSpecView, GitErrorView>,
)
    requires
        revs::resolve_possible(g, false, revs, r),
        !some_dash(revs),
        1 <= revs.len() <= 2,
        no_dots(revs.last(), 3),
        first_dots(revs.last(), p, 2),
    ensures
        if p + 2 < revs.last().len() && revs.last()[p + 2] == '-' {
            r matches Err(GitErrorView::InvalidRevSpec(_))
        } else {
            r matches Ok(spec) && spec.old == SourceView::Rev(named(revs.last().take(p)))
                && spec.new == SourceView::Rev(named(revs.last().skip(p + 2))) && spec.diff_args
                == revs
        },
{
    lemma_first_dashed(revs);
    lemma_range(revs.last(), p);
    assert(revs.last() == revs[revs.len() - 1]);
    reveal_strlit("HEAD");
    lemma_sides_dashed(revs, p, 2);
}

proof fn lemma_sides_dashed(revs: Seq<Seq<char>>, p: int, n: int)
    requires
        revs.len() > 0,
        !some_dash(revs),
        n >= 1,
        dots_stand(revs.last(), p, n),
    ensures
        !revs::dashed(named(revs.last().take(p))),
        revs::dashed(named(revs.last().skip(p + n))) <==> p + n < revs.last().len()
            && revs.last()[p + n] == '-',
{
    let s = revs.last();
    assert(s == revs[revs.len() - 1]);
    reveal_strlit("HEAD");
    if p > 0 {
        assert(s.take(p).first() == s[0]);
        if s[0] == '-' {
            assert(revs[revs.len() - 1].len() > 0 && revs[revs.len() - 1][0] == '-');
            assert(some_dash(revs));
        }
    }
    if p + n < s.len() {
        assert(s.skip(p + n).first() == s[p + n]);
    }
}

/// A range with three dots compares the merge base of its two sides, as git
/// names it, with the second side. Where git names none, that is an error which
/// tells the two sides and what went wrong.
pub proof fn law_three_dots_compare_the_merge_base<G: GitShell + ?Sized>(
    g: &G,
    revs: Seq<Seq<char>>,
    p: int,
    r: Result<RevSpecView, GitErrorView>,
)
    requires
        revs::resolve_possible(g, false, revs, r),
        !some_dash(revs),
        1 <= revs.len() <= 2,
        first_dots(revs.last(), p, 3),
    ensures
        ({
            let a = named(revs.last().take(p));
            let b = named(revs.last().skip(p + 3));
            if p + 3 < revs.last().len() && revs.last()[p + 3] == '-' {
                r matches Err(GitErrorView::InvalidRevSpec(_))
            } else {
                exists|reply: Reply| #[trigger]
                    g.answers(revs::merge_base_args(a, b), false, reply) && match reply {
                        Ok(hash) => r matches Ok(spec) && (spec.old matches SourceView::Rev(base)
                            && without_blanks(base, hash)) && spec.new == SourceView::Rev(b)
                            && spec.diff_args == revs,
                        Err(e) => r == Err::<RevSpecView, GitErrorView>(
                            GitErrorView::MergeBaseFailed(
                                a + "..."@ + b + ": "@ + git::run_error_text(e),
                            ),
                        ),
                    }
            }
        }),
{
    lemma_first_dashed(revs);
    lemma_range(revs.last(), p);
    lemma_sides_dashed(revs, p, 3);
    let a = named(revs.last().take(p));
    let b = named(revs.last().skip(p + 3));
    if !(p + 3 < revs.last().len() && revs.last()[p + 3] == '-') {
        let reply = choose|reply: Reply| #[trigger]
            g.answers(revs::merge_base_args(a, b), false, reply) && r == match revs::merge_base_of(
                a,
                b,
                reply,
            ) {
                Ok(base) => Ok::<RevSpecView, GitErrorView>(
                    revs::spec_of_sides(
                        SourceView::Rev(base),
                        SourceView::Rev(b),
                        revs::diff_args_of(false, revs),
                    ),
                ),
                Err(e) => Err(e),
            };
        assert(g.answers(revs::merge_base_args(a, b), false, reply));
        if reply is Ok {
            law_trimmed_of_blanks(reply->Ok_0, Seq::empty());
        }
    }
}

/// How the sides of a comparison are named to the user.
pub proof fn law_labels_name_the_sides(rev: Seq<char>)
    ensures
        revs::source_label(SourceView::Index) == "index"@,
        revs::source_label(SourceView::Worktree) == "worktree"@,
        revs::source_label(SourceView::Rev(rev)) == rev,
{
}

} // verus!
