//! What holds of every diff of two column lists.

use crate::diff;
use crate::diff::{StepKind, StepView};
use crate::lcs;
use vstd::prelude::*;

verus! {

/// The columns of the steps that are not of kind `skipped`, in order.
pub open spec fn side(steps: Seq<StepView>, skipped: StepKind) -> Seq<Seq<char>>
    decreases steps.len(),
{
    if steps.len() == 0 {
        Seq::empty()
    } else if steps.last().kind == skipped {
        side(steps.drop_last(), skipped)
    } else {
        side(steps.drop_last(), skipped).push(steps.last().content)
    }
}

/// The columns that `steps` say the old file has.
pub open spec fn old_side(steps: Seq<StepView>) -> Seq<Seq<char>> {
    side(steps, StepKind::Insert)
}

/// The columns that `steps` say the new file has.
pub open spec fn new_side(steps: Seq<StepView>) -> Seq<Seq<char>> {
    side(steps, StepKind::Delete)
}

/// How many of `steps` are matches.
pub open spec fn matches_in(steps: Seq<StepView>) -> nat
    decreases steps.len(),
{
    if steps.len() == 0 {
        0
    } else {
        matches_in(steps.drop_last()) + if steps.last().kind == StepKind::Match {
            1nat
        } else {
            0nat
        }
    }
}

/// Whether `pairs` picks out a common subsequence of `a` and `b`: places of
/// equal columns, advancing on both sides.
pub open spec fn common_pairs(
    a: Seq<Seq<char>>,
    b: Seq<Seq<char>>,
    pairs: Seq<(int, int)>,
) -> bool {
    &&& forall|k: int|
        0 <= k < pairs.len() ==> {
            &&& 0 <= (#[trigger] pairs[k]).0 < a.len()
            &&& 0 <= pairs[k].1 < b.len()
            &&& a[pairs[k].0] == b[pairs[k].1]
        }
    &&& forall|k: int, l: int|
        0 <= k < l < pairs.len() ==> (#[trigger] pairs[k]).0 < (#[trigger] pairs[l]).0 && pairs[k].1
            < pairs[l].1
}

/// A side of two step lists is the side of the one and then that of the other.
pub proof fn lemma_side_concat(x: Seq<StepView>, y: Seq<StepView>, skipped: StepKind)
    ensures
        side(x + y, skipped) == side(x, skipped) + side(y, skipped),
    decreases y.len(),
{
    if y.len() == 0 {
        assert(x + y =~= x);
    } else {
        lemma_side_concat(x, y.drop_last(), skipped);
        assert((x + y).drop_last() =~= x + y.drop_last());
    }
}

proof fn lemma_matches_concat(x: Seq<StepView>, y: Seq<StepView>)
    ensures
        matches_in(x + y) == matches_in(x) + matches_in(y),
    decreases y.len(),
{
    if y.len() == 0 {
        assert(x + y =~= x);
    } else {
        lemma_matches_concat(x, y.drop_last());
        assert((x + y).drop_last() =~= x + y.drop_last());
    }
}

proof fn lemma_side_of_all(kind: StepKind, columns: Seq<Seq<char>>, skipped: StepKind)
    ensures
        side(diff::all_of(kind, columns), skipped) == if kind == skipped {
            Seq::<Seq<char>>::empty()
        } else {
            columns
        },
        matches_in(diff::all_of(kind, columns)) == if kind == StepKind::Match {
            columns.len()
        } else {
            0
        },
    decreases columns.len(),
{
    if columns.len() > 0 {
        lemma_side_of_all(kind, columns.drop_last(), skipped);
        assert(diff::all_of(kind, columns).drop_last() =~= diff::all_of(
            kind,
            columns.drop_last(),
        ));
    }
}

/// The side of a single step.
pub proof fn lemma_side_of_one(s: StepView, skipped: StepKind)
    ensures
        side(seq![s], skipped) == if s.kind == skipped {
            Seq::<Seq<char>>::empty()
        } else {
            seq![s.content]
        },
        matches_in(seq![s]) == if s.kind == StepKind::Match {
            1nat
        } else {
            0nat
        },
{
    assert(seq![s].drop_last() =~= Seq::<StepView>::empty());
    assert(side(Seq::<StepView>::empty(), skipped) =~= Seq::<Seq<char>>::empty());
    assert(matches_in(Seq::<StepView>::empty()) == 0);
}

proof fn lemma_edits_sides(a: Seq<Seq<char>>, b: Seq<Seq<char>>, i: int, j: int)
    requires
        0 <= i <= a.len(),
        0 <= j <= b.len(),
    ensures
        old_side(lcs::edits(a, b, i, j)) == a.skip(i),
        new_side(lcs::edits(a, b, i, j)) == b.skip(j),
        matches_in(lcs::edits(a, b, i, j)) == lcs::lcs_len(a, b, i, j),
    decreases a.len() - i + b.len() - j,
{
    if i == a.len() && j == b.len() {
        assert(a.skip(i) =~= Seq::<Seq<char>>::empty());
        assert(b.skip(j) =~= Seq::<Seq<char>>::empty());
    } else {
        let all = lcs::edits(a, b, i, j);
        let first = all.first();
        let ni = if first.kind == StepKind::Insert {
            i
        } else {
            i + 1
        };
        let nj = if first.kind == StepKind::Delete {
            j
        } else {
            j + 1
        };
        let rest = lcs::edits(a, b, ni, nj);
        assert(all =~= seq![first] + rest);
        lemma_edits_sides(a, b, ni, nj);
        lemma_side_concat(seq![first], rest, StepKind::Insert);
        lemma_side_concat(seq![first], rest, StepKind::Delete);
        lemma_matches_concat(seq![first], rest);
        lemma_side_of_one(first, StepKind::Insert);
        lemma_side_of_one(first, StepKind::Delete);
        if i < a.len() {
            assert(a.skip(i) =~= seq![a[i]] + a.skip(i + 1));
        }
        if j < b.len() {
            assert(b.skip(j) =~= seq![b[j]] + b.skip(j + 1));
        }
        assert(old_side(all) =~= a.skip(i));
        assert(new_side(all) =~= b.skip(j));
    }
}

/// A diff keeps both files: the columns that it matches or deletes are those
/// of the old side, the columns that it matches or inserts those of the new
/// side, each in order.
pub proof fn law_diff_keeps_both_sides(a: Seq<Seq<char>>, b: Seq<Seq<char>>)
    ensures
        old_side(lcs::column_diff(a, b)) == a,
        new_side(lcs::column_diff(a, b)) == b,
{
    lcs::lemma_prefix_bound(a, b);
    let p = lcs::common_prefix(a, b) as int;
    lcs::lemma_suffix_bound(a.skip(p), b.skip(p));
    let head = a.take(p);
    let end = lcs::shared_end(a, b);
    let ma = lcs::middle(a, b);
    let mb = lcs::middle(b, a);
    let changed = if lcs::too_wide(a, b) {
        diff::all_of(StepKind::Delete, ma) + diff::all_of(StepKind::Insert, mb)
    } else {
        lcs::edits(ma, mb, 0, 0)
    };
    assert forall|skipped: StepKind| skipped != StepKind::Match implies #[trigger] side(
        lcs::column_diff(a, b),
        skipped,
    ) == head + side(changed, skipped) + end by {
        lemma_side_concat(diff::all_of(StepKind::Match, head), changed, skipped);
        lemma_side_concat(
            diff::all_of(StepKind::Match, head) + changed,
            diff::all_of(StepKind::Match, end),
            skipped,
        );
        lemma_side_of_all(StepKind::Match, head, skipped);
        lemma_side_of_all(StepKind::Match, end, skipped);
    }
    if lcs::too_wide(a, b) {
        lemma_side_concat(
            diff::all_of(StepKind::Delete, ma),
            diff::all_of(StepKind::Insert, mb),
            StepKind::Insert,
        );
        lemma_side_concat(
            diff::all_of(StepKind::Delete, ma),
            diff::all_of(StepKind::Insert, mb),
            StepKind::Delete,
        );
        lemma_side_of_all(StepKind::Delete, ma, StepKind::Insert);
        lemma_side_of_all(StepKind::Delete, ma, StepKind::Delete);
        lemma_side_of_all(StepKind::Insert, mb, StepKind::Insert);
        lemma_side_of_all(StepKind::Insert, mb, StepKind::Delete);
    } else {
        lemma_edits_sides(ma, mb, 0, 0);
    }
    assert(side(changed, StepKind::Insert) =~= ma);
    assert(side(changed, StepKind::Delete) =~= mb);
    assert(head + ma + end =~= a);
    assert(head + mb + end =~= b);
}

proof fn lemma_lcs_is_longest_from(
    a: Seq<Seq<char>>,
    b: Seq<Seq<char>>,
    i: int,
    j: int,
    pairs: Seq<(int, int)>,
)
    requires
        0 <= i <= a.len(),
        0 <= j <= b.len(),
        common_pairs(a, b, pairs),
        pairs.len() > 0 ==> pairs[0].0 >= i && pairs[0].1 >= j,
    ensures
        pairs.len() <= lcs::lcs_len(a, b, i, j),
    decreases a.len() - i + b.len() - j,
{
    if pairs.len() > 0 {
        assert(pairs[0].0 < a.len() && pairs[0].1 < b.len());
        if a[i] == b[j] {
            let rest = pairs.drop_first();
            assert forall|k: int| 0 <= k < rest.len() implies {
                &&& 0 <= (#[trigger] rest[k]).0 < a.len()
                &&& 0 <= rest[k].1 < b.len()
                &&& a[rest[k].0] == b[rest[k].1]
            } by {
                assert(rest[k] == pairs[k + 1]);
            }
            assert forall|k: int, l: int| 0 <= k < l < rest.len() implies (#[trigger] rest[k]).0
                < (#[trigger] rest[l]).0 && rest[k].1 < rest[l].1 by {
                assert(rest[k] == pairs[k + 1]);
                assert(rest[l] == pairs[l + 1]);
            }
            if rest.len() > 0 {
                assert(rest[0] == pairs[1]);
                assert(pairs[0].0 < pairs[1].0 && pairs[0].1 < pairs[1].1);
            }
            lemma_lcs_is_longest_from(a, b, i + 1, j + 1, rest);
        } else if pairs[0].0 > i {
            lemma_lcs_is_longest_from(a, b, i + 1, j, pairs);
        } else {
            lemma_lcs_is_longest_from(a, b, i, j + 1, pairs);
        }
    }
}

/// A longest common subsequence of `a[i..]` and `b[j..]`.
pub open spec fn best_pairs(a: Seq<Seq<char>>, b: Seq<Seq<char>>, i: int, j: int) -> Seq<(int, int)>
    decreases lcs::left(a.len(), i) + lcs::left(b.len(), j),
{
    if i >= a.len() || j >= b.len() {
        Seq::empty()
    } else if a[i] == b[j] {
        seq![(i, j)] + best_pairs(a, b, i + 1, j + 1)
    } else if lcs::lcs_len(a, b, i + 1, j) >= lcs::lcs_len(a, b, i, j + 1) {
        best_pairs(a, b, i + 1, j)
    } else {
        best_pairs(a, b, i, j + 1)
    }
}

proof fn lemma_best_pairs(a: Seq<Seq<char>>, b: Seq<Seq<char>>, i: int, j: int)
    requires
        0 <= i,
        0 <= j,
    ensures
        common_pairs(a, b, best_pairs(a, b, i, j)),
        best_pairs(a, b, i, j).len() == lcs::lcs_len(a, b, i, j),
        forall|k: int|
            0 <= k < best_pairs(a, b, i, j).len() ==> (#[trigger] best_pairs(a, b, i, j)[k]).0 >= i
                && best_pairs(a, b, i, j)[k].1 >= j,
    decreases lcs::left(a.len(), i) + lcs::left(b.len(), j),
{
    if i < a.len() && j < b.len() {
        if a[i] == b[j] {
            lemma_best_pairs(a, b, i + 1, j + 1);
            let rest = best_pairs(a, b, i + 1, j + 1);
            let all = best_pairs(a, b, i, j);
            assert forall|k: int| 0 < k < all.len() implies #[trigger] all[k] == rest[k - 1] by {}
        } else if lcs::lcs_len(a, b, i + 1, j) >= lcs::lcs_len(a, b, i, j + 1) {
            lemma_best_pairs(a, b, i + 1, j);
        } else {
            lemma_best_pairs(a, b, i, j + 1);
        }
    }
}

/// `lcs_len` is the length of a longest common subsequence: some common
/// subsequence has that length, and none is longer.
pub proof fn law_lcs_is_longest(a: Seq<Seq<char>>, b: Seq<Seq<char>>)
    ensures
        exists|pairs: Seq<(int, int)>| #[trigger]
            common_pairs(a, b, pairs) && pairs.len() == lcs::lcs_len(a, b, 0, 0),
        forall|pairs: Seq<(int, int)>| #[trigger]
            common_pairs(a, b, pairs) ==> pairs.len() <= lcs::lcs_len(a, b, 0, 0),
{
    lemma_best_pairs(a, b, 0, 0);
    assert(common_pairs(a, b, best_pairs(a, b, 0, 0)));
    assert forall|pairs: Seq<(int, int)>| #[trigger] common_pairs(a, b, pairs) implies pairs.len()
        <= lcs::lcs_len(a, b, 0, 0) by {
        if pairs.len() > 0 {
            assert(pairs[0].0 >= 0 && pairs[0].1 >= 0);
        }
        lemma_lcs_is_longest_from(a, b, 0, 0, pairs);
    }
}

/// Two lists that end alike share that end in a longest common subsequence.
proof fn lemma_lcs_of_pushed(a: Seq<Seq<char>>, b: Seq<Seq<char>>, c: Seq<char>)
    ensures
        lcs::lcs_len(a.push(c), b.push(c), 0, 0) == lcs::lcs_len(a, b, 0, 0) + 1,
{
    let pa = a.push(c);
    let pb = b.push(c);
    lemma_best_pairs(a, b, 0, 0);
    let longer = best_pairs(a, b, 0, 0).push((a.len() as int, b.len() as int));
    assert(common_pairs(pa, pb, longer));
    law_lcs_is_longest(pa, pb);
    lemma_best_pairs(pa, pb, 0, 0);
    let best = best_pairs(pa, pb, 0, 0);
    assert(best.len() > 0);
    let shorter = best.drop_last();
    assert forall|k: int| 0 <= k < shorter.len() implies {
        &&& 0 <= (#[trigger] shorter[k]).0 < a.len()
        &&& 0 <= shorter[k].1 < b.len()
        &&& a[shorter[k].0] == b[shorter[k].1]
    } by {
        assert(shorter[k] == best[k]);
        let last = best[best.len() - 1];
        assert(best[k].0 < last.0 && best[k].1 < last.1);
    }
    assert(common_pairs(a, b, shorter));
    law_lcs_is_longest(a, b);
}

proof fn lemma_lcs_of_skipped(a: Seq<Seq<char>>, b: Seq<Seq<char>>, p: int, i: int, j: int)
    requires
        0 <= p <= a.len(),
        p <= b.len(),
        0 <= i,
        0 <= j,
    ensures
        lcs::lcs_len(a, b, p + i, p + j) == lcs::lcs_len(a.skip(p), b.skip(p), i, j),
    decreases lcs::left(a.len(), p + i) + lcs::left(b.len(), p + j),
{
    if p + i < a.len() && p + j < b.len() {
        lemma_lcs_of_skipped(a, b, p, i + 1, j + 1);
        lemma_lcs_of_skipped(a, b, p, i + 1, j);
        lemma_lcs_of_skipped(a, b, p, i, j + 1);
        assert(a.skip(p)[i] == a[p + i]);
        assert(b.skip(p)[j] == b[p + j]);
    }
}

proof fn lemma_lcs_past_prefix(a: Seq<Seq<char>>, b: Seq<Seq<char>>)
    ensures
        lcs::lcs_len(a, b, 0, 0) == lcs::common_prefix(a, b) + lcs::lcs_len(
            a.skip(lcs::common_prefix(a, b) as int),
            b.skip(lcs::common_prefix(a, b) as int),
            0,
            0,
        ),
    decreases a.len(),
{
    let p = lcs::common_prefix(a, b) as int;
    lcs::lemma_prefix_bound(a, b);
    if a.len() > 0 && b.len() > 0 && a.first() == b.first() {
        let da = a.drop_first();
        let db = b.drop_first();
        lemma_lcs_past_prefix(da, db);
        lemma_lcs_of_skipped(a, b, 1, 0, 0);
        assert(a.skip(1) =~= da);
        assert(b.skip(1) =~= db);
        assert(da.skip(p - 1) =~= a.skip(p));
        assert(db.skip(p - 1) =~= b.skip(p));
    } else {
        assert(a.skip(0) =~= a);
        assert(b.skip(0) =~= b);
    }
}

proof fn lemma_lcs_before_suffix(a: Seq<Seq<char>>, b: Seq<Seq<char>>)
    ensures
        lcs::lcs_len(a, b, 0, 0) == lcs::common_suffix(a, b) + lcs::lcs_len(
            a.take(a.len() - lcs::common_suffix(a, b)),
            b.take(b.len() - lcs::common_suffix(a, b)),
            0,
            0,
        ),
    decreases a.len(),
{
    let s = lcs::common_suffix(a, b);
    lcs::lemma_suffix_bound(a, b);
    if a.len() > 0 && b.len() > 0 && a.last() == b.last() {
        let da = a.drop_last();
        let db = b.drop_last();
        lemma_lcs_before_suffix(da, db);
        lemma_lcs_of_pushed(da, db, a.last());
        assert(da.push(a.last()) =~= a);
        assert(db.push(a.last()) =~= b);
        assert(da.take(da.len() - (s - 1)) =~= a.take(a.len() - s));
        assert(db.take(db.len() - (s - 1)) =~= b.take(b.len() - s));
    } else {
        assert(a.take(a.len() as int) =~= a);
        assert(b.take(b.len() as int) =~= b);
    }
}

/// Unless the middles are too wide, a diff matches as many columns as any
/// common subsequence of the two lists can have: cutting off what they share
/// at both ends loses nothing.
pub proof fn law_diff_matches_most(a: Seq<Seq<char>>, b: Seq<Seq<char>>)
    requires
        !lcs::too_wide(a, b),
    ensures
        matches_in(lcs::column_diff(a, b)) == lcs::lcs_len(a, b, 0, 0),
{
    lcs::lemma_prefix_bound(a, b);
    let p = lcs::common_prefix(a, b) as int;
    let ra = a.skip(p);
    let rb = b.skip(p);
    lcs::lemma_suffix_bound(ra, rb);
    let ma = lcs::middle(a, b);
    let mb = lcs::middle(b, a);
    let head = diff::all_of(StepKind::Match, a.take(p));
    let end = diff::all_of(StepKind::Match, lcs::shared_end(a, b));
    let changed = lcs::edits(ma, mb, 0, 0);
    lemma_matches_concat(head, changed);
    lemma_matches_concat(head + changed, end);
    lemma_side_of_all(StepKind::Match, a.take(p), StepKind::Insert);
    lemma_side_of_all(StepKind::Match, lcs::shared_end(a, b), StepKind::Insert);
    lemma_edits_sides(ma, mb, 0, 0);
    lemma_lcs_past_prefix(a, b);
    lemma_lcs_before_suffix(ra, rb);
}

/// Where the middles are too wide, the diff still matches what the two lists
/// share at both ends, and nothing else.
pub proof fn law_wide_diff_matches_the_ends(a: Seq<Seq<char>>, b: Seq<Seq<char>>)
    requires
        lcs::too_wide(a, b),
    ensures
        matches_in(lcs::column_diff(a, b)) == lcs::common_prefix(a, b) + lcs::common_suffix(
            a.skip(lcs::common_prefix(a, b) as int),
            b.skip(lcs::common_prefix(a, b) as int),
        ),
{
    lcs::lemma_prefix_bound(a, b);
    let p = lcs::common_prefix(a, b) as int;
    lcs::lemma_suffix_bound(a.skip(p), b.skip(p));
    let ma = lcs::middle(a, b);
    let mb = lcs::middle(b, a);
    let head = diff::all_of(StepKind::Match, a.take(p));
    let end = diff::all_of(StepKind::Match, lcs::shared_end(a, b));
    let gone = diff::all_of(StepKind::Delete, ma);
    let come = diff::all_of(StepKind::Insert, mb);
    lemma_matches_concat(gone, come);
    lemma_matches_concat(head, gone + come);
    lemma_matches_concat(head + (gone + come), end);
    lemma_side_of_all(StepKind::Match, a.take(p), StepKind::Insert);
    lemma_side_of_all(StepKind::Match, lcs::shared_end(a, b), StepKind::Insert);
    lemma_side_of_all(StepKind::Delete, ma, StepKind::Insert);
    lemma_side_of_all(StepKind::Insert, mb, StepKind::Insert);
}

proof fn lemma_prefix_of_same(a: Seq<Seq<char>>)
    ensures
        lcs::common_prefix(a, a) == a.len(),
    decreases a.len(),
{
    if a.len() > 0 {
        lemma_prefix_of_same(a.drop_first());
    }
}

/// The diff of a list with itself matches every column and is never too wide.
pub proof fn law_diff_of_same(a: Seq<Seq<char>>)
    ensures
        lcs::column_diff(a, a) == diff::all_of(StepKind::Match, a),
        !lcs::too_wide(a, a),
{
    lemma_prefix_of_same(a);
    let none = a.skip(a.len() as int);
    assert(none =~= Seq::<Seq<char>>::empty());
    lcs::lemma_suffix_bound(none, none);
    assert(lcs::middle(a, a) =~= Seq::<Seq<char>>::empty());
    assert(lcs::middle(a, a).len() * lcs::middle(a, a).len() == 0) by (nonlinear_arith)
        requires
            lcs::middle(a, a).len() == 0,
    ;
    assert(lcs::shared_end(a, a) =~= Seq::<Seq<char>>::empty());
    assert(a.take(a.len() as int) =~= a);
    assert(lcs::column_diff(a, a) =~= diff::all_of(StepKind::Match, a));
}

/// Whether no step that inserts stands right before one that deletes.
pub open spec fn deletes_first(steps: Seq<StepView>) -> bool {
    forall|i: int, k: int|
        #![trigger steps[i], steps[k]]
        0 <= i && k == i + 1 && k < steps.len() ==> !(steps[i].kind == StepKind::Insert
            && steps[k].kind == StepKind::Delete)
}

/// Less of the second side never holds a longer common subsequence.
proof fn lemma_lcs_shrinks(a: Seq<Seq<char>>, b: Seq<Seq<char>>, i: int, j: int)
    requires
        0 <= i <= a.len(),
        0 <= j < b.len(),
    ensures
        lcs::lcs_len(a, b, i, j + 1) <= lcs::lcs_len(a, b, i, j),
{
    lemma_best_pairs(a, b, i, j + 1);
    let pairs = best_pairs(a, b, i, j + 1);
    if pairs.len() > 0 {
        assert(pairs[0].0 >= i && pairs[0].1 >= j);
    }
    lemma_lcs_is_longest_from(a, b, i, j, pairs);
}

proof fn lemma_edits_delete_first(a: Seq<Seq<char>>, b: Seq<Seq<char>>, i: int, j: int)
    requires
        0 <= i <= a.len(),
        0 <= j <= b.len(),
    ensures
        deletes_first(lcs::edits(a, b, i, j)),
    decreases a.len() - i + b.len() - j,
{
    if i < a.len() || j < b.len() {
        let all = lcs::edits(a, b, i, j);
        let first = all.first();
        let ni = if first.kind == StepKind::Insert {
            i
        } else {
            i + 1
        };
        let nj = if first.kind == StepKind::Delete {
            j
        } else {
            j + 1
        };
        let rest = lcs::edits(a, b, ni, nj);
        assert(all =~= seq![first] + rest);
        lemma_edits_delete_first(a, b, ni, nj);
        if first.kind == StepKind::Insert && i < a.len() {
            lemma_lcs_shrinks(a, b, i + 1, j);
        }
        assert forall|x: int, y: int|
            #![trigger all[x], all[y]]
            0 <= x && y == x + 1 && y < all.len() implies !(all[x].kind == StepKind::Insert
            && all[y].kind == StepKind::Delete) by {
            if x > 0 {
                assert(all[x] == rest[x - 1]);
                assert(all[y] == rest[y - 1]);
            } else {
                assert(all[y] == rest.first());
            }
        }
    }
}

/// In a diff no insert stands right before a delete: of one change the deleted
/// columns come first, then the inserted ones.
pub proof fn law_deletes_come_before_inserts(a: Seq<Seq<char>>, b: Seq<Seq<char>>)
    ensures
        deletes_first(lcs::column_diff(a, b)),
{
    let ma = lcs::middle(a, b);
    let mb = lcs::middle(b, a);
    let changed = if lcs::too_wide(a, b) {
        diff::all_of(StepKind::Delete, ma) + diff::all_of(StepKind::Insert, mb)
    } else {
        lcs::edits(ma, mb, 0, 0)
    };
    lemma_edits_delete_first(ma, mb, 0, 0);
    assert(deletes_first(changed));
    let head = diff::all_of(StepKind::Match, a.take(lcs::common_prefix(a, b) as int));
    let end = diff::all_of(StepKind::Match, lcs::shared_end(a, b));
    let all = lcs::column_diff(a, b);
    assert(all == head + changed + end);
    let p = head.len() as int;
    assert forall|x: int, y: int|
        #![trigger all[x], all[y]]
        0 <= x && y == x + 1 && y < all.len() implies !(all[x].kind == StepKind::Insert
        && all[y].kind == StepKind::Delete) by {
        if x >= p && y < p + changed.len() {
            assert(all[x] == changed[x - p]);
            assert(all[y] == changed[y - p]);
        } else if x < p {
            assert(all[x] == head[x]);
        } else {
            assert(all[y] == end[y - p - changed.len()]);
        }
    }
}

/// Where no match stands between an insert and a later step, that step is no
/// delete: a run of changes is a run of deletes and then a run of inserts.
pub proof fn law_changes_fall_into_two_runs(steps: Seq<StepView>, i: int, k: int)
    requires
        deletes_first(steps),
        0 <= i <= k < steps.len(),
        steps[i].kind == StepKind::Insert,
        forall|x: int| i < x <= k ==> (#[trigger] steps[x]).kind != StepKind::Match,
    ensures
        steps[k].kind == StepKind::Insert,
    decreases k - i,
{
    if i < k {
        assert(steps[i + 1].kind != StepKind::Match);
        assert(steps[i].kind == StepKind::Insert);
        law_changes_fall_into_two_runs(steps, i + 1, k);
    }
}

/// Whether two lists share just their first `p` columns and, past these, just
/// their last `s` columns.
pub open spec fn share_ends(a: Seq<Seq<char>>, b: Seq<Seq<char>>, p: int, s: int) -> bool {
    &&& 0 <= p
    &&& 0 <= s
    &&& p + s <= a.len()
    &&& p + s <= b.len()
    &&& forall|i: int| 0 <= i < p ==> #[trigger] a[i] == b[i]
    &&& p < a.len() && p < b.len() ==> a[p] != b[p]
    &&& forall|i: int| a.len() - s <= i < a.len() ==> #[trigger] a[i] == b[b.len() - a.len() + i]
    &&& p + s < a.len() && p + s < b.len() ==> a[a.len() - s - 1] != b[b.len() - s - 1]
}

proof fn lemma_prefix_is_shared(a: Seq<Seq<char>>, b: Seq<Seq<char>>, p: int)
    requires
        0 <= p <= a.len(),
        p <= b.len(),
        forall|i: int| 0 <= i < p ==> #[trigger] a[i] == b[i],
        p < a.len() && p < b.len() ==> a[p] != b[p],
    ensures
        lcs::common_prefix(a, b) == p,
    decreases p,
{
    if p > 0 {
        let da = a.drop_first();
        let db = b.drop_first();
        assert(a[0] == b[0]);
        assert forall|i: int| 0 <= i < p - 1 implies #[trigger] da[i] == db[i] by {
            assert(a[i + 1] == b[i + 1]);
        }
        lemma_prefix_is_shared(da, db, p - 1);
    }
}

proof fn lemma_suffix_is_shared(a: Seq<Seq<char>>, b: Seq<Seq<char>>, s: int)
    requires
        0 <= s <= a.len(),
        s <= b.len(),
        forall|i: int|
            a.len() - s <= i < a.len() ==> #[trigger] a[i] == b[b.len() - a.len() + i],
        s < a.len() && s < b.len() ==> a[a.len() - s - 1] != b[b.len() - s - 1],
    ensures
        lcs::common_suffix(a, b) == s,
    decreases s,
{
    if s > 0 {
        let da = a.drop_last();
        let db = b.drop_last();
        assert(a[a.len() - 1] == b[b.len() - a.len() + (a.len() - 1)]);
        assert forall|i: int| da.len() - (s - 1) <= i < da.len() implies #[trigger] da[i]
            == db[db.len() - da.len() + i] by {
            assert(a[i] == b[b.len() - a.len() + i]);
        }
        lemma_suffix_is_shared(da, db, s - 1);
    }
}

/// What two lists share at their ends, past which their middles differ at once.
proof fn lemma_shared_ends(a: Seq<Seq<char>>, b: Seq<Seq<char>>, p: int, s: int)
    requires
        share_ends(a, b, p, s),
    ensures
        lcs::common_prefix(a, b) == p,
        lcs::middle(a, b) == a.subrange(p, a.len() - s),
        lcs::middle(b, a) == b.subrange(p, b.len() - s),
        lcs::shared_end(a, b) == a.skip(a.len() - s),
{
    lemma_prefix_is_shared(a, b, p);
    let ra = a.skip(p);
    let rb = b.skip(p);
    assert forall|i: int| ra.len() - s <= i < ra.len() implies #[trigger] ra[i] == rb[rb.len()
        - ra.len() + i] by {
        assert(a[p + i] == b[b.len() - a.len() + (p + i)]);
    }
    lemma_suffix_is_shared(ra, rb, s);
    lcs::lemma_prefix_bound(a, b);
    lcs::lemma_suffix_bound(ra, rb);
    assert(lcs::middle(a, b) =~= a.subrange(p, a.len() - s));
    assert(lcs::middle(b, a) =~= b.subrange(p, b.len() - s));
    assert(lcs::shared_end(a, b) =~= a.skip(a.len() - s));
}

/// The middles of two lists, between what they share at their ends, are too wide
/// where their lengths multiply to more than a million.
pub proof fn law_a_million_cells_are_the_limit(
    a: Seq<Seq<char>>,
    b: Seq<Seq<char>>,
    p: int,
    s: int,
)
    requires
        share_ends(a, b, p, s),
    ensures
        lcs::too_wide(a, b) <==> (a.len() - p - s) * (b.len() - p - s) > 1_000_000,
{
    lemma_shared_ends(a, b, p, s);
}

/// A step of one kind for each column.
pub open spec fn steps_for(kind: StepKind, columns: Seq<Seq<char>>) -> Seq<StepView> {
    Seq::new(columns.len(), |i: int| StepView { kind, content: columns[i] })
}

/// Middles that are too wide are replaced whole: the shared ends match, and
/// between them the old middle goes and then the new one comes.
pub proof fn law_wide_middles_are_replaced(
    a: Seq<Seq<char>>,
    b: Seq<Seq<char>>,
    p: int,
    s: int,
)
    requires
        share_ends(a, b, p, s),
        (a.len() - p - s) * (b.len() - p - s) > 1_000_000,
    ensures
        lcs::column_diff(a, b) == steps_for(StepKind::Match, a.take(p)) + steps_for(
            StepKind::Delete,
            a.subrange(p, a.len() - s),
        ) + steps_for(StepKind::Insert, b.subrange(p, b.len() - s)) + steps_for(
            StepKind::Match,
            a.skip(a.len() - s),
        ),
{
    lemma_shared_ends(a, b, p, s);
    law_a_million_cells_are_the_limit(a, b, p, s);
    assert(lcs::column_diff(a, b) =~= steps_for(StepKind::Match, a.take(p)) + steps_for(
        StepKind::Delete,
        a.subrange(p, a.len() - s),
    ) + steps_for(StepKind::Insert, b.subrange(p, b.len() - s)) + steps_for(
        StepKind::Match,
        a.skip(a.len() - s),
    ));
}

/// Whatever comes between, the shared ends match.
pub proof fn law_shared_ends_match(a: Seq<Seq<char>>, b: Seq<Seq<char>>, p: int, s: int)
    requires
        share_ends(a, b, p, s),
    ensures
        p + s <= lcs::column_diff(a, b).len(),
        forall|i: int|
            0 <= i < p ==> #[trigger] lcs::column_diff(a, b)[i] == (StepView {
                kind: StepKind::Match,
                content: a[i],
            }),
        forall|i: int|
            0 <= i < s ==> lcs::column_diff(a, b)[lcs::column_diff(a, b).len() - 1 - i] == (
            StepView { kind: StepKind::Match, content: #[trigger] a[a.len() - 1 - i] }),
{
    lemma_shared_ends(a, b, p, s);
}

} // verus!
