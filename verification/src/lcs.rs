//! The longest common subsequence of two column lists, and the edit script
//! that follows from it.

use crate::diff;
use crate::diff::{Step, StepKind, StepView};
use crate::text;
use vstd::prelude::*;

verus! {

/// How many of `n` items stand at or after place `i`.
pub open spec fn left(n: nat, i: int) -> nat {
    if i < n {
        (n - i) as nat
    } else {
        0
    }
}

/// The length of the longest common subsequence of `a[i..]` and `b[j..]`.
pub open spec fn lcs_len(a: Seq<Seq<char>>, b: Seq<Seq<char>>, i: int, j: int) -> nat
    decreases left(a.len(), i) + left(b.len(), j),
{
    if i >= a.len() || j >= b.len() {
        0
    } else if a[i] == b[j] {
        1 + lcs_len(a, b, i + 1, j + 1)
    } else {
        text::larger(lcs_len(a, b, i + 1, j), lcs_len(a, b, i, j + 1))
    }
}

/// The edit script that turns `a[i..]` into `b[j..]`: equal columns match;
/// otherwise the old column goes unless only keeping it leads to more matches.
pub open spec fn edits(a: Seq<Seq<char>>, b: Seq<Seq<char>>, i: int, j: int) -> Seq<StepView>
    decreases left(a.len(), i) + left(b.len(), j),
{
    if i >= a.len() && j >= b.len() {
        Seq::empty()
    } else if i >= a.len() {
        seq![StepView { kind: StepKind::Insert, content: b[j] }] + edits(a, b, i, j + 1)
    } else if j >= b.len() {
        seq![StepView { kind: StepKind::Delete, content: a[i] }] + edits(a, b, i + 1, j)
    } else if a[i] == b[j] {
        seq![StepView { kind: StepKind::Match, content: a[i] }] + edits(a, b, i + 1, j + 1)
    } else if lcs_len(a, b, i + 1, j) >= lcs_len(a, b, i, j + 1) {
        seq![StepView { kind: StepKind::Delete, content: a[i] }] + edits(a, b, i + 1, j)
    } else {
        seq![StepView { kind: StepKind::Insert, content: b[j] }] + edits(a, b, i, j + 1)
    }
}

/// The place of row `i`, column `j` in a flat table with rows of `stride`.
pub open spec fn place(i: int, j: int, stride: int) -> int {
    i * stride + j
}

proof fn lemma_place(i: int, j: int, n: int, stride: int)
    requires
        0 <= i <= n,
        0 <= j < stride,
    ensures
        0 <= place(i, j, stride) < (n + 1) * stride,
{
    assert(0 <= i * stride + j < (n + 1) * stride) by (nonlinear_arith)
        requires
            0 <= i <= n,
            0 <= j < stride,
    ;
}

proof fn lemma_place_unique(i: int, j: int, x: int, y: int, stride: int)
    requires
        0 <= j < stride,
        0 <= y < stride,
        place(i, j, stride) == place(x, y, stride),
    ensures
        i == x,
        j == y,
{
    assert(i == x && j == y) by (nonlinear_arith)
        requires
            0 <= j < stride,
            0 <= y < stride,
            i * stride + j == x * stride + y,
    ;
}

/// Once one side is used up, what is left of the other goes or comes whole.
proof fn lemma_edits_tail(a: Seq<Seq<char>>, b: Seq<Seq<char>>, i: int, j: int)
    requires
        0 <= i <= a.len(),
        0 <= j <= b.len(),
        i == a.len() || j == b.len(),
    ensures
        edits(a, b, i, j) == diff::all_of(
            StepKind::Delete,
            a.subrange(i, a.len() as int),
        ) + diff::all_of(StepKind::Insert, b.subrange(j, b.len() as int)),
    decreases a.len() - i + b.len() - j,
{
    let whole = diff::all_of(StepKind::Delete, a.subrange(i, a.len() as int)) + diff::all_of(
        StepKind::Insert,
        b.subrange(j, b.len() as int),
    );
    if i < a.len() {
        lemma_edits_tail(a, b, i + 1, j);
        assert(edits(a, b, i, j) =~= whole);
    } else if j < b.len() {
        lemma_edits_tail(a, b, i, j + 1);
        assert(edits(a, b, i, j) =~= whole);
    } else {
        assert(edits(a, b, i, j) =~= whole);
    }
}

/// The table of `lcs_len` over all suffixes of `a` and `b`, row by row.
pub open spec fn table_done(
    table: Seq<usize>,
    a: Seq<Seq<char>>,
    b: Seq<Seq<char>>,
    from: int,
    stride: int,
) -> bool {
    forall|x: int, y: int|
        #![trigger place(x, y, stride)]
        from <= x <= a.len() && 0 <= y <= b.len() ==> table[place(x, y, stride)] == lcs_len(
            a,
            b,
            x,
            y,
        )
}

/// `lcs_len` is bounded by what is left of the first side.
proof fn lemma_lcs_bound(a: Seq<Seq<char>>, b: Seq<Seq<char>>, i: int, j: int)
    requires
        0 <= i <= a.len(),
        0 <= j <= b.len(),
    ensures
        lcs_len(a, b, i, j) <= a.len() - i,
    decreases a.len() - i + b.len() - j,
{
    if i < a.len() && j < b.len() {
        if a[i] == b[j] {
            lemma_lcs_bound(a, b, i + 1, j + 1);
        } else {
            lemma_lcs_bound(a, b, i + 1, j);
            lemma_lcs_bound(a, b, i, j + 1);
        }
    }
}

/// Fills the table of common subsequence lengths, in one flat allocation.
fn lcs_table(a: &[String], b: &[String]) -> (table: Vec<usize>)
    requires
        (a@.len() + 1) * (b@.len() + 1) <= usize::MAX,
    ensures
        table.len() == (a@.len() + 1) * (b@.len() + 1),
        table_done(table@, text::texts(a@), text::texts(b@), 0, b@.len() as int + 1),
{
    let n: usize = a.len();
    let m: usize = b.len();
    let ghost ta = text::texts(a@);
    let ghost tb = text::texts(b@);
    proof {
        assert(m + 1 <= (n + 1) * (m + 1)) by (nonlinear_arith);
        assert(n + 1 <= (n + 1) * (m + 1)) by (nonlinear_arith);
    }
    let stride: usize = m + 1;
    let mut table: Vec<usize> = vec![0usize; (n + 1) * stride];
    let mut i: usize = n;
    proof {
        assert forall|x: int, y: int| #![trigger place(x, y, stride as int)]
            n <= x <= ta.len() && 0 <= y <= tb.len() implies table@[place(x, y, stride as int)]
            == lcs_len(ta, tb, x, y) by {
            lemma_place(x, y, n as int, stride as int);
        }
        assert forall|x: int| 0 <= x <= n implies #[trigger] table@[place(
            x,
            m as int,
            stride as int,
        )] == 0 by {
            lemma_place(x, m as int, n as int, stride as int);
        }
    }
    while i > 0
        invariant
            i <= n,
            n == a@.len(),
            m == b@.len(),
            stride == m + 1,
            ta == text::texts(a@),
            tb == text::texts(b@),
            table.len() == (n + 1) * stride,
            (n + 1) * stride <= usize::MAX,
            n < usize::MAX,
            table_done(table@, ta, tb, i as int, stride as int),
            forall|x: int|
                0 <= x <= n ==> #[trigger] table@[place(x, m as int, stride as int)] == 0,
        decreases i,
    {
        i -= 1;
        let mut j: usize = m;
        while j > 0
            invariant
                i < n,
                j <= m,
                n == a@.len(),
                m == b@.len(),
                stride == m + 1,
                ta == text::texts(a@),
                tb == text::texts(b@),
                table.len() == (n + 1) * stride,
                (n + 1) * stride <= usize::MAX,
                n < usize::MAX,
                table_done(table@, ta, tb, i + 1, stride as int),
                forall|y: int| j <= y <= m ==> #[trigger] table@[place(i as int, y, stride as int)]
                    == lcs_len(ta, tb, i as int, y),
                forall|x: int|
                    0 <= x <= n ==> #[trigger] table@[place(x, m as int, stride as int)] == 0,
            decreases j,
        {
            j -= 1;
            proof {
                lemma_place(i as int, j as int, n as int, stride as int);
                lemma_place(i + 1, j as int, n as int, stride as int);
                lemma_place(i as int, j + 1, n as int, stride as int);
                lemma_place(i + 1, j + 1, n as int, stride as int);
                lemma_place(i as int, 0, n as int, stride as int);
                lemma_place(i + 1, 0, n as int, stride as int);
                lemma_lcs_bound(ta, tb, i + 1, j + 1);
                assert(ta[i as int] == a@[i as int]@);
                assert(tb[j as int] == b@[j as int]@);
            }
            let here: usize = i * stride + j;
            let down: usize = (i + 1) * stride + j;
            let v: usize = if a[i] == b[j] {
                table[down + 1] + 1
            } else {
                let x: usize = table[down];
                let y: usize = table[here + 1];
                if x >= y {
                    x
                } else {
                    y
                }
            };
            let ghost before = table@;
            table.set(here, v);
            proof {
                assert(v == lcs_len(ta, tb, i as int, j as int));
                assert forall|x: int, y: int| #![trigger place(x, y, stride as int)]
                    i + 1 <= x <= ta.len() && 0 <= y <= tb.len() implies table@[place(
                    x,
                    y,
                    stride as int,
                )] == lcs_len(ta, tb, x, y) by {
                    lemma_place(x, y, n as int, stride as int);
                    if place(x, y, stride as int) == here {
                        lemma_place_unique(x, y, i as int, j as int, stride as int);
                    }
                    assert(before[place(x, y, stride as int)] == lcs_len(ta, tb, x, y));
                }
                assert forall|y: int| j <= y <= m implies #[trigger] table@[place(
                    i as int,
                    y,
                    stride as int,
                )] == lcs_len(ta, tb, i as int, y) by {
                    lemma_place(i as int, y, n as int, stride as int);
                    if y > j {
                        if place(i as int, y, stride as int) == here {
                            lemma_place_unique(i as int, y, i as int, j as int, stride as int);
                        }
                        assert(before[place(i as int, y, stride as int)] == lcs_len(
                            ta,
                            tb,
                            i as int,
                            y,
                        ));
                    }
                }
                assert forall|x: int| 0 <= x <= n implies #[trigger] table@[place(
                    x,
                    m as int,
                    stride as int,
                )] == 0 by {
                    lemma_place(x, m as int, n as int, stride as int);
                    if place(x, m as int, stride as int) == here {
                        lemma_place_unique(x, m as int, i as int, j as int, stride as int);
                    }
                    assert(before[place(x, m as int, stride as int)] == 0);
                }
            }
        }
        proof {
            assert forall|x: int, y: int| #![trigger place(x, y, stride as int)]
                i <= x <= ta.len() && 0 <= y <= tb.len() implies table@[place(x, y, stride as int)]
                == lcs_len(ta, tb, x, y) by {
                if x == i {
                    assert(table@[place(i as int, y, stride as int)] == lcs_len(
                        ta,
                        tb,
                        i as int,
                        y,
                    ));
                }
            }
        }
    }
    table
}

/// Classic LCS dynamic programming over two column lists, appending the edit
/// operations in order.
pub fn lcs_ops(a: &[String], b: &[String], out: &mut Vec<Step>)
    requires
        a@.len() > 0 && b@.len() > 0 ==> (a@.len() + 1) * (b@.len() + 1) <= usize::MAX,
    ensures
        diff::step_views(final(out)@) == diff::step_views(old(out)@) + edits(
            text::texts(a@),
            text::texts(b@),
            0,
            0,
        ),
{
    let n: usize = a.len();
    let m: usize = b.len();
    let ghost ta = text::texts(a@);
    let ghost tb = text::texts(b@);
    let ghost whole = diff::step_views(out@) + edits(ta, tb, 0, 0);
    let mut i: usize = 0;
    let mut j: usize = 0;
    if n > 0 && m > 0 {
        let table = lcs_table(a, b);
        proof {
            assert(m + 1 <= (n + 1) * (m + 1)) by (nonlinear_arith);
            assert(n + 1 <= (n + 1) * (m + 1)) by (nonlinear_arith);
        }
        let stride: usize = m + 1;
        while i < n && j < m
            invariant
                i <= n,
                j <= m,
                n == a@.len(),
                m == b@.len(),
                stride == m + 1,
                ta == text::texts(a@),
                tb == text::texts(b@),
                table.len() == (n + 1) * stride,
                (n + 1) * stride <= usize::MAX,
                n < usize::MAX,
                table_done(table@, ta, tb, 0, stride as int),
                diff::step_views(out@) + edits(ta, tb, i as int, j as int) == whole,
            decreases n - i + (m - j),
        {
            let ghost before = diff::step_views(out@);
            proof {
                lemma_place(i as int, j as int, n as int, stride as int);
                lemma_place(i + 1, j as int, n as int, stride as int);
                lemma_place(i as int, j + 1, n as int, stride as int);
                lemma_place(i as int, 0, n as int, stride as int);
                lemma_place(i + 1, 0, n as int, stride as int);
                assert(ta[i as int] == a@[i as int]@);
                assert(tb[j as int] == b@[j as int]@);
            }
            if a[i] == b[j] {
                out.push(Step { kind: StepKind::Match, content: a[i].clone() });
                i += 1;
                j += 1;
            } else if table[(i + 1) * stride + j] >= table[i * stride + j + 1] {
                out.push(Step { kind: StepKind::Delete, content: a[i].clone() });
                i += 1;
            } else {
                out.push(Step { kind: StepKind::Insert, content: b[j].clone() });
                j += 1;
            }
            proof {
                assert(diff::step_views(out@) =~= before + seq![out@.last()@]);
                assert(diff::step_views(out@) + edits(ta, tb, i as int, j as int) =~= whole);
            }
        }
    }
    let ghost before = diff::step_views(out@);
    diff::push_all(out, StepKind::Delete, a, i, n);
    diff::push_all(out, StepKind::Insert, b, j, m);
    proof {
        lemma_edits_tail(ta, tb, i as int, j as int);
        assert(diff::step_views(out@) =~= before + edits(ta, tb, i as int, j as int));
    }
}

/// How many columns `a` and `b` share at the start.
pub open spec fn common_prefix(a: Seq<Seq<char>>, b: Seq<Seq<char>>) -> nat
    decreases a.len(),
{
    if a.len() > 0 && b.len() > 0 && a.first() == b.first() {
        1 + common_prefix(a.drop_first(), b.drop_first())
    } else {
        0
    }
}

/// How many columns `a` and `b` share at the end.
pub open spec fn common_suffix(a: Seq<Seq<char>>, b: Seq<Seq<char>>) -> nat
    decreases a.len(),
{
    if a.len() > 0 && b.len() > 0 && a.last() == b.last() {
        1 + common_suffix(a.drop_last(), b.drop_last())
    } else {
        0
    }
}

/// The columns of `a` that are left once what it shares with `b` at the start
/// and then at the end is cut off.
pub open spec fn middle(a: Seq<Seq<char>>, b: Seq<Seq<char>>) -> Seq<Seq<char>> {
    let p = common_prefix(a, b) as int;
    let rest = a.skip(p);
    rest.take(rest.len() - common_suffix(rest, b.skip(p)))
}

/// The columns that `a` and `b` share at the end, past what they share at the
/// start.
pub open spec fn shared_end(a: Seq<Seq<char>>, b: Seq<Seq<char>>) -> Seq<Seq<char>> {
    let p = common_prefix(a, b) as int;
    let rest = a.skip(p);
    rest.skip(rest.len() - common_suffix(rest, b.skip(p)))
}

/// The most cells that a table of common subsequence lengths may have.
pub const MAX_CELLS: usize = 1_000_000;

/// Whether the two middles are too wide for a table.
pub open spec fn too_wide(a: Seq<Seq<char>>, b: Seq<Seq<char>>) -> bool {
    middle(a, b).len() * middle(b, a).len() > MAX_CELLS
}

/// The diff of two column lists: what they share at both ends matches; the
/// middles are compared by their longest common subsequence or, where they are
/// too wide for that, replaced whole.
pub open spec fn column_diff(a: Seq<Seq<char>>, b: Seq<Seq<char>>) -> Seq<StepView> {
    let changed = if too_wide(a, b) {
        diff::all_of(StepKind::Delete, middle(a, b)) + diff::all_of(
            StepKind::Insert,
            middle(b, a),
        )
    } else {
        edits(middle(a, b), middle(b, a), 0, 0)
    };
    diff::all_of(StepKind::Match, a.take(common_prefix(a, b) as int)) + changed + diff::all_of(
        StepKind::Match,
        shared_end(a, b),
    )
}

pub proof fn lemma_prefix_bound(a: Seq<Seq<char>>, b: Seq<Seq<char>>)
    ensures
        common_prefix(a, b) <= a.len(),
        common_prefix(a, b) <= b.len(),
        common_prefix(a, b) == common_prefix(b, a),
        a.take(common_prefix(a, b) as int) == b.take(common_prefix(a, b) as int),
    decreases a.len(),
{
    if a.len() > 0 && b.len() > 0 && a.first() == b.first() {
        lemma_prefix_bound(a.drop_first(), b.drop_first());
        let p = common_prefix(a.drop_first(), b.drop_first()) as int;
        assert(a.take(p + 1) =~= seq![a.first()] + a.drop_first().take(p));
        assert(b.take(p + 1) =~= seq![b.first()] + b.drop_first().take(p));
    } else {
        assert(a.take(0) =~= b.take(0));
    }
}

pub proof fn lemma_suffix_bound(a: Seq<Seq<char>>, b: Seq<Seq<char>>)
    ensures
        common_suffix(a, b) <= a.len(),
        common_suffix(a, b) <= b.len(),
        common_suffix(a, b) == common_suffix(b, a),
        a.skip(a.len() - common_suffix(a, b)) == b.skip(b.len() - common_suffix(a, b)),
    decreases a.len(),
{
    if a.len() > 0 && b.len() > 0 && a.last() == b.last() {
        lemma_suffix_bound(a.drop_last(), b.drop_last());
        let s = common_suffix(a.drop_last(), b.drop_last());
        let da = a.drop_last();
        let db = b.drop_last();
        assert(a.skip(a.len() - (s + 1)) =~= da.skip(da.len() - s).push(a.last()));
        assert(b.skip(b.len() - (s + 1)) =~= db.skip(db.len() - s).push(b.last()));
    } else {
        assert(a.skip(a.len() as int) =~= b.skip(b.len() as int));
    }
}

/// How many columns `a` and `b` share at the start.
fn shared_at_start(a: &[String], b: &[String]) -> (p: usize)
    ensures
        p == common_prefix(text::texts(a@), text::texts(b@)),
{
    let ghost ta = text::texts(a@);
    let ghost tb = text::texts(b@);
    let mut p: usize = 0;
    proof {
        assert(ta.skip(0) =~= ta);
        assert(tb.skip(0) =~= tb);
    }
    while p < a.len() && p < b.len() && a[p] == b[p]
        invariant
            p <= a@.len(),
            p <= b@.len(),
            ta == text::texts(a@),
            tb == text::texts(b@),
            common_prefix(ta, tb) == p + common_prefix(ta.skip(p as int), tb.skip(p as int)),
        decreases a@.len() - p,
    {
        proof {
            assert(ta.skip(p as int).first() == a@[p as int]@);
            assert(tb.skip(p as int).first() == b@[p as int]@);
            assert(ta.skip(p as int).drop_first() =~= ta.skip(p + 1));
            assert(tb.skip(p as int).drop_first() =~= tb.skip(p + 1));
        }
        p += 1;
    }
    proof {
        if p < a@.len() && p < b@.len() {
            assert(ta.skip(p as int).first() == a@[p as int]@);
            assert(tb.skip(p as int).first() == b@[p as int]@);
        }
    }
    p
}

/// How many columns `a` and `b` share at the end.
fn shared_at_end(a: &[String], b: &[String]) -> (s: usize)
    ensures
        s == common_suffix(text::texts(a@), text::texts(b@)),
{
    let ghost ta = text::texts(a@);
    let ghost tb = text::texts(b@);
    let n: usize = a.len();
    let m: usize = b.len();
    let mut s: usize = 0;
    proof {
        assert(ta.take(ta.len() as int) =~= ta);
        assert(tb.take(tb.len() as int) =~= tb);
    }
    while s < n && s < m && a[n - 1 - s] == b[m - 1 - s]
        invariant
            s <= n,
            s <= m,
            n == a@.len(),
            m == b@.len(),
            ta == text::texts(a@),
            tb == text::texts(b@),
            common_suffix(ta, tb) == s + common_suffix(ta.take(n - s), tb.take(m - s)),
        decreases n - s,
    {
        proof {
            assert(ta.take(n - s).last() == a@[n - 1 - s]@);
            assert(tb.take(m - s).last() == b@[m - 1 - s]@);
            assert(ta.take(n - s).drop_last() =~= ta.take(n - (s + 1)));
            assert(tb.take(m - s).drop_last() =~= tb.take(m - (s + 1)));
        }
        s += 1;
    }
    proof {
        if s < n && s < m {
            assert(ta.take(n - s).last() == a@[n - 1 - s]@);
            assert(tb.take(m - s).last() == b@[m - 1 - s]@);
        }
    }
    s
}

/// A product of at most `MAX_CELLS` leaves room for one more row and column.
proof fn lemma_table_fits(n: nat, m: nat)
    requires
        n > 0,
        m > 0,
        n * m <= MAX_CELLS,
    ensures
        (n + 1) * (m + 1) <= usize::MAX,
{
    assert((n + 1) * (m + 1) <= 4 * (n * m)) by (nonlinear_arith)
        requires
            n > 0,
            m > 0,
    ;
}

/// Diff of two column lists. Trims the common prefix and suffix first so that
/// the table stays small. When the two middle widths exceed the threshold the
/// table is skipped entirely (the second result is then true) and the middle
/// is one big delete and insert.
pub fn diff_columns(a: &[String], b: &[String]) -> (r: (Vec<Step>, bool))
    ensures
        diff::step_views(r.0@) == column_diff(text::texts(a@), text::texts(b@)),
        r.1 == too_wide(text::texts(a@), text::texts(b@)),
{
    let ghost ta = text::texts(a@);
    let ghost tb = text::texts(b@);
    let n: usize = a.len();
    let m: usize = b.len();
    let p: usize = shared_at_start(a, b);
    proof {
        lemma_prefix_bound(ta, tb);
    }
    let rest_a = vstd::slice::slice_subrange(a, p, n);
    let rest_b = vstd::slice::slice_subrange(b, p, m);
    proof {
        assert(text::texts(rest_a@) =~= ta.skip(p as int));
        assert(text::texts(rest_b@) =~= tb.skip(p as int));
        lemma_suffix_bound(ta.skip(p as int), tb.skip(p as int));
    }
    let s: usize = shared_at_end(rest_a, rest_b);
    let mid_a = vstd::slice::slice_subrange(a, p, n - s);
    let mid_b = vstd::slice::slice_subrange(b, p, m - s);
    let ghost ma = text::texts(mid_a@);
    let ghost mb = text::texts(mid_b@);
    proof {
        assert(ma =~= middle(ta, tb));
        assert(mb =~= middle(tb, ta));
    }
    let mut ops: Vec<Step> = Vec::new();
    diff::push_all(&mut ops, StepKind::Match, a, 0, p);
    let ghost head = diff::step_views(ops@);
    proof {
        assert(head =~= diff::all_of(StepKind::Match, ta.take(p as int)));
    }
    let degraded = match mid_a.len().checked_mul(mid_b.len()) {
        Some(cells) => cells > MAX_CELLS,
        None => true,
    };
    let ghost changed = if too_wide(ta, tb) {
        diff::all_of(StepKind::Delete, ma) + diff::all_of(StepKind::Insert, mb)
    } else {
        edits(ma, mb, 0, 0)
    };
    if degraded {
        diff::push_all(&mut ops, StepKind::Delete, mid_a, 0, mid_a.len());
        diff::push_all(&mut ops, StepKind::Insert, mid_b, 0, mid_b.len());
        proof {
            assert(ma.subrange(0, ma.len() as int) =~= ma);
            assert(mb.subrange(0, mb.len() as int) =~= mb);
            assert(diff::step_views(ops@) =~= head + changed);
        }
    } else {
        proof {
            if ma.len() > 0 && mb.len() > 0 {
                lemma_table_fits(ma.len(), mb.len());
            }
        }
        lcs_ops(mid_a, mid_b, &mut ops);
    }
    diff::push_all(&mut ops, StepKind::Match, a, n - s, n);
    proof {
        assert(ta.subrange(n - s, n as int) =~= shared_end(ta, tb));
    }
    (ops, degraded)
}

} // verus!
