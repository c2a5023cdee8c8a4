//! What holds of the grid of two files.

use crate::columns;
use crate::diff;
use crate::diff::{DiffGrid, StepKind, StepView};
use crate::lcs;
use crate::lcs_laws;
use crate::text;
use crate::text::CharSet;
use crate::text_laws;
use crate::width;
use std::ops::Range;
use vstd::prelude::*;

verus! {

/// Whether every step is a match.
pub open spec fn all_match(steps: Seq<StepView>) -> bool {
    forall|i: int| 0 <= i < steps.len() ==> (#[trigger] steps[i]).kind == StepKind::Match
}

/// A file compared with itself has nothing but matches, one for each of its
/// columns, and is never too wide.
pub proof fn law_same_file_matches(a: Seq<char>)
    ensures
        diff::grid_steps(a, a) == diff::all_of(StepKind::Match, diff::grid_columns(a, a)),
        all_match(diff::grid_steps(a, a)),
        !lcs::too_wide(diff::grid_columns(a, a), diff::grid_columns(a, a)),
{
    lcs_laws::law_diff_of_same(diff::grid_columns(a, a));
    assert(diff::grid_steps(a, a) =~= diff::all_of(
        StepKind::Match,
        diff::grid_columns(a, a),
    ));
}

/// The columns that the newline mark adds to a side.
pub open spec fn mark_columns(a: Seq<char>, b: Seq<char>, kind: StepKind) -> Seq<Seq<char>> {
    let mark = diff::newline_mark(a, b);
    if mark.len() > 0 && mark[0].kind == kind {
        seq![mark[0].content]
    } else {
        Seq::empty()
    }
}

/// A grid keeps both files: what it matches or deletes are the columns of the
/// old file, what it matches or inserts those of the new file, each in order,
/// and past them the mark for a line feed that only one of them ends with.
pub proof fn law_grid_keeps_both_files(a: Seq<char>, b: Seq<char>)
    ensures
        lcs_laws::old_side(diff::grid_steps(a, b)) == diff::grid_columns(a, b) + mark_columns(
            a,
            b,
            StepKind::Delete,
        ),
        lcs_laws::new_side(diff::grid_steps(a, b)) == diff::grid_columns(b, a) + mark_columns(
            a,
            b,
            StepKind::Insert,
        ),
{
    let ca = diff::grid_columns(a, b);
    let cb = diff::grid_columns(b, a);
    let mark = diff::newline_mark(a, b);
    lcs_laws::law_diff_keeps_both_sides(ca, cb);
    lcs_laws::lemma_side_concat(lcs::column_diff(ca, cb), mark, StepKind::Insert);
    lcs_laws::lemma_side_concat(lcs::column_diff(ca, cb), mark, StepKind::Delete);
    if mark.len() > 0 {
        assert(mark =~= seq![mark[0]]);
        lcs_laws::lemma_side_of_one(mark[0], StepKind::Insert);
        lcs_laws::lemma_side_of_one(mark[0], StepKind::Delete);
    } else {
        assert(mark =~= Seq::<StepView>::empty());
    }
}

/// Whether the mark for a deleted line feed follows an inserted column.
pub open spec fn mark_follows_insert(a: Seq<char>, b: Seq<char>) -> bool {
    let diffed = lcs::column_diff(diff::grid_columns(a, b), diff::grid_columns(b, a));
    let mark = diff::newline_mark(a, b);
    &&& mark.len() > 0
    &&& mark[0].kind == StepKind::Delete
    &&& diffed.len() > 0
    &&& diffed.last().kind == StepKind::Insert
}

/// In the grid of two files, too, no insert stands right before a delete. The
/// one exception is the mark for a deleted line feed, which comes past all
/// columns.
pub proof fn law_grid_deletes_before_inserts(a: Seq<char>, b: Seq<char>)
    ensures
        lcs_laws::deletes_first(
            diff::grid_steps(a, b).take(
                diff::grid_steps(a, b).len() - diff::newline_mark(a, b).len(),
            ),
        ),
        diff::newline_mark(a, b).len() <= 1,
        lcs_laws::deletes_first(diff::grid_steps(a, b)) <==> !mark_follows_insert(a, b),
{
    let diffed = lcs::column_diff(diff::grid_columns(a, b), diff::grid_columns(b, a));
    let steps = diff::grid_steps(a, b);
    let mark = diff::newline_mark(a, b);
    let n = diffed.len() as int;
    lcs_laws::law_deletes_come_before_inserts(diff::grid_columns(a, b), diff::grid_columns(b, a));
    assert(steps.take(steps.len() - mark.len()) =~= diffed);
    if mark_follows_insert(a, b) {
        assert(steps[n - 1] == diffed.last());
        assert(steps[n] == mark[0]);
    } else {
        assert forall|x: int, y: int|
            #![trigger steps[x], steps[y]]
            0 <= x && y == x + 1 && y < steps.len() implies !(steps[x].kind == StepKind::Insert
            && steps[y].kind == StepKind::Delete) by {
            assert(steps[x] == diffed[x]);
            if y < n {
                assert(steps[y] == diffed[y]);
            } else {
                assert(steps[y] == mark[0]);
            }
        }
    }
}

proof fn lemma_sides_of_matches(steps: Seq<StepView>)
    requires
        all_match(steps),
    ensures
        lcs_laws::old_side(steps) == lcs_laws::new_side(steps),
    decreases steps.len(),
{
    if steps.len() > 0 {
        let rest = steps.drop_last();
        assert forall|i: int| 0 <= i < rest.len() implies (#[trigger] rest[i]).kind
            == StepKind::Match by {
            assert(rest[i] == steps[i]);
        }
        lemma_sides_of_matches(rest);
        assert(steps[steps.len() - 1].kind == StepKind::Match);
    }
}

/// None of the parts is longer than the longest.
pub proof fn lemma_longest(parts: Seq<Seq<char>>, i: int)
    requires
        0 <= i < parts.len(),
    ensures
        parts[i].len() <= text::max_len(parts),
    decreases parts.len(),
{
    if i < parts.len() - 1 {
        lemma_longest(parts.drop_last(), i);
    }
}

/// Where a grid shows no change, the two files show the same character in
/// every place, and neither ends with a line feed that the other lacks.
pub proof fn law_no_change_means_same_text(a: Seq<char>, b: Seq<char>)
    requires
        all_match(diff::grid_steps(a, b)),
    ensures
        forall|r: int, k: int| #[trigger]
            columns::cell_at(columns::file_lines(a), r, k) == columns::cell_at(
                columns::file_lines(b),
                r,
                k,
            ),
        a.len() > 0 && b.len() > 0 ==> columns::ends_line(a) == columns::ends_line(b),
{
    let steps = diff::grid_steps(a, b);
    let mark = diff::newline_mark(a, b);
    if mark.len() > 0 {
        assert(steps[steps.len() - 1] == mark[0]);
        assert(false);
    }
    assert(mark =~= Seq::<StepView>::empty());
    law_grid_keeps_both_files(a, b);
    lemma_sides_of_matches(steps);
    let la = columns::file_lines(a);
    let lb = columns::file_lines(b);
    let h = diff::grid_height(a, b);
    let ca = diff::grid_columns(a, b);
    let cb = diff::grid_columns(b, a);
    assert(ca =~= cb);
    assert forall|r: int, k: int| #[trigger]
        columns::cell_at(la, r, k) == columns::cell_at(lb, r, k) by {
        if 0 <= r < h && 0 <= k < ca.len() {
            assert(ca[k] == columns::column(la, h, k));
            assert(cb[k] == columns::column(lb, h, k));
            assert(ca[k][r] == columns::cell_at(la, r, k));
            assert(cb[k][r] == columns::cell_at(lb, r, k));
        } else {
            if 0 <= r < la.len() {
                lemma_longest(la, r);
            }
            if 0 <= r < lb.len() {
                lemma_longest(lb, r);
            }
        }
    }
}

/// A line feed at the end of one of two files only is reported: by a step that
/// is no match, with the newline glyph in the last line of the file that has
/// it.
pub proof fn law_missing_newline_is_reported(a: Seq<char>, b: Seq<char>)
    requires
        a.len() > 0,
        b.len() > 0,
        columns::ends_line(a) != columns::ends_line(b),
    ensures
        diff::grid_steps(a, b).len() > 0,
        diff::grid_steps(a, b).last().kind == if columns::ends_line(a) {
            StepKind::Delete
        } else {
            StepKind::Insert
        },
        diff::grid_steps(a, b).last().content.contains(diff::NEWLINE_GLYPH),
{
    columns::lemma_some_line(a);
    columns::lemma_some_line(b);
    let steps = diff::grid_steps(a, b);
    let mark = diff::newline_mark(a, b);
    assert(steps.last() == mark[0]);
    let row = if columns::ends_line(a) {
        columns::file_lines(a).len() - 1
    } else {
        columns::file_lines(b).len() - 1
    };
    assert(mark[0].content[row] == diff::NEWLINE_GLYPH);
}

/// Read by rows, the columns of some lines are the lines again, each filled up
/// with spaces to the length of the longest.
pub proof fn law_columns_read_back(lines: Seq<Seq<char>>, height: nat, r: int)
    requires
        0 <= r < lines.len(),
        text::max_len(lines) > 0,
    ensures
        columns::columns_of(columns::columns_of(lines, height), 0)[r] == lines[r] + text::spaces(
            text::minus(text::max_len(lines), lines[r].len()),
        ),
{
    let cols = columns::columns_of(lines, height);
    let h = text::larger(lines.len(), height);
    lemma_longest(lines, r);
    assert forall|k: int| 0 <= k < cols.len() implies (#[trigger] cols[k]).len() == h by {
        assert(cols[k] == columns::column(lines, h, k));
    }
    lemma_equal_lengths(cols, h);
    let back = columns::columns_of(cols, 0);
    assert(back[r] == columns::column(cols, text::larger(cols.len(), 0), r));
    assert forall|k: int| 0 <= k < cols.len() implies #[trigger] back[r][k] == columns::cell_at(
        lines,
        r,
        k,
    ) by {
        assert(cols[k] == columns::column(lines, h, k));
    }
    assert(back[r] =~= lines[r] + text::spaces(text::minus(text::max_len(lines), lines[r].len())));
}

/// The longest of equally long parts.
pub proof fn lemma_equal_lengths(parts: Seq<Seq<char>>, n: nat)
    requires
        parts.len() > 0,
        forall|i: int| 0 <= i < parts.len() ==> (#[trigger] parts[i]).len() == n,
    ensures
        text::max_len(parts) == n,
    decreases parts.len(),
{
    if parts.len() > 1 {
        let rest = parts.drop_last();
        assert forall|i: int| 0 <= i < rest.len() implies (#[trigger] rest[i]).len() == n by {
            assert(rest[i] == parts[i]);
        }
        lemma_equal_lengths(rest, n);
    } else {
        assert(parts.drop_last() =~= Seq::<Seq<char>>::empty());
        assert(text::max_len(parts.drop_last()) == 0);
    }
    assert(parts[parts.len() - 1].len() == n);
}

/// Steps fall into runs of equal kind in one way only.
pub proof fn law_grouping_is_unique(
    steps: Seq<StepView>,
    x: Seq<Range<usize>>,
    y: Seq<Range<usize>>,
)
    requires
        diff::is_grouping(steps, x),
        diff::is_grouping(steps, y),
    ensures
        x == y,
{
    if steps.len() == 0 {
        assert(x =~= y);
    } else {
        lemma_same_groups(steps, x, y, x.len() as int);
        lemma_same_groups(steps, y, x, y.len() as int);
        assert(x =~= y);
    }
}

/// The first `n` groups of one grouping are the first groups of the other.
proof fn lemma_same_groups(
    steps: Seq<StepView>,
    x: Seq<Range<usize>>,
    y: Seq<Range<usize>>,
    n: int,
)
    requires
        0 <= n <= x.len(),
        diff::is_grouping(steps, x),
        diff::is_grouping(steps, y),
    ensures
        n <= y.len(),
        forall|k: int| 0 <= k < n ==> #[trigger] x[k] == y[k],
    decreases n,
{
    if n > 0 {
        lemma_same_groups(steps, x, y, n - 1);
        let k = n - 1;
        assert(x[k].start < x[k].end <= steps.len());
        if k == 0 {
            assert(steps.len() > 0);
            assert(y.len() > 0);
            assert(x[0].start == 0 && y[0].start == 0);
        } else {
            assert(x[k - 1].end == x[k].start);
            assert(x[k - 1] == y[k - 1]);
            assert(y[k - 1].end < steps.len());
            if k >= y.len() {
                assert(y[k - 1] == y.last());
                assert(false);
            }
            assert(y[k - 1].end == y[k].start);
        }
        lemma_same_end(steps, x[k], y[k], x, y, k);
    }
}

proof fn lemma_same_end(
    steps: Seq<StepView>,
    g: Range<usize>,
    h: Range<usize>,
    x: Seq<Range<usize>>,
    y: Seq<Range<usize>>,
    k: int,
)
    requires
        diff::is_grouping(steps, x),
        diff::is_grouping(steps, y),
        0 <= k < x.len(),
        k < y.len(),
        g == x[k],
        h == y[k],
        g.start == h.start,
    ensures
        g == h,
{
    assert(diff::ends_run(steps, g.end - 1));
    assert(diff::ends_run(steps, h.end - 1));
    assert(g.start < g.end <= steps.len());
    assert(h.start < h.end <= steps.len());
    if g.end < h.end {
        let e = g.end as int;
        assert(diff::boundary(steps, e - 1));
        assert(steps[e - 1].kind == steps[h.start as int].kind);
        assert(steps[e].kind == steps[h.start as int].kind);
    }
    if h.end < g.end {
        let e = h.end as int;
        assert(diff::boundary(steps, e - 1));
        assert(steps[e - 1].kind == steps[g.start as int].kind);
        assert(steps[e].kind == steps[g.start as int].kind);
    }
}

/// Where a group ends and another follows, the kind changes; inside a group it
/// does not.
pub proof fn law_separators_stand_between_kinds(
    steps: Seq<StepView>,
    groups: Seq<Range<usize>>,
    k: int,
    i: int,
)
    requires
        diff::is_grouping(steps, groups),
        0 <= k < groups.len(),
        groups[k].start <= i < groups[k].end,
    ensures
        diff::boundary(steps, i) <==> i + 1 == groups[k].end && k + 1 < groups.len(),
{
    let g = groups[k];
    assert(diff::ends_run(steps, g.end - 1));
    assert(steps[i].kind == steps[g.start as int].kind);
    if i + 1 < g.end {
        assert(steps[i + 1].kind == steps[g.start as int].kind);
    } else if k + 1 < groups.len() {
        assert(groups[k].end == groups[k + 1].start);
        assert(groups[k + 1].start < groups[k + 1].end <= steps.len());
    } else {
        assert(groups.last() == groups[k]);
    }
}

/// What a grid says besides its steps follows from them: the widths are those of
/// the columns, a step ends its group where it is the last or the next one is of
/// another kind, and each step lies in a group, which holds steps of its kind
/// only.
pub proof fn law_derived_fields_follow_the_steps(grid: DiffGrid, i: int) -> (k: int)
    requires
        grid.wf(),
        0 <= i < grid.steps@.len(),
    ensures
        grid.widths@.len() == grid.steps@.len(),
        grid.is_group_end@.len() == grid.steps@.len(),
        grid.widths@[i] == width::column_width(grid.steps@[i].content@),
        grid.is_group_end@[i] <==> i + 1 == grid.steps@.len() || grid.steps@[i].kind
            != grid.steps@[i + 1].kind,
        0 <= k < grid.groups@.len(),
        grid.groups@[k].start <= i < grid.groups@[k].end <= grid.steps@.len(),
        forall|j: int|
            grid.groups@[k].start <= j < grid.groups@[k].end ==> (#[trigger] grid.steps@[j]).kind
                == grid.steps@[i].kind,
        grid.groups@[k].start > 0 ==> grid.steps@[grid.groups@[k].start - 1].kind
            != grid.steps@[i].kind,
        grid.groups@[k].end < grid.steps@.len() ==> grid.steps@[grid.groups@[k].end as int].kind
            != grid.steps@[i].kind,
{
    let steps = grid.view_steps();
    let groups = grid.groups@;
    assert(steps[i] == grid.steps@[i]@);
    if i + 1 < steps.len() {
        assert(steps[i + 1] == grid.steps@[i + 1]@);
    }
    assert(grid.widths@[i] == width::column_width(steps[i].content));
    assert(grid.is_group_end@[i] == diff::ends_run(steps, i));
    let k = lemma_group_of(steps, groups, groups.len() - 1, i);
    let first = groups[k].start as int;
    assert(steps[i].kind == steps[first].kind);
    assert forall|j: int| groups[k].start <= j < groups[k].end implies (
    #[trigger] grid.steps@[j]).kind == grid.steps@[i].kind by {
        assert(steps[j] == grid.steps@[j]@);
        assert(steps[j].kind == steps[groups[k].start as int].kind);
    }
    if first > 0 {
        assert(k > 0);
        assert(groups[k - 1].end == groups[k].start);
        assert(diff::ends_run(steps, groups[k - 1].end - 1));
        assert(steps[first - 1] == grid.steps@[first - 1]@);
    }
    if groups[k].end < steps.len() {
        let e = groups[k].end as int;
        assert(diff::ends_run(steps, groups[k].end - 1));
        assert(steps[e] == grid.steps@[e]@);
        assert(steps[e - 1].kind == steps[first].kind);
    }
    k
}

/// The group among the first `n + 1` that step `i` lies in.
proof fn lemma_group_of(
    steps: Seq<StepView>,
    groups: Seq<Range<usize>>,
    n: int,
    i: int,
) -> (k: int)
    requires
        diff::is_grouping(steps, groups),
        0 <= n < groups.len(),
        0 <= i < groups[n].end,
    ensures
        0 <= k <= n,
        groups[k].start <= i < groups[k].end,
    decreases n,
{
    if groups[n].start <= i {
        n
    } else {
        assert(n > 0);
        assert(groups[n - 1].end == groups[n].start);
        lemma_group_of(steps, groups, n - 1, i)
    }
}

/// Once tabs are expanded, there is none left.
pub proof fn law_no_tab_is_left(s: Seq<char>)
    ensures
        text_laws::free_of(columns::expanded(s), '\t'),
    decreases s.len(),
{
    if s.len() > 0 {
        law_no_tab_is_left(s.drop_last());
    }
}

proof fn lemma_spaces_advance(s: Seq<char>, n: nat)
    ensures
        columns::column_after(s + text::spaces(n)) == columns::column_after(s) + n,
    decreases n,
{
    let t = s + text::spaces(n);
    if n == 0 {
        assert(t =~= s);
    } else {
        lemma_spaces_advance(s, (n - 1) as nat);
        assert(t.drop_last() =~= s + text::spaces((n - 1) as nat));
        assert(t.last() == ' ');
        assert(width::char_width(' ') == Some(1usize));
    }
}

/// Expanding tabs moves nothing: the cursor stands in the same column after the
/// expanded text as a terminal's does after the text itself.
pub proof fn law_expansion_keeps_columns(s: Seq<char>)
    ensures
        columns::column_after(columns::expanded(s)) == columns::column_after(s),
    decreases s.len(),
{
    if s.len() > 0 {
        let p = s.drop_last();
        law_expansion_keeps_columns(p);
        if s.last() == '\t' {
            lemma_spaces_advance(columns::expanded(p), columns::tab_fill(p));
        } else {
            let e = columns::expanded(s);
            assert(e.drop_last() =~= columns::expanded(p));
            assert(e.last() == s.last());
        }
    }
}

/// A tab leads to the next tab stop.
pub proof fn law_tab_leads_to_a_stop(s: Seq<char>)
    ensures
        columns::column_after(columns::expanded(s.push('\t'))) % columns::TAB_STOP as nat == 0,
        columns::column_after(s) < columns::column_after(columns::expanded(s.push('\t')))
            <= columns::column_after(s) + columns::TAB_STOP,
{
    law_expansion_keeps_columns(s.push('\t'));
    assert(s.push('\t').drop_last() =~= s);
}

/// `s` with a carriage return before each line feed.
pub open spec fn with_crlf(s: Seq<char>) -> Seq<char>
    decreases s.len(),
{
    if s.len() == 0 {
        Seq::empty()
    } else if s.last() == '\n' {
        with_crlf(s.drop_last()).push('\r').push('\n')
    } else {
        with_crlf(s.drop_last()).push(s.last())
    }
}

proof fn lemma_crlf_column(s: Seq<char>)
    ensures
        columns::column_after(with_crlf(s)) == columns::column_after(s),
        with_crlf(s).len() == 0 <==> s.len() == 0,
        columns::ends_line(with_crlf(s)) == columns::ends_line(s),
    decreases s.len(),
{
    if s.len() > 0 {
        lemma_crlf_column(s.drop_last());
        if s.last() != '\n' {
            assert(with_crlf(s).drop_last() =~= with_crlf(s.drop_last()));
        }
    }
}

proof fn lemma_crlf_concat(x: Seq<char>, y: Seq<char>)
    requires
        text_laws::free_of(y, '\n'),
    ensures
        with_crlf(x + y) == with_crlf(x) + y,
    decreases y.len(),
{
    if y.len() == 0 {
        assert(x + y =~= x);
        assert(with_crlf(x) + y =~= with_crlf(x));
    } else {
        lemma_crlf_concat(x, y.drop_last());
        assert((x + y).drop_last() =~= x + y.drop_last());
        assert(y[y.len() - 1] != '\n');
        assert(with_crlf(x + y) =~= with_crlf(x) + y);
    }
}

proof fn lemma_crlf_expanded(s: Seq<char>)
    ensures
        columns::expanded(with_crlf(s)) == with_crlf(columns::expanded(s)),
    decreases s.len(),
{
    if s.len() > 0 {
        let p = s.drop_last();
        let w = with_crlf(p);
        lemma_crlf_expanded(p);
        lemma_crlf_column(p);
        if s.last() == '\t' {
            let fill = text::spaces(columns::tab_fill(p));
            assert(with_crlf(s).drop_last() =~= w);
            lemma_crlf_concat(columns::expanded(p), fill);
        } else if s.last() == '\n' {
            assert(with_crlf(s).drop_last() =~= w.push('\r'));
            assert(w.push('\r').drop_last() =~= w);
            assert(columns::expanded(w.push('\r')) == columns::expanded(w).push('\r'));
            assert(columns::expanded(s).drop_last() =~= columns::expanded(p));
        } else {
            assert(with_crlf(s).drop_last() =~= w);
            assert(columns::expanded(s).drop_last() =~= columns::expanded(p));
        }
    }
}

proof fn lemma_crlf_split(t: Seq<char>)
    ensures
        text::split_on(with_crlf(t), '\n').len() == text::split_on(t, '\n').len(),
        text::split_on(t, '\n').len() >= 1,
        forall|i: int|
            0 <= i < text::split_on(t, '\n').len() - 1 ==> #[trigger] text::split_on(
                with_crlf(t),
                '\n',
            )[i] == text::split_on(t, '\n')[i].push('\r'),
        text::split_on(with_crlf(t), '\n').last() == text::split_on(t, '\n').last(),
    decreases t.len(),
{
    if t.len() > 0 {
        let p = t.drop_last();
        let w = with_crlf(p);
        lemma_crlf_split(p);
        if t.last() == '\n' {
            let r = w.push('\r');
            assert(with_crlf(t).drop_last() =~= r);
            assert(r.drop_last() =~= w);
            let head = text::split_on(w, '\n');
            assert(text::split_on(r, '\n') == head.drop_last().push(head.last().push('\r')));
        } else {
            assert(with_crlf(t).drop_last() =~= w);
        }
    }
}

proof fn lemma_trim_return(x: Seq<char>)
    ensures
        text::trim_end(x.push('\r'), CharSet::One('\r')) == text::trim_end(
            x,
            CharSet::One('\r'),
        ),
{
    assert(x.push('\r').drop_last() =~= x);
}

proof fn lemma_crlf_lines(s: Seq<char>)
    ensures
        columns::file_lines(with_crlf(s)) == columns::file_lines(s),
{
    let t = columns::expanded(s);
    let w = with_crlf(t);
    lemma_crlf_expanded(s);
    lemma_crlf_column(t);
    if t.len() > 0 {
        let x = columns::lines_of(t);
        let y = columns::lines_of(w);
        if columns::ends_line(t) {
            let p = t.drop_last();
            let wp = with_crlf(p);
            lemma_crlf_split(p);
            assert(columns::body_of(w) =~= wp.push('\r'));
            assert(wp.push('\r').drop_last() =~= wp);
            let head = text::split_on(wp, '\n');
            assert(y == head.drop_last().push(head.last().push('\r')));
        } else {
            lemma_crlf_split(t);
        }
        assert forall|i: int| 0 <= i < x.len() implies text::trim_end(
            #[trigger] y[i],
            CharSet::One('\r'),
        ) == text::trim_end(x[i], CharSet::One('\r')) by {
            lemma_trim_return(x[i]);
        }
        assert(y.len() == x.len());
    }
    assert(columns::file_lines(with_crlf(s)) =~= columns::file_lines(s));
}

/// Carriage returns at the ends of lines change nothing, on either side: the
/// grid has the same steps, is as high, and is too wide for a table where it
/// was.
pub proof fn law_crlf_does_not_matter(a: Seq<char>, b: Seq<char>)
    ensures
        diff::grid_steps(with_crlf(a), b) == diff::grid_steps(a, b),
        diff::grid_steps(a, with_crlf(b)) == diff::grid_steps(a, b),
        diff::grid_height(with_crlf(a), b) == diff::grid_height(a, b),
        diff::grid_height(a, with_crlf(b)) == diff::grid_height(a, b),
        lcs::too_wide(
            diff::grid_columns(with_crlf(a), b),
            diff::grid_columns(b, with_crlf(a)),
        ) == lcs::too_wide(diff::grid_columns(a, b), diff::grid_columns(b, a)),
        lcs::too_wide(
            diff::grid_columns(a, with_crlf(b)),
            diff::grid_columns(with_crlf(b), a),
        ) == lcs::too_wide(diff::grid_columns(a, b), diff::grid_columns(b, a)),
{
    lemma_crlf_lines(a);
    lemma_crlf_lines(b);
    lemma_crlf_column(a);
    lemma_crlf_column(b);
}

} // verus!
