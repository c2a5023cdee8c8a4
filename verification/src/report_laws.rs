//! What is printed, told character by character.

use crate::changes::ChangedFileView;
use crate::columns;
use crate::content;
use crate::content::{DiskTexts, FetchErrorView, Texts};
use crate::diff;
use crate::diff::{StepKind, StepView};
use crate::git;
use crate::git::{GitShell, RunErrorView};
use crate::grid_laws;
use crate::lcs_laws;
use crate::render;
use crate::report;
use crate::revs::RevSpecView;
use crate::text;
use crate::text::CharSet;
use crate::text_laws;
use crate::view_laws;
use crate::width;
use vstd::prelude::*;

verus! {

/// The lines, each with a line feed behind it.
pub open spec fn as_lines(lines: Seq<Seq<char>>) -> Seq<char> {
    lines.map_values(|l: Seq<char>| l.push('\n')).flatten()
}

/// How many line feeds `s` holds.
pub open spec fn breaks_in(s: Seq<char>) -> nat
    decreases s.len(),
{
    if s.len() == 0 {
        0
    } else {
        breaks_in(s.drop_last()) + if s.last() == '\n' {
            1nat
        } else {
            0
        }
    }
}

/// How many lines a text has: one for each line feed, and one more where
/// something follows the last of them.
pub open spec fn line_count(s: Seq<char>) -> nat {
    breaks_in(s) + if s.len() > 0 && s.last() != '\n' {
        1nat
    } else {
        0
    }
}

/// Whether some character of `s` is no line break.
pub open spec fn has_text(s: Seq<char>) -> bool {
    exists|i: int| 0 <= i < s.len() && #[trigger] s[i] != '\n' && s[i] != '\r'
}

/// Whether some step is no match.
pub open spec fn some_change(steps: Seq<StepView>) -> bool {
    exists|i: int| 0 <= i < steps.len() && (#[trigger] steps[i]).kind != StepKind::Match
}

/// Whether the next step is of another kind.
pub open spec fn kind_changes(steps: Seq<StepView>, i: int) -> bool {
    0 <= i && i + 1 < steps.len() && steps[i].kind != steps[i + 1].kind
}

/// How many spaces stand behind `c` in a column of `room` cells: as many as it
/// lacks to the column's width. A control character lacks one cell less than
/// there are, a character without width lacks nothing.
pub open spec fn gap(c: char, room: nat) -> int {
    match width::char_width(c) {
        None => if room == 0 {
            0
        } else {
            room - 1
        },
        Some(w) => if w == 0 || w >= room {
            0
        } else {
            room - w
        },
    }
}

/// Whether `line` shows `chars` and nothing else but what stands between them:
/// character `i` at place `at[i]`, behind it the spaces that it lacks to
/// `rooms[i]` cells, and then a `|` where the next step is of another kind.
pub open spec fn laid_out(
    line: Seq<char>,
    chars: Seq<char>,
    steps: Seq<StepView>,
    rooms: Seq<nat>,
    at: Seq<int>,
) -> bool {
    &&& at.len() == chars.len() + 1
    &&& at[0] == 0
    &&& at[chars.len() as int] == line.len()
    &&& forall|i: int|
        0 <= i < chars.len() ==> {
            &&& 0 <= #[trigger] at[i] < at[i + 1] <= line.len()
            &&& line[at[i]] == chars[i]
            &&& at[i + 1] - at[i] == 1 + gap(chars[i], rooms[i]) + if kind_changes(steps, i) {
                1int
            } else {
                0
            }
            &&& forall|j: int|
                at[i] < j < at[i + 1] ==> #[trigger] line[j] == if kind_changes(steps, i) && j
                    == at[i + 1] - 1 {
                    '|'
                } else {
                    ' '
                }
        }
}

/// The widths as numbers.
pub open spec fn rooms_in(widths: Seq<usize>) -> Seq<nat> {
    Seq::new(widths.len(), |i: int| widths[i] as nat)
}

/// One cell more is laid out behind what is laid out already.
pub proof fn lemma_one_cell_more(
    head: Seq<char>,
    chars: Seq<char>,
    steps: Seq<StepView>,
    rooms: Seq<nat>,
    before: Seq<int>,
    c: char,
)
    requires
        laid_out(head, chars, steps, rooms, before),
    ensures
        ({
            let n = chars.len() as int;
            let line = head + render::cell_text(c, rooms[n], kind_changes(steps, n));
            laid_out(line, chars.push(c), steps, rooms, before.push(line.len() as int))
        }),
{
    let n = chars.len() as int;
    let cell = render::cell_text(c, rooms[n], kind_changes(steps, n));
    let line = head + cell;
    let at = before.push(line.len() as int);
    let all = chars.push(c);
    assert(cell.len() == 1 + gap(c, rooms[n]) + if kind_changes(steps, n) {
        1int
    } else {
        0
    });
    assert forall|x: int| 0 <= x < all.len() implies {
        &&& 0 <= #[trigger] at[x] < at[x + 1] <= line.len()
        &&& line[at[x]] == all[x]
        &&& at[x + 1] - at[x] == 1 + gap(all[x], rooms[x]) + if kind_changes(steps, x) {
            1int
        } else {
            0
        }
        &&& forall|j: int|
            at[x] < j < at[x + 1] ==> #[trigger] line[j] == if kind_changes(steps, x) && j == at[x
                + 1] - 1 {
                '|'
            } else {
                ' '
            }
    } by {
        if x < n {
            assert(at[x] == before[x] && at[x + 1] == before[x + 1]);
            assert(line[at[x]] == head[at[x]]);
            assert forall|j: int| at[x] < j < at[x + 1] implies #[trigger] line[j]
                == if kind_changes(steps, x) && j == at[x + 1] - 1 {
                '|'
            } else {
                ' '
            } by {
                assert(line[j] == head[j]);
            }
        } else {
            assert(at[x] == head.len());
            assert(line[at[x]] == cell[0]);
            assert forall|j: int| at[x] < j < at[x + 1] implies #[trigger] line[j]
                == if kind_changes(steps, x) && j == at[x + 1] - 1 {
                '|'
            } else {
                ' '
            } by {
                assert(line[j] == cell[j - head.len()]);
            }
        }
    }
}

proof fn lemma_cells_laid_out(steps: Seq<StepView>, row: Seq<char>, widths: Seq<usize>, k: int) -> (
at: Seq<int>)
    requires
        row.len() == steps.len(),
        widths.len() == steps.len(),
        0 <= k <= row.len(),
    ensures
        laid_out(
            render::cells_to(row, render::boundaries_of(steps), widths, k),
            row.take(k),
            steps,
            rooms_in(widths),
            at,
        ),
    decreases k,
{
    let bs = render::boundaries_of(steps);
    if k == 0 {
        seq![0int]
    } else {
        let i = k - 1;
        let before = lemma_cells_laid_out(steps, row, widths, i);
        let head = render::cells_to(row, bs, widths, i);
        lemma_one_cell_more(head, row.take(i), steps, rooms_in(widths), before, row[i]);
        assert(row.take(i).push(row[i]) =~= row.take(k));
        assert(kind_changes(steps, i) == (k < row.len() && render::flag_at(bs, i)));
        before.push(render::cells_to(row, bs, widths, k).len() as int)
    }
}

proof fn lemma_breaks_of_spaces(s: Seq<char>, n: nat)
    ensures
        breaks_in(s + text::spaces(n)) == breaks_in(s),
    decreases n,
{
    let t = s + text::spaces(n);
    if n == 0 {
        assert(t =~= s);
    } else {
        lemma_breaks_of_spaces(s, (n - 1) as nat);
        assert(t.drop_last() =~= s + text::spaces((n - 1) as nat));
        assert(t.last() == ' ');
    }
}

proof fn lemma_breaks_of_expanded(s: Seq<char>)
    ensures
        breaks_in(columns::expanded(s)) == breaks_in(s),
        columns::expanded(s).len() == 0 <==> s.len() == 0,
        s.len() > 0 ==> (columns::expanded(s).last() == '\n' <==> s.last() == '\n'),
        has_text(s) <==> has_text(columns::expanded(s)),
    decreases s.len(),
{
    if s.len() > 0 {
        let p = s.drop_last();
        let e = columns::expanded(p);
        let t = columns::expanded(s);
        lemma_breaks_of_expanded(p);
        if s.last() == '\t' {
            lemma_breaks_of_spaces(e, columns::tab_fill(p));
            assert(t[e.len() as int] == ' ');
            assert(t.last() == ' ');
        } else {
            assert(t.drop_last() =~= e);
            assert(t[e.len() as int] == s.last());
            if has_text(s) && !(s.last() != '\n' && s.last() != '\r') {
                let i = choose|i: int|
                    0 <= i < s.len() && #[trigger] s[i] != '\n' && s[i] != '\r';
                assert(p[i] == s[i]);
                assert(has_text(p));
                let j = choose|j: int|
                    0 <= j < e.len() && #[trigger] e[j] != '\n' && e[j] != '\r';
                assert(t[j] == e[j]);
            }
        }
        if has_text(t) && (s.last() == '\n' || s.last() == '\r') {
            let j = choose|j: int| 0 <= j < t.len() && #[trigger] t[j] != '\n' && t[j] != '\r';
            assert(e[j] == t[j]);
            assert(has_text(p));
            let i = choose|i: int| 0 <= i < p.len() && #[trigger] p[i] != '\n' && p[i] != '\r';
            assert(s[i] == p[i]);
        } else if s.last() != '\n' && s.last() != '\r' {
            assert(s[s.len() - 1] == s.last());
        }
    }
}

proof fn lemma_pieces_and_breaks(t: Seq<char>)
    ensures
        text::split_on(t, '\n').len() == breaks_in(t) + 1,
    decreases t.len(),
{
    if t.len() > 0 {
        lemma_pieces_and_breaks(t.drop_last());
    }
}

/// A text is compared line by line: it has as many lines as it has line feeds,
/// and one more where something follows the last of them.
pub proof fn law_lines_are_counted_by_breaks(s: Seq<char>)
    ensures
        columns::file_lines(s).len() == line_count(s),
{
    let t = columns::expanded(s);
    lemma_breaks_of_expanded(s);
    if t.len() > 0 {
        lemma_pieces_and_breaks(columns::body_of(t));
    }
}

/// Each character of a text but its line feeds stands in some piece.
proof fn lemma_some_piece_holds(t: Seq<char>, i: int) -> (r: (int, int))
    requires
        0 <= i < t.len(),
        t[i] != '\n',
    ensures
        0 <= r.0 < text::split_on(t, '\n').len(),
        0 <= r.1 < text::split_on(t, '\n')[r.0].len(),
        text::split_on(t, '\n')[r.0][r.1] == t[i],
    decreases t.len(),
{
    let rest = t.drop_last();
    let head = text::split_on(rest, '\n');
    columns::lemma_split_some(rest, '\n');
    let n = head.len() - 1;
    if i == t.len() - 1 {
        (n, head[n].len() as int)
    } else {
        assert(rest[i] == t[i]);
        lemma_some_piece_holds(rest, i)
    }
}

proof fn lemma_text_makes_columns(s: Seq<char>)
    requires
        has_text(s),
    ensures
        text::max_len(columns::file_lines(s)) > 0,
{
    lemma_breaks_of_expanded(s);
    let t = columns::expanded(s);
    let body = columns::body_of(t);
    let i = choose|i: int| 0 <= i < t.len() && #[trigger] t[i] != '\n' && t[i] != '\r';
    assert(body[i] == t[i]);
    let (p, k) = lemma_some_piece_holds(body, i);
    let piece = columns::lines_of(t)[p];
    text_laws::law_trim_end_cuts_the_suffix(piece, CharSet::One('\r'));
    assert(!CharSet::One('\r').holds(piece[k]));
    assert(columns::file_lines(s)[p] == text::trim_end(piece, CharSet::One('\r')));
    grid_laws::lemma_longest(columns::file_lines(s), p);
}

/// What a step holds stands on the side that it does not skip.
proof fn lemma_side_holds(steps: Seq<StepView>, skipped: StepKind, i: int)
    requires
        0 <= i < steps.len(),
        steps[i].kind != skipped,
    ensures
        lcs_laws::side(steps, skipped).contains(steps[i].content),
    decreases steps.len(),
{
    let rest = lcs_laws::side(steps.drop_last(), skipped);
    let all = lcs_laws::side(steps, skipped);
    if i == steps.len() - 1 {
        assert(all[all.len() - 1] == steps[i].content);
    } else {
        assert(steps.drop_last()[i] == steps[i]);
        lemma_side_holds(steps.drop_last(), skipped, i);
        let k = choose|k: int| 0 <= k < rest.len() && rest[k] == steps[i].content;
        assert(all[k] == rest[k]);
    }
}

proof fn lemma_file_lines_hold_no_break(s: Seq<char>, r: int)
    requires
        0 <= r < columns::file_lines(s).len(),
    ensures
        text_laws::free_of(columns::file_lines(s)[r], '\n'),
{
    let t = columns::expanded(s);
    let piece = columns::lines_of(t)[r];
    if t.len() > 0 {
        text_laws::law_pieces_hold_no_separator(columns::body_of(t), '\n', r);
        text_laws::law_trim_end_cuts_the_suffix(piece, CharSet::One('\r'));
        let line = columns::file_lines(s)[r];
        assert(line == text::trim_end(piece, CharSet::One('\r')));
        assert forall|i: int| 0 <= i < line.len() implies #[trigger] line[i] != '\n' by {
            assert(line[i] == piece[i]);
        }
    }
}

proof fn lemma_columns_hold_no_break(a: Seq<char>, b: Seq<char>, k: int)
    requires
        0 <= k < diff::grid_columns(a, b).len(),
    ensures
        diff::grid_columns(a, b)[k].len() == diff::grid_height(a, b),
        text_laws::free_of(diff::grid_columns(a, b)[k], '\n'),
{
    let lines = columns::file_lines(a);
    let col = diff::grid_columns(a, b)[k];
    assert forall|r: int| 0 <= r < col.len() implies #[trigger] col[r] != '\n' by {
        if r < lines.len() {
            lemma_file_lines_hold_no_break(a, r);
        }
    }
}

/// The columns of a grid are as high as the grid, and hold no line feed.
proof fn lemma_step_contents(a: Seq<char>, b: Seq<char>, i: int)
    requires
        0 <= i < diff::grid_steps(a, b).len(),
    ensures
        diff::grid_steps(a, b)[i].content.len() == diff::grid_height(a, b),
        text_laws::free_of(diff::grid_steps(a, b)[i].content, '\n'),
{
    let steps = diff::grid_steps(a, b);
    let mark = diff::newline_mark(a, b);
    grid_laws::law_grid_keeps_both_files(a, b);
    if steps[i].kind != StepKind::Insert {
        lemma_side_holds(steps, StepKind::Insert, i);
        let side = lcs_laws::old_side(steps);
        let k = choose|k: int| 0 <= k < side.len() && side[k] == steps[i].content;
        if k < diff::grid_columns(a, b).len() {
            lemma_columns_hold_no_break(a, b, k);
        }
    } else {
        lemma_side_holds(steps, StepKind::Delete, i);
        let side = lcs_laws::new_side(steps);
        let k = choose|k: int| 0 <= k < side.len() && side[k] == steps[i].content;
        if k < diff::grid_columns(b, a).len() {
            lemma_columns_hold_no_break(b, a, k);
        }
    }
}

/// A grid with some step has some line.
proof fn lemma_steps_need_lines(a: Seq<char>, b: Seq<char>)
    ensures
        diff::grid_steps(a, b).len() > 0 ==> diff::grid_height(a, b) > 0,
        has_text(a) || has_text(b) ==> diff::grid_steps(a, b).len() > 0,
{
    let steps = diff::grid_steps(a, b);
    grid_laws::law_grid_keeps_both_files(a, b);
    if has_text(a) {
        lemma_text_makes_columns(a);
        assert(lcs_laws::old_side(steps).len() > 0);
    }
    if has_text(b) {
        lemma_text_makes_columns(b);
        assert(lcs_laws::new_side(steps).len() > 0);
    }
    if steps.len() > 0 && diff::grid_height(a, b) == 0 {
        assert(columns::file_lines(a) =~= Seq::<Seq<char>>::empty());
        assert(columns::file_lines(b) =~= Seq::<Seq<char>>::empty());
        if a.len() > 0 {
            columns::lemma_some_line(a);
        }
        if steps[0].kind != StepKind::Insert {
            lemma_side_holds(steps, StepKind::Insert, 0);
        } else {
            lemma_side_holds(steps, StepKind::Delete, 0);
        }
    }
}

proof fn lemma_joined_lines(rows: Seq<Seq<char>>)
    requires
        rows.len() > 0,
    ensures
        text::join_with(rows, seq!['\n']).push('\n') == as_lines(rows),
    decreases rows.len(),
{
    let f = |l: Seq<char>| l.push('\n');
    let rest = rows.drop_last();
    assert(rows.map_values(f) =~= rest.map_values(f).push(rows.last().push('\n')));
    rest.map_values(f).lemma_flatten_push(rows.last().push('\n'));
    let joined = text::join_with(rows, seq!['\n']);
    if rows.len() == 1 {
        assert(rest.map_values(f) =~= Seq::<Seq<char>>::empty());
        assert(joined.push('\n') =~= as_lines(rows));
    } else {
        lemma_joined_lines(rest);
        assert(joined.push('\n') =~= text::join_with(rest, seq!['\n']).push('\n')
            + rows.last().push('\n'));
    }
}

proof fn lemma_one_line_more(line: Seq<char>, rows: Seq<Seq<char>>)
    ensures
        as_lines(seq![line] + rows) == line.push('\n') + as_lines(rows),
{
    let f = |l: Seq<char>| l.push('\n');
    let all = (seq![line] + rows).map_values(f);
    assert(all.first() == line.push('\n'));
    assert(all.drop_first() =~= rows.map_values(f));
}

/// Whether `line` shows `chars`, laid out by the kinds of `steps` and in columns
/// of `rooms` cells.
pub open spec fn shows_chars(
    line: Seq<char>,
    chars: Seq<char>,
    steps: Seq<StepView>,
    rooms: Seq<nat>,
) -> bool {
    exists|at: Seq<int>| #[trigger] laid_out(line, chars, steps, rooms, at)
}

/// The widths of the columns of `steps`.
pub open spec fn rooms_of(steps: Seq<StepView>) -> Seq<nat> {
    Seq::new(steps.len(), |i: int| width::column_width(steps[i].content))
}

/// The marks of the first `n` steps: a space for a match, `-` for a delete and
/// `+` for an insert.
pub open spec fn marks_of(steps: Seq<StepView>, n: int) -> Seq<char> {
    Seq::new(
        n as nat,
        |i: int|
            match steps[i].kind {
                StepKind::Match => ' ',
                StepKind::Delete => '-',
                StepKind::Insert => '+',
            },
    )
}

/// What the steps hold in line `r`.
pub open spec fn line_of(steps: Seq<StepView>, r: int) -> Seq<char> {
    Seq::new(steps.len(), |i: int| steps[i].content[r])
}

/// Whether step `n - 1` is the last change.
pub open spec fn last_change_before(steps: Seq<StepView>, n: int) -> bool {
    &&& 0 < n <= steps.len()
    &&& steps[n - 1].kind != StepKind::Match
    &&& forall|i: int| n <= i < steps.len() ==> (#[trigger] steps[i]).kind == StepKind::Match
}

/// Whether `line` shows the marks up to the last change.
pub open spec fn shows_marks(line: Seq<char>, steps: Seq<StepView>, rooms: Seq<nat>) -> bool {
    exists|n: int| #[trigger]
        last_change_before(steps, n) && shows_chars(line, marks_of(steps, n), steps, rooms)
}

proof fn lemma_shown_is_clean(
    line: Seq<char>,
    chars: Seq<char>,
    steps: Seq<StepView>,
    rooms: Seq<nat>,
)
    requires
        shows_chars(line, chars, steps, rooms),
        chars.len() > 0,
    ensures
        text_laws::free_of(chars, '\n') ==> text_laws::free_of(line, '\n'),
        line.len() > 0,
{
    let at = choose|at: Seq<int>| #[trigger] laid_out(line, chars, steps, rooms, at);
    assert(at[0] < at[1]);
    if text_laws::free_of(chars, '\n') {
        assert forall|j: int| 0 <= j < line.len() implies #[trigger] line[j] != '\n' by {
            let i = lemma_place_of(at, chars.len() as int, j);
            if at[i] < j {
                assert(line[j] == '|' || line[j] == ' ');
            } else {
                assert(line[at[i]] == chars[i]);
            }
        }
    }
}

/// The last of growing places that is not past `j`.
proof fn lemma_place_of(at: Seq<int>, n: int, j: int) -> (i: int)
    requires
        1 <= n < at.len(),
        at[0] <= j < at[n],
    ensures
        0 <= i < n,
        at[i] <= j < at[i + 1],
    decreases n,
{
    if at[n - 1] <= j {
        n - 1
    } else {
        lemma_place_of(at, n - 1, j)
    }
}

/// The file lines of the text view, and what each of them shows.
proof fn lemma_body_lines(steps: Seq<StepView>, height: nat, widths: Seq<usize>, r: int)
    requires
        steps.len() > 0,
        widths.len() == steps.len(),
        diff::all_tall(steps, height),
        0 <= r < height,
    ensures
        render::body_rows(
            render::view_rows(steps, height),
            render::boundaries_of(steps),
            widths,
        ).len() == height,
        shows_chars(
            render::body_rows(
                render::view_rows(steps, height),
                render::boundaries_of(steps),
                widths,
            )[r],
            line_of(steps, r),
            steps,
            rooms_in(widths),
        ),
{
    view_laws::law_rows_are_lines(steps, height);
    let rows = render::view_rows(steps, height);
    let row = rows[r + 1];
    let n = steps.len() as int;
    assert forall|i: int| 0 <= i < n implies row[i] == line_of(steps, r)[i] by {
        assert(render::view_rows(steps, height)[r + 1][i] == steps[i].content[r]);
    }
    assert(row =~= line_of(steps, r));
    let at = lemma_cells_laid_out(steps, row, widths, n);
    assert(row.take(n) =~= row);
    assert(rows.skip(1)[r] == row);
}

/// The marker row, and what it shows.
proof fn lemma_marker_line(steps: Seq<StepView>, height: nat, widths: Seq<usize>)
    requires
        steps.len() > 0,
        widths.len() == steps.len(),
        diff::all_tall(steps, height),
    ensures
        ({
            let line = render::marker_row(
                render::view_rows(steps, height)[0],
                render::boundaries_of(steps),
                widths,
            );
            &&& some_change(steps) ==> shows_marks(line, steps, rooms_in(widths)) && line.len() > 0
                && text_laws::free_of(line, '\n')
            &&& !some_change(steps) ==> line.len() == 0
        }),
{
    view_laws::law_rows_are_lines(steps, height);
    let row = render::view_rows(steps, height)[0];
    let line = render::marker_row(row, render::boundaries_of(steps), widths);
    let marks = text::trim_end(row, CharSet::One(' '));
    let n = marks.len() as int;
    assert(row =~= marks_of(steps, steps.len() as int)) by {
        assert forall|i: int| 0 <= i < row.len() implies row[i] == marks_of(
            steps,
            steps.len() as int,
        )[i] by {
            assert(render::view_rows(steps, height)[0][i] == render::mark_of(steps[i].kind));
        }
    }
    text_laws::law_trim_end_cuts_the_suffix(row, CharSet::One(' '));
    if some_change(steps) {
        view_laws::law_marker_row_is_a_prefix(steps, height, widths);
        let c = choose|c: int|
            0 <= c < steps.len() && (#[trigger] steps[c]).kind != StepKind::Match;
        assert(row[c] != ' ');
        assert(c < n);
        assert(marks.last() == row[n - 1]);
        assert forall|i: int| n <= i < steps.len() implies (#[trigger] steps[i]).kind
            == StepKind::Match by {
            assert(CharSet::One(' ').holds(row[i]));
        }
        assert(last_change_before(steps, n));
        let at = lemma_cells_laid_out(steps, row, widths, n);
        assert(row.take(n) =~= marks_of(steps, n));
        assert(shows_chars(line, marks_of(steps, n), steps, rooms_in(widths)));
        lemma_shown_is_clean(line, marks_of(steps, n), steps, rooms_in(widths));
    } else {
        assert forall|i: int| 0 <= i < steps.len() implies (#[trigger] steps[i]).kind
            == StepKind::Match by {
            assert(!some_change(steps));
        }
        view_laws::law_no_change_no_marker(steps, height, widths);
    }
}

/// Whether `lines` are those of the text view: first, where some step is no
/// match, the marks up to the last change, and then for each of `height` lines
/// what the steps hold there.
pub open spec fn views(
    lines: Seq<Seq<char>>,
    steps: Seq<StepView>,
    height: nat,
    rooms: Seq<nat>,
) -> bool {
    &&& forall|i: int| 0 <= i < lines.len() ==> (#[trigger] lines[i]).len() > 0
    &&& if some_change(steps) {
        &&& lines.len() == height + 1
        &&& shows_marks(lines[0], steps, rooms)
        &&& forall|r: int|
            0 <= r < height ==> shows_chars(
                lines[r + 1],
                #[trigger] line_of(steps, r),
                steps,
                rooms,
            )
    } else {
        &&& lines.len() == height
        &&& forall|r: int|
            0 <= r < height ==> shows_chars(lines[r], #[trigger] line_of(steps, r), steps, rooms)
    }
}

/// The text view of steps is made of whole lines, none of them empty: the marks
/// up to the last change where there is one, and below them one line for each
/// line of the grid. Without a step there is nothing at all.
pub proof fn law_text_view_has_its_lines(
    steps: Seq<StepView>,
    height: nat,
    widths: Seq<usize>,
) -> (lines: Seq<Seq<char>>)
    requires
        widths.len() == steps.len(),
        diff::all_tall(steps, height),
        height > 0,
    ensures
        render::text_view(steps, height, widths) == as_lines(lines),
        steps.len() == 0 ==> lines.len() == 0,
        steps.len() > 0 ==> views(lines, steps, height, rooms_in(widths)),
{
    let rooms = rooms_in(widths);
    if steps.len() == 0 {
        assert(render::step_lines(steps, height) =~= Seq::<Seq<char>>::empty());
        assert(render::view_rows(steps, height).len() == 0);
        assert(render::text_view(steps, height, widths) =~= as_lines(Seq::empty()));
        Seq::empty()
    } else {
        view_laws::law_rows_are_lines(steps, height);
        let rows = render::view_rows(steps, height);
        let bs = render::boundaries_of(steps);
        let body = render::body_rows(rows, bs, widths);
        let marker = render::marker_row(rows[0], bs, widths);
        lemma_marker_line(steps, height, widths);
        assert(body.len() == height);
        assert forall|r: int| 0 <= r < body.len() implies (#[trigger] body[r]).len() > 0
            && shows_chars(body[r], line_of(steps, r), steps, rooms) by {
            lemma_body_lines(steps, height, widths, r);
            lemma_shown_is_clean(body[r], line_of(steps, r), steps, rooms);
        }
        lemma_joined_lines(body);
        lemma_one_line_more(marker, body);
        let joined = text::join_with(body, seq!['\n']);
        assert(body[0].len() > 0);
        assert(joined.len() > 0) by {
            lemma_joined_is_longer(body);
        }
        let lines = if some_change(steps) {
            seq![marker] + body
        } else {
            body
        };
        let head = render::as_line(marker);
        assert(render::text_view(steps, height, widths) == (head + joined).push('\n'));
        if some_change(steps) {
            assert((head + joined).push('\n') =~= marker.push('\n') + joined.push('\n'));
            assert forall|i: int| 0 <= i < lines.len() implies (#[trigger] lines[i]).len()
                > 0 by {
                if i > 0 {
                    assert(lines[i] == body[i - 1]);
                }
            }
            assert forall|r: int| 0 <= r < height implies shows_chars(
                lines[r + 1],
                #[trigger] line_of(steps, r),
                steps,
                rooms,
            ) by {
                assert(lines[r + 1] == body[r]);
            }
        } else {
            assert((head + joined).push('\n') =~= joined.push('\n'));
            assert forall|r: int| 0 <= r < height implies shows_chars(
                lines[r],
                #[trigger] line_of(steps, r),
                steps,
                rooms,
            ) by {
                assert(lines[r] == body[r]);
            }
        }
        lines
    }
}

proof fn lemma_joined_is_longer(rows: Seq<Seq<char>>)
    requires
        rows.len() > 0,
        rows[0].len() > 0,
    ensures
        text::join_with(rows, seq!['\n']).len() > 0,
    decreases rows.len(),
{
    if rows.len() > 1 {
        lemma_joined_is_longer(rows.drop_last());
    }
}

proof fn lemma_views_are_clean(
    lines: Seq<Seq<char>>,
    steps: Seq<StepView>,
    height: nat,
    rooms: Seq<nat>,
    i: int,
)
    requires
        views(lines, steps, height, rooms),
        steps.len() > 0,
        diff::all_tall(steps, height),
        forall|k: int|
            0 <= k < steps.len() ==> text_laws::free_of((#[trigger] steps[k]).content, '\n'),
        0 <= i < lines.len(),
    ensures
        text_laws::free_of(lines[i], '\n'),
{
    if some_change(steps) && i == 0 {
        let n = choose|n: int| #[trigger]
            last_change_before(steps, n) && shows_chars(
                lines[0],
                marks_of(steps, n),
                steps,
                rooms,
            );
        lemma_shown_is_clean(lines[0], marks_of(steps, n), steps, rooms);
    } else {
        let r = if some_change(steps) {
            i - 1
        } else {
            i
        };
        assert forall|k: int| 0 <= k < steps.len() implies #[trigger] line_of(steps, r)[k]
            != '\n' by {
            assert(steps[k].content.len() == height);
            assert(steps[k].content[r] != '\n');
        }
        assert(shows_chars(lines[i], line_of(steps, r), steps, rooms));
        lemma_shown_is_clean(lines[i], line_of(steps, r), steps, rooms);
    }
}

/// Whether only one of two texts, both with something in them, ends with a line
/// feed.
pub open spec fn ends_differ(a: Seq<char>, b: Seq<char>) -> bool {
    a.len() > 0 && b.len() > 0 && (a.last() == '\n') != (b.last() == '\n')
}

/// The printed diff is the text view of the grid, and nothing without a step.
proof fn lemma_printed_is_the_text_view(a: Seq<char>, b: Seq<char>)
    ensures
        report::plain_diff(a, b) == render::text_view(
            diff::grid_steps(a, b),
            diff::grid_height(a, b),
            report::widths_of(diff::grid_steps(a, b)),
        ),
        diff::grid_steps(a, b).len() == 0 ==> report::plain_diff(a, b).len() == 0,
{
    let steps = diff::grid_steps(a, b);
    let height = diff::grid_height(a, b);
    if steps.len() == 0 {
        assert(render::step_lines(steps, height) =~= Seq::<Seq<char>>::empty());
        assert(render::view_rows(steps, height).len() == 0);
    }
}

/// The printed diff of two texts is made of whole lines, none of them empty and
/// none with a line feed inside. Something is printed exactly where either text
/// has a character that is no line break, or where only one of two texts ends
/// with a line feed. There is then a line for each line of the longer text, with
/// what the steps hold there, and where some step is no match one more before
/// them, with the marks up to the last change.
#[verifier::rlimit(40)]
pub proof fn law_printed_diff_has_its_lines(a: Seq<char>, b: Seq<char>) -> (lines: Seq<Seq<char>>)
    ensures
        report::plain_diff(a, b) == as_lines(lines),
        forall|i: int|
            0 <= i < lines.len() ==> (#[trigger] lines[i]).len() > 0 && text_laws::free_of(
                lines[i],
                '\n',
            ),
        lines.len() > 0 <==> has_text(a) || has_text(b) || ends_differ(a, b),
        lines.len() > 0 ==> views(
            lines,
            diff::grid_steps(a, b),
            if line_count(a) >= line_count(b) {
                line_count(a)
            } else {
                line_count(b)
            },
            rooms_of(diff::grid_steps(a, b)),
        ),
{
    let steps = diff::grid_steps(a, b);
    let height = diff::grid_height(a, b);
    let widths = report::widths_of(steps);
    lemma_when_there_are_steps(a, b);
    law_lines_are_counted_by_breaks(a);
    law_lines_are_counted_by_breaks(b);
    if steps.len() == 0 {
        lemma_printed_is_the_text_view(a, b);
        assert(as_lines(Seq::empty()) =~= Seq::<char>::empty());
        Seq::empty()
    } else {
        lemma_printed_is_the_text_view(a, b);
        assert forall|i: int| 0 <= i < steps.len() implies (#[trigger] steps[i]).content.len()
            == height by {
            lemma_step_contents(a, b, i);
        }
        assert forall|i: int| 0 <= i < steps.len() implies rooms_in(widths)[i] == rooms_of(
            steps,
        )[i] by {
            width::lemma_column_is_a_word(steps[i].content);
        }
        assert(rooms_in(widths) =~= rooms_of(steps));
        let rooms = rooms_of(steps);
        let lines = law_text_view_has_its_lines(steps, height, widths);
        assert forall|i: int| 0 <= i < lines.len() implies (#[trigger] lines[i]).len() > 0
            && text_laws::free_of(lines[i], '\n') by {
            assert forall|k: int| 0 <= k < steps.len() implies text_laws::free_of(
                (#[trigger] steps[k]).content,
                '\n',
            ) by {
                lemma_step_contents(a, b, k);
            }
            lemma_views_are_clean(lines, steps, height, rooms, i);
        }
        lines
    }
}

/// The raw view has one line per step: its mark, a space, and its column.
pub proof fn law_raw_view_has_a_line_per_step(steps: Seq<StepView>)
    ensures
        render::stacked_view(steps) == as_lines(
            Seq::new(
                steps.len(),
                |i: int| seq![marks_of(steps, steps.len() as int)[i], ' '] + steps[i].content,
            ),
        ),
    decreases steps.len(),
{
    let f = |l: Seq<char>| l.push('\n');
    let n = steps.len() as int;
    let lines = Seq::new(
        steps.len(),
        |i: int| seq![marks_of(steps, n)[i], ' '] + steps[i].content,
    );
    if n == 0 {
        assert(lines.map_values(f) =~= Seq::<Seq<char>>::empty());
    } else {
        let rest = steps.drop_last();
        law_raw_view_has_a_line_per_step(rest);
        let less = Seq::new(
            rest.len(),
            |i: int| seq![marks_of(rest, n - 1)[i], ' '] + rest[i].content,
        );
        assert(lines.map_values(f) =~= less.map_values(f).push(lines[n - 1].push('\n')));
        less.map_values(f).lemma_flatten_push(lines[n - 1].push('\n'));
        assert(render::stacked_view(steps) =~= render::stacked_view(rest) + lines[n - 1].push(
            '\n',
        ));
    }
}

/// What is printed for a changed file starts with a line that names it, and goes
/// on with the diff of its texts, or with one line that says why there is none.
pub proof fn law_section_names_its_file(
    file: ChangedFileView,
    a: Seq<char>,
    b: Seq<char>,
    e: RunErrorView,
)
    ensures
        ({
            let head = "=== "@ + file.new_path + " ===\n"@;
            let none: Texts = Ok(None);
            let binary: Texts = Err(FetchErrorView::Binary);
            let failed: Texts = Err(FetchErrorView::GitFailed(e));
            let both: Texts = Ok(Some((a, b)));
            &&& report::section_of(file, both) == head + report::plain_diff(a, b)
            &&& report::section_of(file, none) == head + "(binary or unreadable)\n"@
            &&& report::section_of(file, binary) == head + ("(error: "@ + "binary or unreadable"@
                + ")\n"@)
            &&& report::section_of(file, failed) == head + ("(error: "@ + ("git failed: "@
                + git::run_error_text(e)) + ")\n"@)
        }),
{
}

/// What is printed for a changed file is printed of the texts that loading it
/// gives.
pub proof fn law_section_is_of_the_loaded_texts<G: GitShell + ?Sized>(
    g: &G,
    spec: RevSpecView,
    file: ChangedFileView,
    disk: DiskTexts,
    r: Seq<char>,
)
    requires
        report::section_possible(g, spec, file, disk, r),
    ensures
        exists|t: Texts| #[trigger]
            content::load_possible(g, spec, file, disk, t) && r == report::section_of(file, t),
{
}

/// Each character of a piece is one of the text.
proof fn lemma_piece_is_of_text(t: Seq<char>, p: int, k: int) -> (i: int)
    requires
        0 <= p < text::split_on(t, '\n').len(),
        0 <= k < text::split_on(t, '\n')[p].len(),
    ensures
        0 <= i < t.len(),
        t[i] == text::split_on(t, '\n')[p][k],
        t[i] != '\n',
    decreases t.len(),
{
    let head = text::split_on(t.drop_last(), '\n');
    columns::lemma_split_some(t.drop_last(), '\n');
    if t.last() != '\n' && p == head.len() - 1 && k == head[p].len() {
        t.len() - 1
    } else {
        let i = lemma_piece_is_of_text(t.drop_last(), p, k);
        assert(t.drop_last()[i] == t[i]);
        i
    }
}

proof fn lemma_columns_need_text(s: Seq<char>)
    ensures
        text::max_len(columns::file_lines(s)) > 0 ==> has_text(s),
{
    let lines = columns::file_lines(s);
    if text::max_len(lines) > 0 {
        let r = text_laws::lemma_some_longest(lines);
        let t = columns::expanded(s);
        let piece = columns::lines_of(t)[r];
        let line = lines[r];
        text_laws::law_trim_end_cuts_the_suffix(piece, CharSet::One('\r'));
        assert(line == text::trim_end(piece, CharSet::One('\r')));
        let k = line.len() - 1;
        assert(piece[k] == line.last());
        assert(t.len() > 0);
        let body = columns::body_of(t);
        let i = lemma_piece_is_of_text(body, r, k);
        assert(t[i] == body[i]);
        assert(has_text(t));
        lemma_breaks_of_expanded(s);
    }
}

/// A grid has steps where there is some text or some difference at the ends.
proof fn lemma_when_there_are_steps(a: Seq<char>, b: Seq<char>)
    ensures
        diff::grid_steps(a, b).len() > 0 <==> has_text(a) || has_text(b) || ends_differ(a, b),
        diff::grid_steps(a, b).len() > 0 ==> diff::grid_height(a, b) > 0,
{
    let steps = diff::grid_steps(a, b);
    lemma_steps_need_lines(a, b);
    grid_laws::law_grid_keeps_both_files(a, b);
    if ends_differ(a, b) {
        grid_laws::law_missing_newline_is_reported(a, b);
    }
    if steps.len() > 0 && !ends_differ(a, b) {
        lemma_columns_need_text(a);
        lemma_columns_need_text(b);
        if steps[0].kind != StepKind::Insert {
            lemma_side_holds(steps, StepKind::Insert, 0);
        } else {
            lemma_side_holds(steps, StepKind::Delete, 0);
        }
    }
}

} // verus!
