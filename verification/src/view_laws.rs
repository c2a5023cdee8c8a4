//! What holds of every view of a grid.

use crate::app::App;
use crate::columns;
use crate::diff;
use crate::diff::StepView;
use crate::git::GitShell;
use crate::grid_laws;
use crate::render;
use crate::report;
use crate::rows;
use crate::screen;
use crate::screen::{Area, RowKind};
use crate::text;
use crate::text::CharSet;
use crate::text_laws;
use crate::width;
use vstd::prelude::*;

verus! {

/// The text view has one row of marks and below it one row per line of the
/// grid, each with one character per step.
pub proof fn law_rows_are_lines(steps: Seq<StepView>, height: nat)
    requires
        steps.len() > 0,
        diff::all_tall(steps, height),
    ensures
        render::view_rows(steps, height).len() == height + 1,
        forall|r: int|
            0 <= r <= height ==> (#[trigger] render::view_rows(steps, height)[r]).len()
                == steps.len(),
        forall|i: int|
            0 <= i < steps.len() ==> #[trigger] render::view_rows(steps, height)[0][i]
                == render::mark_of(steps[i].kind),
        forall|r: int, i: int|
            #![trigger render::view_rows(steps, height)[r][i]]
            1 <= r <= height && 0 <= i < steps.len() ==> render::view_rows(steps, height)[r][i]
                == steps[i].content[r - 1],
{
    let lines = render::step_lines(steps, height);
    assert forall|i: int| 0 <= i < lines.len() implies (#[trigger] lines[i]).len() == height
        + 1 by {
        assert(steps[i].content.len() == height);
    }
    grid_laws::lemma_equal_lengths(lines, height + 1);
    let view = render::view_rows(steps, height);
    assert forall|r: int, i: int|
        #![trigger view[r][i]]
        0 <= r <= height && 0 <= i < steps.len() implies view[r][i] == if r == 0 {
        render::mark_of(steps[i].kind)
    } else {
        steps[i].content[r - 1]
    } by {
        assert(steps[i].content.len() == height);
        assert(lines[i] == render::step_line(steps[i], height));
        assert(view[r] == columns::column(lines, lines.len(), r));
    }
}

/// The cells of two texts add up.
pub proof fn lemma_cells_concat(x: Seq<char>, y: Seq<char>)
    ensures
        width::cells(x + y) == width::cells(x) + width::cells(y),
    decreases y.len(),
{
    if y.len() == 0 {
        assert(x + y =~= x);
    } else {
        lemma_cells_concat(x, y.drop_last());
        assert((x + y).drop_last() =~= x + y.drop_last());
    }
}

proof fn lemma_cells_of_spaces(n: nat)
    ensures
        width::cells(text::spaces(n)) == n,
    decreases n,
{
    if n > 0 {
        lemma_cells_of_spaces((n - 1) as nat);
        assert(text::spaces(n).drop_last() =~= text::spaces((n - 1) as nat));
        assert(width::char_width(' ') == Some(1usize));
    }
}

proof fn lemma_cells_of_one(c: char)
    ensures
        width::cells(seq![c]) == width::width_or(c, 0),
{
    assert(seq![c].drop_last() =~= Seq::<char>::empty());
    assert(width::cells(Seq::<char>::empty()) == 0);
}

/// Whether `c` takes at least one cell and at most `room` of them.
pub open spec fn fills(c: char, room: nat) -> bool {
    width::char_width(c) matches Some(w) && 1 <= w <= room
}

/// A cell is as wide as its column, and one cell wider with a separator.
pub proof fn lemma_cell_width(c: char, room: nat, separator: bool)
    requires
        fills(c, room),
    ensures
        width::cells(render::cell_text(c, room, separator)) == room + if separator {
            1nat
        } else {
            0
        },
{
    let cell = seq![c] + text::spaces(width::padding(c, room));
    lemma_cells_of_one(c);
    lemma_cells_of_spaces(width::padding(c, room));
    lemma_cells_concat(seq![c], text::spaces(width::padding(c, room)));
    if separator {
        lemma_cells_of_one('|');
        lemma_cells_concat(cell, seq!['|']);
        assert(cell.push('|') =~= cell + seq!['|']);
        assert(width::char_width('|') == Some(1usize));
    }
}

/// The display width of the first `k` columns of a row of `n` steps with their
/// separators.
pub open spec fn columns_to(boundaries: Seq<bool>, widths: Seq<usize>, n: nat, k: int) -> nat
    decreases k,
{
    if k <= 0 {
        0
    } else {
        columns_to(boundaries, widths, n, k - 1) + render::width_at(widths, k - 1) + if k < n
            && render::flag_at(boundaries, k - 1) {
            1nat
        } else {
            0
        }
    }
}

/// In a row whose characters each take a cell and fit into their columns, every
/// column starts where the widths of the columns before it say: so the
/// separators of all such rows line up.
pub proof fn law_columns_line_up(row: Seq<char>, boundaries: Seq<bool>, widths: Seq<usize>, k: int)
    requires
        0 <= k <= row.len(),
        forall|i: int|
            0 <= i < row.len() ==> fills(#[trigger] row[i], render::width_at(widths, i)),
    ensures
        width::cells(render::cells_to(row, boundaries, widths, k)) == columns_to(
            boundaries,
            widths,
            row.len(),
            k,
        ),
    decreases k,
{
    if k > 0 {
        law_columns_line_up(row, boundaries, widths, k - 1);
        let before = render::cells_to(row, boundaries, widths, k - 1);
        let separator = k < row.len() && render::flag_at(boundaries, k - 1);
        let room = render::width_at(widths, k - 1);
        assert(fills(row[k - 1], room));
        lemma_cell_width(row[k - 1], room, separator);
        lemma_cells_concat(before, render::cell_text(row[k - 1], room, separator));
    }
}

/// Whether every character of the steps takes at least one cell. Control
/// characters and combining ones do not.
pub open spec fn visible(steps: Seq<StepView>) -> bool {
    forall|i: int, r: int|
        #![trigger steps[i].content[r]]
        0 <= i < steps.len() && 0 <= r < steps[i].content.len() ==> (width::char_width(
            steps[i].content[r],
        ) matches Some(w) && w >= 1)
}

/// A mark takes one cell.
pub proof fn lemma_mark_fills(kind: diff::StepKind, room: nat)
    requires
        room >= 1,
    ensures
        fills(render::mark_of(kind), room),
{
}

/// In the text view of a grid of visible characters the separators of any two
/// rows, the marks among them, line up: column `k` starts in the same display
/// cell in both.
pub proof fn law_text_view_lines_up(steps: Seq<StepView>, height: nat, r1: int, r2: int, k: int)
    requires
        steps.len() > 0,
        diff::all_tall(steps, height),
        visible(steps),
        0 <= r1 <= height,
        0 <= r2 <= height,
        0 <= k <= steps.len(),
    ensures
        width::cells(
            render::cells_to(
                render::view_rows(steps, height)[r1],
                render::boundaries_of(steps),
                report::widths_of(steps),
                k,
            ),
        ) == width::cells(
            render::cells_to(
                render::view_rows(steps, height)[r2],
                render::boundaries_of(steps),
                report::widths_of(steps),
                k,
            ),
        ),
{
    law_rows_are_lines(steps, height);
    lemma_view_row_fills(steps, height, r1);
    lemma_view_row_fills(steps, height, r2);
    let ws = report::widths_of(steps);
    let bs = render::boundaries_of(steps);
    law_columns_line_up(render::view_rows(steps, height)[r1], bs, ws, k);
    law_columns_line_up(render::view_rows(steps, height)[r2], bs, ws, k);
}

proof fn lemma_view_row_fills(steps: Seq<StepView>, height: nat, r: int)
    requires
        steps.len() > 0,
        diff::all_tall(steps, height),
        visible(steps),
        0 <= r <= height,
    ensures
        forall|i: int|
            0 <= i < render::view_rows(steps, height)[r].len() ==> fills(
                #[trigger] render::view_rows(steps, height)[r][i],
                render::width_at(report::widths_of(steps), i),
            ),
{
    law_rows_are_lines(steps, height);
    let row = render::view_rows(steps, height)[r];
    let ws = report::widths_of(steps);
    assert forall|i: int| 0 <= i < row.len() implies fills(
        #[trigger] row[i],
        render::width_at(ws, i),
    ) by {
        assert(steps[i].content.len() == height);
        width::lemma_column_is_a_word(steps[i].content);
        assert(render::width_at(ws, i) == width::column_width(steps[i].content));
        if r == 0 {
            assert(render::view_rows(steps, height)[0][i] == render::mark_of(steps[i].kind));
            lemma_mark_fills(steps[i].kind, render::width_at(ws, i));
        } else {
            assert(render::view_rows(steps, height)[r][i] == steps[i].content[r - 1]);
            width::lemma_column_fits(steps[i].content, r - 1);
        }
    }
}

/// The marker row of the text view is the row of marks up to the last change,
/// with the separator after it where a match follows.
pub proof fn law_marker_row_is_a_prefix(steps: Seq<StepView>, height: nat, widths: Seq<usize>)
    requires
        steps.len() > 0,
        diff::all_tall(steps, height),
    ensures
        render::marker_row(
            render::view_rows(steps, height)[0],
            render::boundaries_of(steps),
            widths,
        ) == render::cells_to(
            render::view_rows(steps, height)[0],
            render::boundaries_of(steps),
            widths,
            text::trim_end(
                render::view_rows(steps, height)[0],
                CharSet::One(' '),
            ).len() as int,
        ),
{
    law_rows_are_lines(steps, height);
    let row = render::view_rows(steps, height)[0];
    let bs = render::boundaries_of(steps);
    let marks = text::trim_end(row, CharSet::One(' '));
    let n = marks.len() as int;
    text_laws::law_trim_end_cuts_the_suffix(row, CharSet::One(' '));
    if n > 0 {
        lemma_cells_prefix(row, marks, bs, widths, n - 1);
        assert(marks[n - 1] == row[n - 1]);
        assert(row[n - 1] == render::mark_of(steps[n - 1].kind));
        if n < row.len() {
            assert(row[n] == ' ');
            assert(row[n] == render::mark_of(steps[n].kind));
            assert(diff::boundary(steps, n - 1));
            assert(bs[n - 1]);
            let before = render::cells_to(row, bs, widths, n - 1);
            let room = render::width_at(widths, n - 1);
            assert(before + render::cell_text(row[n - 1], room, true) =~= (before
                + render::cell_text(row[n - 1], room, false)).push('|'));
        }
    }
}

proof fn lemma_cells_prefix(
    row: Seq<char>,
    marks: Seq<char>,
    boundaries: Seq<bool>,
    widths: Seq<usize>,
    k: int,
)
    requires
        marks == row.take(marks.len() as int),
        marks.len() <= row.len(),
        0 <= k < marks.len(),
    ensures
        render::cells_to(marks, boundaries, widths, k) == render::cells_to(
            row,
            boundaries,
            widths,
            k,
        ),
    decreases k,
{
    if k > 0 {
        lemma_cells_prefix(row, marks, boundaries, widths, k - 1);
        assert(marks[k - 1] == row[k - 1]);
    }
}

/// Where nothing changed, the text view has no marker row.
pub proof fn law_no_change_no_marker(steps: Seq<StepView>, height: nat, widths: Seq<usize>)
    requires
        steps.len() > 0,
        diff::all_tall(steps, height),
        grid_laws::all_match(steps),
    ensures
        render::marker_row(
            render::view_rows(steps, height)[0],
            render::boundaries_of(steps),
            widths,
        ).len() == 0,
{
    law_rows_are_lines(steps, height);
    let row = render::view_rows(steps, height)[0];
    text_laws::law_trim_end_cuts_the_suffix(row, CharSet::One(' '));
    let marks = text::trim_end(row, CharSet::One(' '));
    if marks.len() > 0 {
        let n = marks.len() - 1;
        assert(row[n] == render::mark_of(steps[n].kind));
        assert(steps[n].kind == diff::StepKind::Match);
        assert(false);
    }
}

/// In the viewer, up to the last separator, every file line of visible
/// characters is as wide as the marker row: the separators line up.
pub proof fn law_viewer_lines_up(steps: Seq<StepView>, height: nat, r: int, k: int)
    requires
        diff::all_tall(steps, height),
        visible(steps),
        0 <= r < height,
        0 <= k <= steps.len(),
        k > 0 ==> rows::before_cut(steps, k - 1),
    ensures
        width::cells(rows::line_to(steps, r, k)) == width::cells(rows::marks_to(steps, k)),
    decreases k,
{
    if k > 0 {
        let i = k - 1;
        if i > 0 {
            let j = choose|j: int| i <= j && #[trigger] diff::boundary(steps, j);
            assert(i - 1 <= j && diff::boundary(steps, j));
            assert(rows::before_cut(steps, i - 1));
        }
        law_viewer_lines_up(steps, height, r, k - 1);
        let room = rows::cell_room(steps, i);
        let separator = diff::boundary(steps, i);
        assert(steps[i].content.len() == height);
        width::lemma_column_fits(steps[i].content, r);
        let c = steps[i].content[r];
        let mark = render::mark_of(steps[i].kind);
        lemma_mark_fills(steps[i].kind, room);
        assert(fills(c, room));
        lemma_cell_width(c, room, separator);
        lemma_cell_width(mark, room, separator);
        lemma_cells_concat(
            rows::line_to(steps, r, i),
            render::cell_text(c, room, separator),
        );
        lemma_cells_concat(rows::marks_to(steps, i), render::cell_text(mark, room, separator));
    }
}

proof fn lemma_widest(lines: Seq<Seq<char>>, r: int)
    requires
        0 <= r < lines.len(),
    ensures
        width::text_width(lines[r]) <= width::widest_row(lines),
    decreases lines.len(),
{
    if r < lines.len() - 1 {
        lemma_widest(lines.drop_last(), r);
    }
}

proof fn lemma_padded_marks_ascii(steps: Seq<StepView>, height: nat)
    ensures
        width::printable_ascii(rows::padded_marks(steps, height)),
{
    rows::lemma_marks_ascii(steps, steps.len() as int);
    let marks = rows::marks_to(steps, steps.len() as int);
    let padded = rows::padded_marks(steps, height);
    assert forall|i: int| 0 <= i < padded.len() implies ' ' <= #[trigger] padded[i] <= '~' by {
        if i < marks.len() {
            assert(padded[i] == marks[i]);
        } else {
            assert(padded[i] == ' ');
        }
    }
}

/// The viewer's marker row is at least as wide as every file line.
pub proof fn law_marker_spans_the_rows(steps: Seq<StepView>, height: nat, r: int)
    requires
        0 <= r < height,
    ensures
        width::text_width(rows::content_rows(steps, height)[r]) <= width::text_width(
            rows::padded_marks(steps, height),
        ),
{
    lemma_padded_marks_ascii(steps, height);
    lemma_widest(rows::content_rows(steps, height), r);
}

/// A text of printable ASCII is as wide as its characters together.
pub proof fn law_ascii_width_adds_up(s: Seq<char>)
    requires
        width::printable_ascii(s),
    ensures
        width::text_width(s) == width::cells(s),
    decreases s.len(),
{
    if s.len() > 0 {
        let rest = s.drop_last();
        assert forall|i: int| 0 <= i < rest.len() implies ' ' <= #[trigger] rest[i] <= '~' by {
            assert(rest[i] == s[i]);
        }
        law_ascii_width_adds_up(rest);
        assert(' ' <= s[s.len() - 1] <= '~');
    }
}

/// Whether every character of file line `r` takes at least one cell.
pub open spec fn visible_line(steps: Seq<StepView>, r: int) -> bool {
    forall|i: int|
        0 <= i < steps.len() ==> (width::char_width((#[trigger] steps[i]).content[r]) matches Some(
            w,
        ) && w >= 1)
}

/// The first `k` marks take no more cells than what the first `k` steps show of
/// a file line of visible characters.
proof fn lemma_marks_are_no_wider(steps: Seq<StepView>, height: nat, r: int, k: int)
    requires
        diff::all_tall(steps, height),
        0 <= r < height,
        visible_line(steps, r),
        0 <= k <= steps.len(),
    ensures
        width::cells(rows::marks_to(steps, k)) <= width::cells(rows::line_to(steps, r, k)),
    decreases k,
{
    if k > 0 {
        let i = k - 1;
        lemma_marks_are_no_wider(steps, height, r, i);
        let room = rows::cell_room(steps, i);
        let separator = diff::boundary(steps, i);
        assert(steps[i].content.len() == height);
        let c = steps[i].content[r];
        let mark = render::mark_of(steps[i].kind);
        width::lemma_column_fits(steps[i].content, r);
        if rows::before_cut(steps, i) {
            lemma_mark_fills(steps[i].kind, room);
            assert(fills(c, room));
            lemma_cell_width(c, room, separator);
            lemma_cell_width(mark, room, separator);
        } else {
            assert(!separator);
            lemma_unpadded_cell(c);
            lemma_unpadded_cell(mark);
            lemma_mark_fills(steps[i].kind, 1);
        }
        lemma_cells_concat(
            rows::line_to(steps, r, i),
            render::cell_text(c, room, separator),
        );
        lemma_cells_concat(rows::marks_to(steps, i), render::cell_text(mark, room, separator));
    }
}

proof fn lemma_unpadded_cell(c: char)
    ensures
        width::cells(render::cell_text(c, 0, false)) == width::width_or(c, 0),
{
    lemma_cells_of_one(c);
    assert(render::cell_text(c, 0, false) =~= seq![c]);
}

/// The viewer's marker row is exactly as wide as the widest file line, where
/// the width of some file line `r` of visible characters is that of its
/// characters together. Texts of printable ASCII always have that width; one
/// of characters that join into narrower clusters has not.
pub proof fn law_marker_is_as_wide_as_the_rows(steps: Seq<StepView>, height: nat, r: int)
    requires
        diff::all_tall(steps, height),
        0 <= r < height,
        visible_line(steps, r),
        width::text_width(rows::content_rows(steps, height)[r]) == width::cells(
            rows::content_rows(steps, height)[r],
        ),
    ensures
        width::text_width(rows::padded_marks(steps, height)) == width::widest_row(
            rows::content_rows(steps, height),
        ),
{
    let n = steps.len() as int;
    let marks = rows::marks_to(steps, n);
    lemma_padded_marks_ascii(steps, height);
    rows::lemma_marks_ascii(steps, n);
    law_ascii_width_adds_up(marks);
    lemma_marks_are_no_wider(steps, height, r, n);
    lemma_widest(rows::content_rows(steps, height), r);
}

/// A drawn character keeps its place: it stands as far right of the pane's left
/// edge as its grid cell is right of the scroll, and whole inside the pane.
pub proof fn law_characters_keep_their_cells(
    inner: Area,
    y: u16,
    row: Seq<char>,
    scroll_x: nat,
    kind: RowKind,
    i: int,
) -> (k: int)
    requires
        inner.fits(),
        0 <= i < screen::row_glyphs(inner, y, row, scroll_x, kind).len(),
    ensures
        0 <= k < row.len(),
        screen::row_glyphs(inner, y, row, scroll_x, kind)[i].symbol == row[k],
        screen::row_glyphs(inner, y, row, scroll_x, kind)[i].x - inner.x == rows::cell_of(row, k)
            - scroll_x,
        inner.x <= screen::row_glyphs(inner, y, row, scroll_x, kind)[i].x,
        screen::row_glyphs(inner, y, row, scroll_x, kind)[i].x + width::width_or(row[k], 0)
            <= inner.x + inner.width,
{
    let w = inner.width as nat;
    let visible = rows::window(row, scroll_x, w);
    let (lo, hi) = rows::law_window_is_one_piece(row, scroll_x, w);
    let k = lo + i;
    assert(visible[i] == row[k]);
    assert(visible.take(i) =~= row.subrange(lo, k));
    assert(visible.take(i + 1) =~= row.subrange(lo, k + 1));
    rows::lemma_piece_cells(row, lo, k);
    rows::lemma_piece_cells(row, lo, k + 1);
    rows::lemma_cell_step(row, k);
    rows::lemma_cells_grow(visible, i + 1, visible.len() as int);
    assert(visible.take(visible.len() as int) =~= visible);
    let g = screen::row_glyphs(inner, y, row, scroll_x, kind)[i];
    assert(g == screen::glyph_at(inner, y, row, scroll_x, kind, i));
    k
}

/// Whatever rows are drawn lie between the line `top`, exclusive, and the
/// pane's lower edge. With the marker row's line as `top`, no file line is ever
/// drawn over the pinned marker row.
pub proof fn law_rows_stay_below(
    inner: Area,
    top: int,
    lines: Seq<Seq<char>>,
    scroll: (nat, nat),
    kind: RowKind,
    from: int,
    i: int,
)
    requires
        inner.fits(),
        top >= -1,
        0 <= i < screen::rows_from(inner, top, lines, scroll, kind, from).len(),
    ensures
        top < screen::rows_from(inner, top, lines, scroll, kind, from)[i].y < inner.y
            + inner.height,
    decreases lines.len() - from,
{
    let y = screen::row_line(inner, from, scroll.0);
    if from < lines.len() {
        if !(top < y < inner.y + inner.height) {
            law_rows_stay_below(inner, top, lines, scroll, kind, from + 1, i);
        } else {
            let head = screen::row_glyphs(inner, y as u16, lines[from], scroll.1, kind);
            let all = screen::rows_from(inner, top, lines, scroll, kind, from);
            if i < head.len() {
                assert(all[i] == head[i]);
                assert(head[i] == screen::glyph_at(
                    inner,
                    y as u16,
                    lines[from],
                    scroll.1,
                    kind,
                    i,
                ));
            } else {
                law_rows_stay_below(
                    inner,
                    top,
                    lines,
                    scroll,
                    kind,
                    from + 1,
                    i - head.len(),
                );
            }
        }
    }
}

/// Scrolled down as far as it goes, the viewer shows the last row, in both
/// views: inside the pane, and below the marker row where there is one. The
/// last file line then lies in the last line of the pane, or further up where
/// the whole diff fits.
pub proof fn law_last_row_is_reachable<G: GitShell + ?Sized>(app: App<G>, area: Area)
    requires
        area.fits(),
        area.height >= 4,
        app.pane_height == area.height,
        crate::app::dims_of(app.grid, app.transposed).0 > 0,
    ensures
        ({
            let inner = screen::inner_of(area);
            let n = crate::app::dims_of(app.grid, app.transposed).0;
            let last = if app.transposed {
                n - 1
            } else {
                n as int
            };
            let y = screen::row_line(inner, last, app.limit_y());
            &&& inner.y <= y < inner.y + inner.height
            &&& !app.transposed ==> inner.y < y
            &&& !app.transposed && app.limit_y() > 0 ==> y == inner.y + inner.height - 1
            &&& app.limit_y() == 0 ==> y == inner.y + last
        }),
{
}

/// A row that lies inside the pane, below line `top`, is drawn: its characters
/// are among those of the pane.
pub proof fn law_rows_inside_are_drawn(
    inner: Area,
    top: int,
    lines: Seq<Seq<char>>,
    scroll: (nat, nat),
    kind: RowKind,
    from: int,
    i: int,
)
    requires
        0 <= from <= i < lines.len(),
        top < screen::row_line(inner, i, scroll.0) < inner.y + inner.height,
    ensures
        ({
            let y = screen::row_line(inner, i, scroll.0) as u16;
            let row = screen::row_glyphs(inner, y, lines[i], scroll.1, kind);
            let all = screen::rows_from(inner, top, lines, scroll, kind, from);
            exists|at: int|
                0 <= at && at + row.len() <= all.len() && #[trigger] all.subrange(
                    at,
                    at + row.len(),
                ) == row
        }),
    decreases i - from,
{
    let y = screen::row_line(inner, i, scroll.0) as u16;
    let row = screen::row_glyphs(inner, y, lines[i], scroll.1, kind);
    let all = screen::rows_from(inner, top, lines, scroll, kind, from);
    let n = row.len() as int;
    if from == i {
        assert(all.subrange(0, 0 + n) =~= row);
    } else {
        law_rows_inside_are_drawn(inner, top, lines, scroll, kind, from + 1, i);
        let rest = screen::rows_from(inner, top, lines, scroll, kind, from + 1);
        let at = choose|at: int|
            0 <= at && at + n <= rest.len() && #[trigger] rest.subrange(at, at + n) == row;
        let first = all.len() - rest.len();
        assert(all.subrange(first + at, first + at + n) =~= rest.subrange(at, at + n));
    }
}

/// In the transposed view the mark of a step is coloured, and nothing else of
/// its row: not even a `-` or a `+` of the column.
pub proof fn law_only_the_mark_is_coloured(
    inner: Area,
    y: u16,
    step: StepView,
    scroll_x: nat,
    i: int,
)
    requires
        inner.fits(),
        0 <= i < screen::row_glyphs(
            inner,
            y,
            rows::step_rows(seq![step])[0],
            scroll_x,
            RowKind::Step,
        ).len(),
    ensures
        ({
            let row = rows::step_rows(seq![step])[0];
            let g = screen::row_glyphs(inner, y, row, scroll_x, RowKind::Step)[i];
            if scroll_x == 0 && i == 0 {
                &&& g.x == inner.x
                &&& g.symbol == render::mark_of(step.kind)
                &&& g.tint == screen::tint_for(RowKind::Step, render::mark_of(step.kind))
            } else {
                g.tint == screen::Tint::Plain
            }
        }),
{
    let row = rows::step_rows(seq![step])[0];
    let w = inner.width as nat;
    let g = screen::row_glyphs(inner, y, row, scroll_x, RowKind::Step)[i];
    assert(g == screen::glyph_at(inner, y, row, scroll_x, RowKind::Step, i));
    if scroll_x == 0 && i == 0 {
        let (lo, hi) = rows::law_window_is_one_piece(row, 0, w);
        assert(row[0] == render::mark_of(step.kind));
        assert(row.take(0) =~= Seq::<char>::empty());
        assert(rows::cell_of(row, 0) == 0);
        rows::lemma_cell_step(row, 0);
        rows::lemma_cells_grow(row, 1, lo + 1);
        assert(rows::shows(row, 0, w, lo));
        assert(rows::shows(row, 0, w, 0));
        assert(rows::window(row, 0, w)[0] == row[0]);
        assert(rows::window(row, 0, w).take(0) =~= Seq::<char>::empty());
    }
}

/// Scrolled right as far as it goes, the viewer's window reaches the end of the
/// widest row.
pub proof fn law_last_column_is_reachable<G: GitShell + ?Sized>(app: App<G>, area: Area)
    requires
        app.pane_width == area.width,
    ensures
        crate::app::dims_of(app.grid, app.transposed).1 <= app.limit_x() + screen::inner_of(
            area,
        ).width,
{
}

} // verus!
