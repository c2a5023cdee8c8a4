//! The rows that the viewer shows of a diff grid.
//!
//! `build_rows` turns a `DiffGrid` into full-width strings (marker row first),
//! and `slice_by_width` implements width-aware horizontal scrolling, so that
//! wide characters (CJK) are never split in half.

use crate::diff;
use crate::diff::{DiffGrid, Step, StepView};
use crate::render;
use crate::text;
use crate::width;
use std::ops::Range;
use vstd::prelude::*;

verus! {

/// Whether a separator stands after step `i` or further right.
pub open spec fn before_cut(steps: Seq<StepView>, i: int) -> bool {
    exists|j: int| i <= j && #[trigger] diff::boundary(steps, j)
}

/// The width that the cells of step `i` are padded to: the column's own, or
/// none right of the last separator.
pub open spec fn cell_room(steps: Seq<StepView>, i: int) -> nat {
    if before_cut(steps, i) {
        width::column_width(steps[i].content)
    } else {
        0
    }
}

/// What a column adds to file line `r`: its cell there, if it has one, and the
/// separator where one follows.
pub open spec fn column_cell(
    content: Seq<char>,
    r: int,
    room: nat,
    separator: bool,
) -> Seq<char> {
    if 0 <= r < content.len() {
        render::cell_text(content[r], room, separator)
    } else if separator {
        seq!['|']
    } else {
        Seq::empty()
    }
}

/// What step `i` adds to file line `r`.
pub open spec fn line_cell(steps: Seq<StepView>, r: int, i: int) -> Seq<char> {
    column_cell(steps[i].content, r, cell_room(steps, i), diff::boundary(steps, i))
}

/// What the first `k` steps show of file line `r`.
pub open spec fn line_to(steps: Seq<StepView>, r: int, k: int) -> Seq<char>
    decreases k,
{
    if k <= 0 {
        Seq::empty()
    } else {
        line_to(steps, r, k - 1) + line_cell(steps, r, k - 1)
    }
}

/// The marks of the first `k` steps.
pub open spec fn marks_to(steps: Seq<StepView>, k: int) -> Seq<char>
    decreases k,
{
    if k <= 0 {
        Seq::empty()
    } else {
        marks_to(steps, k - 1) + render::cell_text(
            render::mark_of(steps[k - 1].kind),
            cell_room(steps, k - 1),
            diff::boundary(steps, k - 1),
        )
    }
}

/// The file lines as they are shown.
pub open spec fn content_rows(steps: Seq<StepView>, height: nat) -> Seq<Seq<char>> {
    Seq::new(height, |r: int| line_to(steps, r, steps.len() as int))
}

/// The marker row, filled up with spaces to the width of the widest file line.
pub open spec fn padded_marks(steps: Seq<StepView>, height: nat) -> Seq<char> {
    let marks = marks_to(steps, steps.len() as int);
    marks + text::spaces(
        text::minus(width::widest_row(content_rows(steps, height)), marks.len()),
    )
}

/// The rows that the viewer shows: the marker row, then the file lines.
pub open spec fn display_rows(steps: Seq<StepView>, height: nat) -> Seq<Seq<char>> {
    seq![padded_marks(steps, height)] + content_rows(steps, height)
}

/// Whether no column is longer than the grid is high.
pub open spec fn low(steps: Seq<StepView>, height: nat) -> bool {
    forall|i: int| 0 <= i < steps.len() ==> (#[trigger] steps[i]).content.len() <= height
}

/// Marks and separators are printable ASCII.
pub proof fn lemma_marks_ascii(steps: Seq<StepView>, k: int)
    ensures
        width::printable_ascii(marks_to(steps, k)),
    decreases k,
{
    if k > 0 {
        lemma_marks_ascii(steps, k - 1);
    }
}

/// How many steps stand up to the last separator.
fn padded_steps(grid: &DiffGrid) -> (r: usize)
    requires
        grid.wf(),
    ensures
        r <= grid.steps@.len(),
        forall|i: int| 0 <= i ==> (i < r <==> #[trigger] before_cut(grid.view_steps(), i)),
{
    let ghost steps = grid.view_steps();
    let mut n: usize = grid.steps.len();
    while n > 0
        invariant
            grid.wf(),
            n <= grid.steps@.len(),
            steps == grid.view_steps(),
            forall|j: int| n <= j ==> !diff::boundary(steps, j),
        decreases n,
    {
        let end = grid.is_group_end[n - 1];
        if end && n < grid.steps.len() {
            assert(diff::boundary(steps, n - 1));
            return n;
        }
        n -= 1;
    }
    0
}

/// Appends one cell to a row.
fn push_cell(row: &mut String, c: char, room: usize, separator: bool)
    ensures
        final(row)@ == old(row)@ + render::cell_text(c, room as nat, separator),
{
    row.push(c);
    text::push_spaces(row, width::cell_pad(c, room));
    if separator {
        row.push('|');
    }
    assert(row@ =~= old(row)@ + render::cell_text(c, room as nat, separator));
}

/// Appends what one step adds to each file line.
fn push_column(rows: &mut Vec<String>, step: &Step, room: usize, separator: bool)
    requires
        step.content@.len() <= old(rows)@.len(),
    ensures
        final(rows)@.len() == old(rows)@.len(),
        forall|r: int|
            0 <= r < old(rows)@.len() ==> (#[trigger] final(rows)@[r])@ == old(rows)@[r]@
                + column_cell(step.content@, r, room as nat, separator),
{
    let chars = text::chars_of(step.content.as_str());
    let ghost before = rows@;
    let mut r: usize = 0;
    while r < rows.len()
        invariant
            chars@ == step.content@,
            r <= rows@.len(),
            rows@.len() == before.len(),
            forall|x: int| r <= x < before.len() ==> #[trigger] rows@[x] == before[x],
            forall|x: int|
                0 <= x < r ==> (#[trigger] rows@[x])@ == before[x]@ + column_cell(
                    step.content@,
                    x,
                    room as nat,
                    separator,
                ),
        decreases rows@.len() - r,
    {
        if r < chars.len() {
            push_cell(&mut rows[r], chars[r], room, separator);
        } else if separator {
            rows[r].push('|');
        }
        assert(rows@[r as int]@ =~= before[r as int]@ + column_cell(
            step.content@,
            r as int,
            room as nat,
            separator,
        ));
        r += 1;
    }
}

/// Display rows for the viewer: the first is the marker row (one mark per
/// step, `|` between groups, padded with spaces to the full content display
/// width), the others are the file lines. Cells are padded to their step
/// column's display width up to the last `|`, so that the separators line up
/// vertically; past it, rows may differ at the tail.
pub fn build_rows(grid: &DiffGrid) -> (r: Vec<String>)
    requires
        grid.wf(),
        low(grid.view_steps(), grid.height as nat),
    ensures
        text::texts(r@) == display_rows(grid.view_steps(), grid.height as nat),
{
    let ghost steps = grid.view_steps();
    let ghost height = grid.height as nat;
    let mut marker = String::new();
    let mut rows: Vec<String> = Vec::new();
    let mut h: usize = 0;
    while h < grid.height
        invariant
            h <= grid.height,
            rows@.len() == h,
            forall|x: int| 0 <= x < h ==> (#[trigger] rows@[x])@ == Seq::<char>::empty(),
        decreases grid.height - h,
    {
        rows.push(String::new());
        h += 1;
    }
    let pad_until: usize = padded_steps(grid);
    let mut i: usize = 0;
    while i < grid.steps.len()
        invariant
            grid.wf(),
            low(steps, height),
            steps == grid.view_steps(),
            height == grid.height,
            steps.len() == grid.steps@.len(),
            i <= grid.steps@.len(),
            forall|x: int| 0 <= x ==> (x < pad_until <==> #[trigger] before_cut(steps, x)),
            marker@ == marks_to(steps, i as int),
            rows@.len() == height,
            forall|x: int|
                0 <= x < height ==> (#[trigger] rows@[x])@ == line_to(steps, x, i as int),
        decreases grid.steps@.len() - i,
    {
        let step = &grid.steps[i];
        assert(steps[i as int] == step@);
        assert(before_cut(steps, i as int) <==> i < pad_until);
        let room: usize = if i < pad_until {
            grid.widths[i]
        } else {
            0
        };
        assert(room == cell_room(steps, i as int));
        let separator = grid.is_group_end[i] && i + 1 < grid.steps.len();
        assert(separator == diff::boundary(steps, i as int));
        let ghost before = rows@;
        push_column(&mut rows, step, room, separator);
        push_cell(&mut marker, render::op_prefix(step.kind), room, separator);
        assert forall|x: int| 0 <= x < height implies (#[trigger] rows@[x])@ == line_to(
            steps,
            x,
            i + 1,
        ) by {
            assert(before[x]@ == line_to(steps, x, i as int));
            assert(rows@[x]@ == before[x]@ + line_cell(steps, x, i as int));
        }
        i += 1;
    }
    assert(text::texts(rows@) =~= content_rows(steps, height));
    let wide: usize = width::width_of_rows(&rows);
    proof {
        lemma_marks_ascii(steps, steps.len() as int);
    }
    let narrow: usize = width::width_of_text(marker.as_str());
    text::push_spaces(&mut marker, wide.saturating_sub(narrow));
    assert(marker@ =~= padded_marks(steps, height));
    let mut out: Vec<String> = Vec::new();
    out.push(marker);
    out.append(&mut rows);
    assert(text::texts(out@) =~= display_rows(steps, height));
    out
}

/// Transposed display rows, one per step: the mark, a space and the column.
pub open spec fn step_rows(steps: Seq<StepView>) -> Seq<Seq<char>> {
    steps.map_values(
        |s: StepView| seq![render::mark_of(s.kind), ' '] + s.content,
    )
}

/// Transposed display rows: one per step, its mark, a space, and the column
/// content.
pub fn transposed_rows(grid: &DiffGrid) -> (r: Vec<String>)
    ensures
        text::texts(r@) == step_rows(grid.view_steps()),
{
    let ghost steps = grid.view_steps();
    let mut rows: Vec<String> = Vec::new();
    let mut i: usize = 0;
    while i < grid.steps.len()
        invariant
            i <= grid.steps@.len(),
            steps == grid.view_steps(),
            rows@.len() == i,
            forall|x: int| 0 <= x < i ==> (#[trigger] rows@[x])@ == step_rows(steps)[x],
        decreases grid.steps@.len() - i,
    {
        let step = &grid.steps[i];
        let mut line = String::new();
        line.push(render::op_prefix(step.kind));
        line.push(' ');
        line.append(step.content.as_str());
        proof {
            assert(steps[i as int] == step@);
            assert(line@ =~= step_rows(steps)[i as int]);
        }
        rows.push(line);
        i += 1;
    }
    assert(text::texts(rows@) =~= step_rows(steps));
    rows
}

/// Whether some step of the group has a character other than a space in file
/// line `r`.
pub open spec fn row_affected(steps: Seq<StepView>, group: Range<usize>, r: int) -> bool {
    exists|i: int|
        group.start <= i < group.end && 0 <= r < (#[trigger] steps[i]).content.len()
            && steps[i].content[r] != ' '
}

/// The first file line from `r` on that the group affects.
pub open spec fn affected_from(
    steps: Seq<StepView>,
    height: nat,
    group: Range<usize>,
    r: int,
) -> Option<int>
    decreases height - r,
{
    if r >= height {
        None
    } else if row_affected(steps, group, r) {
        Some(r)
    } else {
        affected_from(steps, height, group, r + 1)
    }
}

/// The first file line that the group affects.
pub open spec fn first_affected(
    steps: Seq<StepView>,
    height: nat,
    group: Range<usize>,
) -> Option<int> {
    affected_from(steps, height, group, 0)
}

/// The first file line that a group affects is one of the grid's.
pub proof fn lemma_affected_row(steps: Seq<StepView>, height: nat, group: Range<usize>, r: int)
    ensures
        affected_from(steps, height, group, r) matches Some(row) ==> r <= row < height
            && row_affected(steps, group, row) && forall|j: int|
            r <= j < row ==> !#[trigger] row_affected(steps, group, j),
    decreases height - r,
{
    if r < height && !row_affected(steps, group, r) {
        lemma_affected_row(steps, height, group, r + 1);
    }
}

/// The first file line where any step in `group` has a character that is not
/// padding.
pub fn first_affected_row(grid: &DiffGrid, group: &Range<usize>) -> (res: Option<usize>)
    requires
        group.start <= group.end <= grid.steps@.len(),
    ensures
        res matches Some(r) ==> first_affected(grid.view_steps(), grid.height as nat, *group)
            == Some(r as int) && r < grid.height,
        res is None ==> first_affected(grid.view_steps(), grid.height as nat, *group) is None,
{
    let ghost steps = grid.view_steps();
    let ghost height = grid.height as nat;
    let mut columns: Vec<Vec<char>> = Vec::new();
    let mut i: usize = group.start;
    while i < group.end
        invariant
            group.start <= i <= group.end <= grid.steps@.len(),
            steps == grid.view_steps(),
            columns@.len() == i - group.start,
            forall|x: int|
                0 <= x < columns@.len() ==> (#[trigger] columns@[x])@ == steps[group.start
                    + x].content,
        decreases group.end - i,
    {
        assert(steps[i as int] == grid.steps@[i as int]@);
        columns.push(text::chars_of(grid.steps[i].content.as_str()));
        i += 1;
    }
    let mut r: usize = 0;
    while r < grid.height
        invariant
            r <= grid.height,
            steps == grid.view_steps(),
            height == grid.height,
            group.start <= group.end <= grid.steps@.len(),
            columns@.len() == group.end - group.start,
            forall|x: int|
                0 <= x < columns@.len() ==> (#[trigger] columns@[x])@ == steps[group.start
                    + x].content,
            affected_from(steps, height, *group, 0) == affected_from(
                steps,
                height,
                *group,
                r as int,
            ),
        decreases grid.height - r,
    {
        let mut k: usize = 0;
        while k < columns.len()
            invariant
                r < grid.height,
                height == grid.height,
                k <= columns@.len(),
                columns@.len() == group.end - group.start,
                forall|x: int|
                    0 <= x < columns@.len() ==> (#[trigger] columns@[x])@ == steps[group.start
                        + x].content,
                forall|x: int|
                    0 <= x < k ==> !(r < (#[trigger] columns@[x])@.len() && columns@[x]@[r as int]
                        != ' '),
                steps == grid.view_steps(),
                affected_from(steps, height, *group, 0) == affected_from(
                    steps,
                    height,
                    *group,
                    r as int,
                ),
            decreases columns@.len() - k,
        {
            let column = &columns[k];
            assert(columns@[k as int]@ == steps[group.start + k].content);
            if r < column.len() && column[r] != ' ' {
                assert(row_affected(steps, *group, r as int));
                return Some(r);
            }
            k += 1;
        }
        proof {
            assert forall|i: int|
                !(group.start <= i < group.end && 0 <= r < (#[trigger] steps[i]).content.len()
                    && steps[i].content[r as int] != ' ') by {
                if group.start <= i < group.end {
                    let x = i - group.start;
                    assert(columns@[x]@ == steps[i].content);
                }
            }
            assert(!row_affected(steps, *group, r as int));
        }
        r += 1;
    }
    None
}

/// The display width of the first `k` columns, one more cell after each that
/// ends a group.
pub open spec fn width_to(steps: Seq<StepView>, k: int) -> nat
    decreases k,
{
    if k <= 0 {
        0
    } else {
        width_to(steps, k - 1) + width::column_width(steps[k - 1].content) + if diff::ends_run(
            steps,
            k - 1,
        ) {
            1nat
        } else {
            0
        }
    }
}

/// `n`, or the largest machine word where it does not fit into one.
pub open spec fn capped(n: nat) -> nat {
    if n <= usize::MAX {
        n
    } else {
        usize::MAX as nat
    }
}

/// Display width of the grid content before `group` ends (step widths plus one
/// cell per group separator, counting the separator after the group's own last
/// step). For a delete and insert pair this lands on the column of the
/// insert's `+`, the marker position where the change is visible.
pub fn group_start_width(grid: &DiffGrid, group: &Range<usize>) -> (r: usize)
    requires
        grid.wf(),
        group.end <= grid.steps@.len(),
    ensures
        r == capped(width_to(grid.view_steps(), group.end as int)),
{
    let ghost steps = grid.view_steps();
    let mut w: usize = 0;
    let mut i: usize = 0;
    while i < group.end
        invariant
            grid.wf(),
            i <= group.end <= grid.steps@.len(),
            steps == grid.view_steps(),
            w == capped(width_to(steps, i as int)),
        decreases group.end - i,
    {
        w = w.saturating_add(grid.widths[i]);
        if grid.is_group_end[i] {
            w = w.saturating_add(1);
        }
        i += 1;
    }
    w
}

/// The grid cell at which character `k` of `s` starts.
pub open spec fn cell_of(s: Seq<char>, k: int) -> nat {
    width::cells(s.take(k))
}

/// Whether character `k` of `s` shows in a window of `max_width` cells from
/// cell `start` on: it lies in the window as a whole and does not end at the
/// window's start.
pub open spec fn shows(s: Seq<char>, start: nat, max_width: nat, k: int) -> bool {
    &&& 0 <= k < s.len()
    &&& start <= cell_of(s, k)
    &&& start < cell_of(s, k + 1) <= start + max_width
}

/// The characters among the first `k` of `s` that show.
pub open spec fn shown_to(s: Seq<char>, start: nat, max_width: nat, k: int) -> Seq<char>
    decreases k,
{
    if k <= 0 {
        Seq::empty()
    } else if shows(s, start, max_width, k - 1) {
        shown_to(s, start, max_width, k - 1).push(s[k - 1])
    } else {
        shown_to(s, start, max_width, k - 1)
    }
}

/// The first character from `k` on that shows.
pub open spec fn first_from(s: Seq<char>, start: nat, max_width: nat, k: int) -> Option<int>
    decreases s.len() - k,
{
    if k >= s.len() {
        None
    } else if shows(s, start, max_width, k) {
        Some(k)
    } else {
        first_from(s, start, max_width, k + 1)
    }
}

/// What shows of `s` in a window.
pub open spec fn window(s: Seq<char>, start: nat, max_width: nat) -> Seq<char> {
    shown_to(s, start, max_width, s.len() as int)
}

/// The cell of the first character that shows in a window; the window's start
/// where none does.
pub open spec fn window_cell(s: Seq<char>, start: nat, max_width: nat) -> nat {
    match first_from(s, start, max_width, 0) {
        Some(k) => cell_of(s, k),
        None => start,
    }
}

/// A character ends where the next one starts.
pub proof fn lemma_cell_step(s: Seq<char>, k: int)
    requires
        0 <= k < s.len(),
    ensures
        cell_of(s, k + 1) == cell_of(s, k) + width::width_or(s[k], 0),
{
    assert(s.take(k + 1).drop_last() =~= s.take(k));
}

/// Cells grow from left to right.
pub proof fn lemma_cells_grow(s: Seq<char>, j: int, k: int)
    requires
        0 <= j <= k <= s.len(),
    ensures
        cell_of(s, j) <= cell_of(s, k),
    decreases k - j,
{
    if j < k {
        lemma_cells_grow(s, j, k - 1);
        lemma_cell_step(s, k - 1);
    }
}

/// Nothing shows right of a character that ends past the window.
proof fn lemma_rest_hidden(s: Seq<char>, start: nat, max_width: nat, k: int, n: int)
    requires
        0 <= k < n <= s.len(),
        cell_of(s, k + 1) > start + max_width,
    ensures
        shown_to(s, start, max_width, n) == shown_to(s, start, max_width, k),
        first_from(s, start, max_width, k) is None,
    decreases n - k,
{
    lemma_hidden_from(s, start, max_width, k, k);
    if n > k + 1 {
        lemma_rest_hidden(s, start, max_width, k, n - 1);
        lemma_cells_grow(s, k + 1, n);
    }
}

proof fn lemma_hidden_from(s: Seq<char>, start: nat, max_width: nat, k: int, j: int)
    requires
        0 <= k <= j <= s.len(),
        k < s.len(),
        cell_of(s, k + 1) > start + max_width,
    ensures
        first_from(s, start, max_width, j) is None,
    decreases s.len() - j,
{
    if j < s.len() {
        lemma_cells_grow(s, k + 1, j + 1);
        lemma_hidden_from(s, start, max_width, k, j + 1);
    }
}

/// Slices `s` by display width: skips the first `start` cells, keeps at most
/// `max_width` cells. A wide character that straddles a boundary is skipped
/// whole (its width still consumes the cells up to the boundary), so that the
/// output never contains a partial wide character. Returns the drawn text plus
/// the grid cell index of its first character. That index sits past `start`
/// when a straddling wide character was skipped, so that the caller can keep
/// rows aligned under the same viewport columns.
pub fn slice_by_width(s: &str, start: usize, max_width: usize) -> (r: (String, usize))
    requires
        start + max_width <= usize::MAX,
    ensures
        r.0@ == window(s@, start as nat, max_width as nat),
        r.1 == window_cell(s@, start as nat, max_width as nat),
{
    let chars = text::chars_of(s);
    let ghost t = s@;
    let ghost from = start as nat;
    let ghost wide = max_width as nat;
    let limit: u128 = (start + max_width) as u128;
    let mut out = String::new();
    let mut first: usize = start;
    let mut pos: u128 = 0;
    let mut i: usize = 0;
    assert(t.take(0) =~= Seq::<char>::empty());
    while i < chars.len()
        invariant
            t == s@,
            chars@ == t,
            i <= chars@.len(),
            from == start,
            wide == max_width,
            start + max_width <= usize::MAX,
            limit == start + max_width,
            pos == cell_of(t, i as int),
            pos <= 3 * i,
            out@ == shown_to(t, from, wide, i as int),
            out@.len() == 0 ==> first == start && first_from(t, from, wide, 0) == first_from(
                t,
                from,
                wide,
                i as int,
            ),
            out@.len() > 0 ==> first_from(t, from, wide, 0) is Some && first == cell_of(
                t,
                first_from(t, from, wide, 0)->0,
            ),
        decreases chars@.len() - i,
    {
        let c = chars[i];
        let w: u128 = width::width_of_char(c).unwrap_or(0) as u128;
        proof {
            lemma_cell_step(t, i as int);
        }
        if pos + w > start as u128 && pos >= start as u128 {
            if pos + w > limit {
                proof {
                    lemma_rest_hidden(t, from, wide, i as int, t.len() as int);
                }
                return (out, first);
            }
            assert(shows(t, from, wide, i as int));
            if out.as_str().is_empty() {
                first = pos as usize;
            }
            out.push(c);
        } else {
            assert(!shows(t, from, wide, i as int));
        }
        pos += w;
        i += 1;
    }
    (out, first)
}

proof fn lemma_first_exists(s: Seq<char>, start: nat, max_width: nat, i: int)
    requires
        0 <= i,
    ensures
        match first_from(s, start, max_width, i) {
            Some(k) => i <= k < s.len() && shows(s, start, max_width, k) && forall|j: int|
                i <= j < k ==> !shows(s, start, max_width, j),
            None => forall|j: int| i <= j < s.len() ==> !shows(s, start, max_width, j),
        },
    decreases s.len() - i,
{
    if i < s.len() && !shows(s, start, max_width, i) {
        lemma_first_exists(s, start, max_width, i + 1);
    }
}

proof fn lemma_shown_nothing(s: Seq<char>, start: nat, max_width: nat, k: int)
    requires
        forall|j: int| 0 <= j < k ==> !shows(s, start, max_width, j),
    ensures
        shown_to(s, start, max_width, k) == Seq::<char>::empty(),
    decreases k,
{
    if k > 0 {
        lemma_shown_nothing(s, start, max_width, k - 1);
    }
}

/// From the first character that shows on, the first `k` characters show one
/// piece of `s`.
proof fn lemma_shown_piece(s: Seq<char>, start: nat, max_width: nat, lo: int, k: int) -> (hi: int)
    requires
        0 <= lo < k <= s.len(),
        shows(s, start, max_width, lo),
        forall|j: int| 0 <= j < lo ==> !shows(s, start, max_width, j),
    ensures
        lo < hi <= k,
        shown_to(s, start, max_width, k) == s.subrange(lo, hi),
        cell_of(s, hi) <= start + max_width,
        hi < k ==> cell_of(s, hi + 1) > start + max_width,
    decreases k,
{
    if k == lo + 1 {
        lemma_shown_nothing(s, start, max_width, lo);
        assert(shown_to(s, start, max_width, k) =~= s.subrange(lo, k));
        k
    } else {
        let hi = lemma_shown_piece(s, start, max_width, lo, k - 1);
        lemma_cells_grow(s, lo, k - 1);
        lemma_cells_grow(s, lo + 1, k);
        if hi == k - 1 {
            if shows(s, start, max_width, k - 1) {
                assert(shown_to(s, start, max_width, k) =~= s.subrange(lo, k));
                k
            } else {
                hi
            }
        } else {
            lemma_cells_grow(s, hi + 1, k);
            hi
        }
    }
}

/// The cells of a piece are those between its two ends.
pub proof fn lemma_piece_cells(s: Seq<char>, lo: int, hi: int)
    requires
        0 <= lo <= hi <= s.len(),
    ensures
        width::cells(s.subrange(lo, hi)) == cell_of(s, hi) - cell_of(s, lo),
    decreases hi - lo,
{
    if lo < hi {
        lemma_piece_cells(s, lo, hi - 1);
        lemma_cell_step(s, hi - 1);
        assert(s.subrange(lo, hi).drop_last() =~= s.subrange(lo, hi - 1));
    } else {
        assert(s.subrange(lo, hi) =~= Seq::<char>::empty());
    }
}

/// A window shows one piece of the text, whole characters only, which starts
/// at or after the window's start and ends at or before its end. The piece is
/// all that shows, and one character more on the right would not fit.
pub proof fn law_window_is_one_piece(s: Seq<char>, start: nat, max_width: nat) -> (r: (int, int))
    ensures
        0 <= r.0 <= r.1 <= s.len(),
        window(s, start, max_width) == s.subrange(r.0, r.1),
        r.0 < r.1 ==> window_cell(s, start, max_width) == cell_of(s, r.0),
        r.0 == r.1 ==> window_cell(s, start, max_width) == start,
        start <= window_cell(s, start, max_width),
        window_cell(s, start, max_width) + width::cells(window(s, start, max_width)) <= start
            + max_width,
        forall|j: int| #[trigger] shows(s, start, max_width, j) <==> r.0 <= j < r.1,
        r.0 < r.1 < s.len() ==> cell_of(s, r.1 + 1) > start + max_width,
{
    lemma_first_exists(s, start, max_width, 0);
    match first_from(s, start, max_width, 0) {
        Some(lo) => {
            let hi = lemma_shown_piece(s, start, max_width, lo, s.len() as int);
            lemma_piece_cells(s, lo, hi);
            assert forall|j: int| #[trigger] shows(s, start, max_width, j) <==> lo <= j < hi by {
                if lo <= j < hi {
                    lemma_cells_grow(s, lo, j);
                    lemma_cells_grow(s, lo + 1, j + 1);
                    lemma_cells_grow(s, j + 1, hi);
                } else if hi <= j < s.len() {
                    lemma_cells_grow(s, hi + 1, j + 1);
                }
            }
            (lo, hi)
        },
        None => {
            lemma_shown_nothing(s, start, max_width, s.len() as int);
            assert(s.subrange(0, 0) =~= Seq::<char>::empty());
            (0, 0)
        },
    }
}

} // verus!
