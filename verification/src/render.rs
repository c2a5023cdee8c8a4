//! Plain-text views of a diff grid.

use crate::columns;
use crate::diff;
use crate::diff::{DiffGrid, Step, StepKind, StepView};
use crate::text;
use crate::text::CharSet;
use crate::width;
use vstd::prelude::*;

verus! {

/// The mark of a step: a space, `-` or `+`.
pub open spec fn mark_of(kind: StepKind) -> char {
    match kind {
        StepKind::Match => ' ',
        StepKind::Delete => '-',
        StepKind::Insert => '+',
    }
}

/// A step as one line: its mark, then its column padded to `height`.
pub open spec fn step_line(step: StepView, height: nat) -> Seq<char> {
    seq![mark_of(step.kind)] + step.content + text::spaces(
        text::minus(height, step.content.len()),
    )
}

/// The steps as lines.
pub open spec fn step_lines(steps: Seq<StepView>, height: nat) -> Seq<Seq<char>> {
    steps.map_values(|s: StepView| step_line(s, height))
}

/// The rows of the text view, one character per step: first the marks, then
/// the lines of the file.
pub open spec fn view_rows(steps: Seq<StepView>, height: nat) -> Seq<Seq<char>> {
    columns::columns_of(step_lines(steps, height), 0)
}

/// For each step but the last, whether the next one differs in kind.
pub open spec fn boundaries_of(steps: Seq<StepView>) -> Seq<bool> {
    Seq::new(text::minus(steps.len(), 1), |i: int| diff::boundary(steps, i))
}

/// Whether `flags` holds true at `i`; false past the end.
pub open spec fn flag_at(flags: Seq<bool>, i: int) -> bool {
    0 <= i < flags.len() && flags[i]
}

/// The width at `i`; one past the end.
pub open spec fn width_at(widths: Seq<usize>, i: int) -> nat {
    if 0 <= i < widths.len() {
        widths[i] as nat
    } else {
        1
    }
}

/// One cell: the character, padded to the column's width, and the separator
/// where one follows.
pub open spec fn cell_text(c: char, col_w: nat, separator: bool) -> Seq<char> {
    let cell = seq![c] + text::spaces(width::padding(c, col_w));
    if separator {
        cell.push('|')
    } else {
        cell
    }
}

/// The first `k` cells of `row`, with a separator after each one that
/// `boundaries` flags unless it is the last of the row.
pub open spec fn cells_to(
    row: Seq<char>,
    boundaries: Seq<bool>,
    widths: Seq<usize>,
    k: int,
) -> Seq<char>
    decreases k,
{
    if k <= 0 {
        Seq::empty()
    } else {
        cells_to(row, boundaries, widths, k - 1) + cell_text(
            row[k - 1],
            width_at(widths, k - 1),
            k < row.len() && flag_at(boundaries, k - 1),
        )
    }
}

/// `row` with every cell padded to its column's width and a `|` after each
/// flagged cell but the last.
pub open spec fn separated(
    row: Seq<char>,
    boundaries: Seq<bool>,
    widths: Seq<usize>,
) -> Seq<char> {
    cells_to(row, boundaries, widths, row.len() as int)
}

/// The marker row: the marks without the trailing spaces; where that cut
/// something off, a `|` stands for the separator before it.
pub open spec fn marker_row(
    row: Seq<char>,
    boundaries: Seq<bool>,
    widths: Seq<usize>,
) -> Seq<char> {
    let marks = text::trim_end(row, CharSet::One(' '));
    let shown = separated(marks, boundaries, widths);
    if shown.len() > 0 && marks.len() < row.len() {
        shown.push('|')
    } else {
        shown
    }
}

/// `s` with a line feed, unless it is empty.
pub open spec fn as_line(s: Seq<char>) -> Seq<char> {
    if s.len() > 0 {
        s.push('\n')
    } else {
        s
    }
}

/// The file lines of the text view.
pub open spec fn body_rows(
    rows: Seq<Seq<char>>,
    boundaries: Seq<bool>,
    widths: Seq<usize>,
) -> Seq<Seq<char>> {
    rows.skip(1).map_values(|row: Seq<char>| separated(row, boundaries, widths))
}

/// The text view: the marker row, unless it is empty, and the file lines.
pub open spec fn text_view(steps: Seq<StepView>, height: nat, widths: Seq<usize>) -> Seq<char> {
    let rows = view_rows(steps, height);
    let boundaries = boundaries_of(steps);
    if rows.len() == 0 {
        Seq::empty()
    } else {
        as_line(
            as_line(marker_row(rows[0], boundaries, widths)) + text::join_with(
                body_rows(rows, boundaries, widths),
                seq!['\n'],
            ),
        )
    }
}

/// The raw step view: one line per step, mark, space and column.
pub open spec fn stacked_view(steps: Seq<StepView>) -> Seq<char>
    decreases steps.len(),
{
    if steps.len() == 0 {
        Seq::empty()
    } else {
        stacked_view(steps.drop_last()) + seq![mark_of(steps.last().kind), ' ']
            + steps.last().content + seq!['\n']
    }
}

/// The mark of a step.
pub fn op_prefix(kind: StepKind) -> (r: char)
    ensures
        r == mark_of(kind),
{
    match kind {
        StepKind::Match => ' ',
        StepKind::Delete => '-',
        StepKind::Insert => '+',
    }
}

/// The lines of `grid` read downwards.
pub fn transpose_grid(grid: &[String]) -> (r: Vec<String>)
    ensures
        text::texts(r@) == columns::columns_of(text::texts(grid@), 0),
{
    columns::columns_padded(grid, 0)
}

/// Inserts `|` after each step flagged in `boundaries`, padding every cell to
/// its step column's display width, so that each column occupies the same
/// cells in every row and separators line up across rows. No separator trails:
/// a trimmed marker row may end before the last step.
pub fn separate_ops(row: &str, boundaries: &Vec<bool>, widths: &Vec<usize>) -> (r: String)
    ensures
        r@ == separated(row@, boundaries@, widths@),
{
    let chars = text::chars_of(row);
    let mut out = String::new();
    let mut i: usize = 0;
    while i < chars.len()
        invariant
            i <= chars.len(),
            chars@ == row@,
            out@ == cells_to(row@, boundaries@, widths@, i as int),
        decreases chars.len() - i,
    {
        let ghost before = out@;
        let c = chars[i];
        let cell: usize = if i < widths.len() {
            widths[i]
        } else {
            1
        };
        out.push(c);
        text::push_spaces(&mut out, width::cell_pad(c, cell));
        let flagged = i < boundaries.len() && boundaries[i];
        if i + 1 < chars.len() && flagged {
            out.push('|');
        }
        assert(out@ =~= before + cell_text(
            row@[i as int],
            width_at(widths@, i as int),
            i + 1 < row@.len() && flag_at(boundaries@, i as int),
        ));
        i += 1;
    }
    out
}

/// One step as a line.
fn line_of_step(step: &Step, height: usize) -> (r: String)
    ensures
        r@ == step_line(step@, height as nat),
{
    let mut line = String::new();
    line.push(op_prefix(step.kind));
    line.append(step.content.as_str());
    let n: usize = step.content.as_str().unicode_len();
    text::push_spaces(&mut line, height.saturating_sub(n));
    assert(line@ =~= step_line(step@, height as nat));
    line
}

/// For each step but the last, whether the next one differs in kind.
fn find_boundaries(steps: &Vec<Step>) -> (r: Vec<bool>)
    ensures
        r@ == boundaries_of(diff::step_views(steps@)),
{
    let ghost views = diff::step_views(steps@);
    let mut r: Vec<bool> = Vec::new();
    let mut i: usize = 1;
    while i < steps.len()
        invariant
            1 <= i,
            i <= steps.len() || i == 1,
            views == diff::step_views(steps@),
            r@.len() == i - 1,
            forall|x: int| 0 <= x < i - 1 ==> #[trigger] r@[x] == diff::boundary(views, x),
        decreases steps.len() - i,
    {
        assert(views[i - 1] == steps@[i - 1]@);
        assert(views[i as int] == steps@[i as int]@);
        r.push(steps[i - 1].kind != steps[i].kind);
        i += 1;
    }
    assert(r@ =~= boundaries_of(views));
    r
}

/// The plain-text view: marker row (trailing match markers trimmed, trailing
/// `|` kept) followed by the file lines with `|` separators between groups.
/// Empty when the grid has no steps.
pub fn render_text(grid: &DiffGrid) -> (r: String)
    ensures
        r@ == text_view(grid.view_steps(), grid.height as nat, grid.widths@),
        grid.steps@.len() == 0 ==> r@.len() == 0,
{
    let ghost steps = grid.view_steps();
    let ghost height = grid.height as nat;
    let mut lines: Vec<String> = Vec::new();
    let mut i: usize = 0;
    while i < grid.steps.len()
        invariant
            i <= grid.steps.len(),
            steps == grid.view_steps(),
            height == grid.height,
            lines@.len() == i,
            forall|x: int| 0 <= x < i ==> (#[trigger] lines@[x])@ == step_line(steps[x], height),
        decreases grid.steps.len() - i,
    {
        assert(steps[i as int] == grid.steps@[i as int]@);
        lines.push(line_of_step(&grid.steps[i], grid.height));
        i += 1;
    }
    assert(text::texts(lines@) =~= step_lines(steps, height));
    let transposed = transpose_grid(lines.as_slice());
    let ghost rows = view_rows(steps, height);
    assert(text::texts(transposed@).len() == transposed@.len());
    let boundaries = find_boundaries(&grid.steps);
    let ghost bs = boundaries@;
    let ghost ws = grid.widths@;
    if transposed.len() == 0 {
        return String::new();
    }
    assert(rows[0] == transposed@[0]@);
    let row = transposed[0].as_str();
    let marks = text::trimmed_end(row, CharSet::One(' '));
    let mut marker = separate_ops(marks.as_str(), &boundaries, &grid.widths);
    if !marker.as_str().is_empty() && marks.as_str().unicode_len() < row.unicode_len() {
        marker.push('|');
    }
    let mut body: Vec<String> = Vec::new();
    let mut k: usize = 1;
    while k < transposed.len()
        invariant
            1 <= k <= transposed.len(),
            rows == text::texts(transposed@),
            bs == boundaries@,
            ws == grid.widths@,
            body@.len() == k - 1,
            forall|x: int|
                0 <= x < k - 1 ==> (#[trigger] body@[x])@ == separated(rows[x + 1], bs, ws),
        decreases transposed.len() - k,
    {
        assert(rows[k as int] == transposed@[k as int]@);
        body.push(separate_ops(transposed[k].as_str(), &boundaries, &grid.widths));
        k += 1;
    }
    assert(text::texts(body@) =~= body_rows(rows, bs, ws));
    let mut out = String::new();
    if !marker.as_str().is_empty() {
        out.append(marker.as_str());
        out.push('\n');
    }
    assert(out@ =~= as_line(marker_row(rows[0], bs, ws)));
    let ghost head = out@;
    let rest = text::join_texts(&body, "\n");
    proof {
        reveal_strlit("\n");
        assert("\n"@ =~= seq!['\n']);
    }
    out.append(rest.as_str());
    if !out.as_str().is_empty() {
        out.push('\n');
    }
    out
}

/// The raw step view: one row per diff step, its mark, a space, and the column
/// content (one character per file line).
pub fn render_transposed(grid: &DiffGrid) -> (r: String)
    ensures
        r@ == stacked_view(grid.view_steps()),
{
    let ghost steps = grid.view_steps();
    let mut out = String::new();
    let mut i: usize = 0;
    assert(steps.take(0) =~= Seq::<StepView>::empty());
    while i < grid.steps.len()
        invariant
            i <= grid.steps.len(),
            steps == grid.view_steps(),
            out@ == stacked_view(steps.take(i as int)),
        decreases grid.steps.len() - i,
    {
        let step = &grid.steps[i];
        let ghost before = out@;
        proof {
            assert(steps[i as int] == step@);
            assert(steps.take(i + 1).drop_last() =~= steps.take(i as int));
            assert(steps.take(i + 1).last() == step@);
        }
        out.push(op_prefix(step.kind));
        out.push(' ');
        out.append(step.content.as_str());
        out.push('\n');
        assert(out@ =~= before + seq![mark_of(step@.kind), ' '] + step@.content + seq!['\n']);
        i += 1;
    }
    assert(steps.take(i as int) =~= steps);
    out
}

} // verus!
