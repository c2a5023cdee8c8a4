//! What the rows of the viewer hold, told character by character.

use crate::diff;
use crate::diff::StepView;
use crate::render;
use crate::report_laws;
use crate::rows;
use crate::width;
use crate::width_laws;
use vstd::prelude::*;

verus! {

/// How wide the columns are in the viewer: as wide as their widest character up
/// to the last change of kind, and not padded at all past it.
pub open spec fn viewer_rooms(steps: Seq<StepView>) -> Seq<nat> {
    Seq::new(
        steps.len(),
        |i: int|
            if exists|j: int| i <= j && #[trigger] report_laws::kind_changes(steps, j) {
                width::column_width(steps[i].content)
            } else {
                0
            },
    )
}

proof fn lemma_room(steps: Seq<StepView>, i: int)
    requires
        0 <= i < steps.len(),
    ensures
        viewer_rooms(steps)[i] == rows::cell_room(steps, i),
        report_laws::kind_changes(steps, i) == diff::boundary(steps, i),
{
    if rows::before_cut(steps, i) {
        let j = choose|j: int| i <= j && #[trigger] diff::boundary(steps, j);
        assert(report_laws::kind_changes(steps, j));
    }
    if exists|j: int| i <= j && #[trigger] report_laws::kind_changes(steps, j) {
        let j = choose|j: int| i <= j && #[trigger] report_laws::kind_changes(steps, j);
        assert(diff::boundary(steps, j));
    }
}

proof fn lemma_line_laid_out(steps: Seq<StepView>, height: nat, r: int, k: int) -> (at: Seq<int>)
    requires
        diff::all_tall(steps, height),
        0 <= r < height,
        0 <= k <= steps.len(),
    ensures
        report_laws::laid_out(
            rows::line_to(steps, r, k),
            report_laws::line_of(steps, r).take(k),
            steps,
            viewer_rooms(steps),
            at,
        ),
    decreases k,
{
    let chars = report_laws::line_of(steps, r);
    if k == 0 {
        seq![0int]
    } else {
        let i = k - 1;
        let before = lemma_line_laid_out(steps, height, r, i);
        lemma_room(steps, i);
        assert(steps[i].content.len() == height);
        report_laws::lemma_one_cell_more(
            rows::line_to(steps, r, i),
            chars.take(i),
            steps,
            viewer_rooms(steps),
            before,
            chars[i],
        );
        assert(chars.take(i).push(chars[i]) =~= chars.take(k));
        before.push(rows::line_to(steps, r, k).len() as int)
    }
}

proof fn lemma_marks_laid_out(steps: Seq<StepView>, k: int) -> (at: Seq<int>)
    requires
        0 <= k <= steps.len(),
    ensures
        report_laws::laid_out(
            rows::marks_to(steps, k),
            report_laws::marks_of(steps, k),
            steps,
            viewer_rooms(steps),
            at,
        ),
    decreases k,
{
    if k == 0 {
        seq![0int]
    } else {
        let i = k - 1;
        let before = lemma_marks_laid_out(steps, i);
        lemma_room(steps, i);
        report_laws::lemma_one_cell_more(
            rows::marks_to(steps, i),
            report_laws::marks_of(steps, i),
            steps,
            viewer_rooms(steps),
            before,
            render::mark_of(steps[i].kind),
        );
        assert(report_laws::marks_of(steps, i).push(render::mark_of(steps[i].kind))
            =~= report_laws::marks_of(steps, k));
        before.push(rows::marks_to(steps, k).len() as int)
    }
}

/// Whether `row` is `marks` and then spaces only, as long as the widest of
/// `lines` is wide where `marks` is shorter.
pub open spec fn filled_up(row: Seq<char>, marks: Seq<char>, lines: Seq<Seq<char>>) -> bool {
    &&& marks.len() <= row.len()
    &&& row.take(marks.len() as int) == marks
    &&& forall|i: int| marks.len() <= i < row.len() ==> #[trigger] row[i] == ' '
    &&& forall|r: int|
        0 <= r < lines.len() ==> width::text_width(#[trigger] lines[r]) <= row.len()
    &&& row.len() == marks.len() || exists|r: int|
        0 <= r < lines.len() && width::text_width(#[trigger] lines[r]) == row.len()
}

/// The viewer shows one row of marks, filled up to the width of the widest file
/// line, and below it one row for each line of the grid, with what the steps
/// hold there.
pub proof fn law_viewer_rows(steps: Seq<StepView>, height: nat) -> (marks: Seq<char>)
    requires
        diff::all_tall(steps, height),
    ensures
        rows::display_rows(steps, height).len() == height + 1,
        report_laws::shows_chars(
            marks,
            report_laws::marks_of(steps, steps.len() as int),
            steps,
            viewer_rooms(steps),
        ),
        filled_up(
            rows::display_rows(steps, height)[0],
            marks,
            rows::display_rows(steps, height).skip(1),
        ),
        forall|r: int|
            0 <= r < height ==> report_laws::shows_chars(
                rows::display_rows(steps, height)[r + 1],
                #[trigger] report_laws::line_of(steps, r),
                steps,
                viewer_rooms(steps),
            ),
{
    let all = rows::display_rows(steps, height);
    let n = steps.len() as int;
    let marks = rows::marks_to(steps, n);
    let lines = rows::content_rows(steps, height);
    let at = lemma_marks_laid_out(steps, n);
    assert(report_laws::shows_chars(
        marks,
        report_laws::marks_of(steps, n),
        steps,
        viewer_rooms(steps),
    ));
    assert(all.skip(1) =~= lines);
    assert(all[0] == rows::padded_marks(steps, height));
    assert(all[0].take(marks.len() as int) =~= marks);
    width_laws::law_widest_row_is_the_widest(lines);
    assert forall|r: int| 0 <= r < height implies report_laws::shows_chars(
        all[r + 1],
        #[trigger] report_laws::line_of(steps, r),
        steps,
        viewer_rooms(steps),
    ) by {
        let at = lemma_line_laid_out(steps, height, r, n);
        assert(report_laws::line_of(steps, r).take(n) =~= report_laws::line_of(steps, r));
        assert(all[r + 1] == rows::line_to(steps, r, n));
    }
    marks
}

/// In the transposed view a step is one row: its mark, a space, and its column.
pub proof fn law_transposed_rows(steps: Seq<StepView>, i: int)
    requires
        0 <= i < steps.len(),
    ensures
        rows::step_rows(steps).len() == steps.len(),
        rows::step_rows(steps)[i] == seq![
            report_laws::marks_of(steps, steps.len() as int)[i],
            ' ',
        ] + steps[i].content,
{
}

/// Whether character `k` of `s` lies whole in the cells from `start` on that a
/// window of `max_width` cells has. One that takes no cell lies in it only
/// where it does not stand at the window's very start.
pub open spec fn lies_in(s: Seq<char>, start: nat, max_width: nat, k: int) -> bool {
    let from = width::cells(s.take(k));
    let to = width::cells(s.take(k + 1));
    0 <= k < s.len() && start <= from && start < to && to <= start + max_width
}

/// A window shows the characters that lie in it whole, all of them and no
/// others, and tells the cell at which the first of them starts.
pub proof fn law_window_shows_what_lies_in_it(s: Seq<char>, start: nat, max_width: nat) -> (r: (
    int,
    int,
))
    ensures
        0 <= r.0 <= r.1 <= s.len(),
        rows::window(s, start, max_width) == s.subrange(r.0, r.1),
        forall|k: int| #[trigger] lies_in(s, start, max_width, k) <==> r.0 <= k < r.1,
        rows::window_cell(s, start, max_width) == if r.0 < r.1 {
            width::cells(s.take(r.0))
        } else {
            start
        },
{
    let r = rows::law_window_is_one_piece(s, start, max_width);
    assert forall|k: int| #[trigger] lies_in(s, start, max_width, k) <==> r.0 <= k < r.1 by {
        assert(rows::shows(s, start, max_width, k) <==> r.0 <= k < r.1);
    }
    r
}

} // verus!
