//! Column-based (vertical) diff engine.
//!
//! The diff units are *columns*: the k-th character of every line of a file,
//! padded with spaces, emitted as a structured `DiffGrid`.

use crate::columns;
use crate::lcs;
use crate::lcs_laws;
use crate::text;
use crate::width;
use std::ops::Range;
use vstd::prelude::*;

verus! {

#[derive(Debug, Clone, Copy, PartialEq, Eq, Structural)]
pub enum StepKind {
    Match,
    Delete,
    Insert,
}

#[derive(Debug, PartialEq, Eq)]
pub struct Step {
    pub kind: StepKind,
    /// One character per file line, padded with spaces to the grid's height.
    pub content: String,
}

/// What a step says: its kind and the column that it is about.
#[verifier::ext_equal]
pub struct StepView {
    pub kind: StepKind,
    pub content: Seq<char>,
}

impl View for Step {
    type V = StepView;

    open spec fn view(&self) -> StepView {
        StepView { kind: self.kind, content: self.content@ }
    }
}

impl Clone for Step {
    fn clone(&self) -> (r: Self)
        ensures
            r == *self,
    {
        Step { kind: self.kind, content: self.content.clone() }
    }
}

/// What a sequence of steps says.
pub open spec fn step_views(steps: Seq<Step>) -> Seq<StepView> {
    steps.map_values(|s: Step| s@)
}

/// One step of the given kind for each column.
pub open spec fn all_of(kind: StepKind, columns: Seq<Seq<char>>) -> Seq<StepView> {
    columns.map_values(|c: Seq<char>| StepView { kind, content: c })
}

/// Appends one step of the given kind for each of `columns[from..to]`.
pub fn push_all(
    out: &mut Vec<Step>,
    kind: StepKind,
    columns: &[String],
    from: usize,
    to: usize,
)
    requires
        from <= to <= columns@.len(),
    ensures
        step_views(final(out)@) == step_views(old(out)@) + all_of(
            kind,
            text::texts(columns@).subrange(from as int, to as int),
        ),
{
    let mut i: usize = from;
    while i < to
        invariant
            from <= i <= to <= columns@.len(),
            step_views(out@) == step_views(old(out)@) + all_of(
                kind,
                text::texts(columns@).subrange(from as int, i as int),
            ),
        decreases to - i,
    {
        let ghost before = step_views(out@);
        out.push(Step { kind, content: columns[i].clone() });
        proof {
            assert(step_views(out@) =~= before.push(out@.last()@));
            let t = text::texts(columns@);
            assert(all_of(kind, t.subrange(from as int, i + 1)) =~= all_of(
                kind,
                t.subrange(from as int, i as int),
            ).push(StepView { kind, content: t[i as int] }));
        }
        i += 1;
    }
}

/// One diff step per file column.
#[derive(Debug, Clone, PartialEq, Eq)]
pub struct DiffGrid {
    pub steps: Vec<Step>,
    /// Line count of the longer of the two files; the content of every step
    /// is padded to this.
    pub height: usize,
    /// Runs of consecutive steps with the same kind. Used for the `|`
    /// separators, marker display, and navigation between changes.
    pub groups: Vec<Range<usize>>,
    /// True when the longest common subsequence was skipped (pathological
    /// widths); the middle columns are then all deletes and inserts.
    pub degraded: bool,
    /// Display width of each step's column, computed once. Every rendered row
    /// pads its cells to this.
    pub widths: Vec<usize>,
    /// `is_group_end[i]` is true when step `i` is the last step of a group.
    pub is_group_end: Vec<bool>,
}

/// Whether steps `i` and `i + 1` exist and differ in kind.
pub open spec fn boundary(steps: Seq<StepView>, i: int) -> bool {
    0 <= i && i + 1 < steps.len() && steps[i].kind != steps[i + 1].kind
}

/// Whether step `i` is the last of its run.
pub open spec fn ends_run(steps: Seq<StepView>, i: int) -> bool {
    i + 1 == steps.len() || boundary(steps, i)
}

/// Whether `groups` are the runs of equal kind that `steps` falls into: they
/// cover the steps without a gap, each is of one kind, and neighbours differ.
pub open spec fn is_grouping(steps: Seq<StepView>, groups: Seq<Range<usize>>) -> bool {
    &&& groups.len() == 0 <==> steps.len() == 0
    &&& groups.len() > 0 ==> groups.first().start == 0 && groups.last().end == steps.len()
    &&& forall|k: int|
        0 <= k < groups.len() ==> (#[trigger] groups[k]).start < groups[k].end <= steps.len()
    &&& forall|k: int, l: int|
        0 <= k && l == k + 1 && l < groups.len() ==> (#[trigger] groups[k]).end == (
        #[trigger] groups[l]).start
    &&& forall|k: int|
        0 <= k < groups.len() ==> ends_run(steps, (#[trigger] groups[k]).end - 1)
    &&& forall|k: int, i: int|
        0 <= k < groups.len() && groups[k].start <= i < groups[k].end ==> (
        #[trigger] steps[i]).kind == steps[(#[trigger] groups[k]).start as int].kind
}

impl DiffGrid {
    /// What the steps of the grid say.
    pub open spec fn view_steps(&self) -> Seq<StepView> {
        step_views(self.steps@)
    }

    /// Whether the derived fields are those of the steps.
    pub open spec fn wf(&self) -> bool {
        let steps = self.view_steps();
        &&& is_grouping(steps, self.groups@)
        &&& self.widths@.len() == steps.len()
        &&& forall|i: int|
            0 <= i < steps.len() ==> #[trigger] self.widths@[i] == width::column_width(
                steps[i].content,
            )
        &&& self.is_group_end@.len() == steps.len()
        &&& forall|i: int|
            0 <= i < steps.len() ==> #[trigger] self.is_group_end@[i] == ends_run(steps, i)
    }

    /// Whether every column has exactly one character per line.
    pub open spec fn rectangular(&self) -> bool {
        forall|i: int|
            0 <= i < self.steps@.len() ==> (#[trigger] self.view_steps()[i]).content.len()
                == self.height
    }

    /// Builds a grid from steps, deriving the group runs, the column widths,
    /// and the group-end flags.
    pub fn from_parts(steps: Vec<Step>, height: usize, degraded: bool) -> (r: DiffGrid)
        ensures
            r.steps == steps,
            r.height == height,
            r.degraded == degraded,
            r.wf(),
    {
        let groups = groups_of(&steps);
        let ghost views = step_views(steps@);
        let mut widths: Vec<usize> = Vec::new();
        let mut is_group_end: Vec<bool> = Vec::new();
        let mut i: usize = 0;
        while i < steps.len()
            invariant
                i <= steps.len(),
                views == step_views(steps@),
                widths.len() == i,
                is_group_end.len() == i,
                forall|x: int|
                    0 <= x < i ==> #[trigger] widths@[x] == width::column_width(views[x].content),
                forall|x: int| 0 <= x < i ==> #[trigger] is_group_end@[x] == ends_run(views, x),
            decreases steps.len() - i,
        {
            assert(views[i as int] == steps@[i as int]@);
            widths.push(step_width(&steps[i]));
            if i + 1 == steps.len() {
                is_group_end.push(true);
            } else {
                assert(views[i + 1] == steps@[i + 1]@);
                is_group_end.push(steps[i].kind != steps[i + 1].kind);
            }
            i += 1;
        }
        DiffGrid { steps, height, groups, degraded, widths, is_group_end }
    }
}

/// Runs of consecutive steps with the same kind.
pub fn groups_of(ops: &Vec<Step>) -> (r: Vec<Range<usize>>)
    ensures
        is_grouping(step_views(ops@), r@),
{
    let ghost views = step_views(ops@);
    let mut groups: Vec<Range<usize>> = Vec::new();
    let mut start: usize = 0;
    let mut i: usize = 0;
    while i < ops.len()
        invariant
            views == step_views(ops@),
            start <= i <= ops.len(),
            i == ops.len() ==> start == i,
            i < ops.len() ==> views[i as int].kind == views[start as int].kind,
            groups@.len() == 0 <==> start == 0,
            groups@.len() > 0 ==> groups@.first().start == 0 && groups@.last().end == start,
            forall|k: int|
                0 <= k < groups@.len() ==> (#[trigger] groups@[k]).start < groups@[k].end <= start,
            forall|k: int, l: int|
                0 <= k && l == k + 1 && l < groups@.len() ==> (#[trigger] groups@[k]).end == (
                #[trigger] groups@[l]).start,
            forall|k: int|
                0 <= k < groups@.len() ==> ends_run(views, (#[trigger] groups@[k]).end - 1),
            forall|k: int, x: int|
                0 <= k < groups@.len() && groups@[k].start <= x < groups@[k].end ==> (
                #[trigger] views[x]).kind == views[(#[trigger] groups@[k]).start as int].kind,
            forall|x: int|
                start <= x < i ==> (#[trigger] views[x]).kind == views[start as int].kind,
        decreases ops.len() - i,
    {
        assert(views[start as int] == ops@[start as int]@);
        assert(views[i as int] == ops@[i as int]@);
        i += 1;
        let cut = if i == ops.len() {
            true
        } else {
            assert(views[i as int] == ops@[i as int]@);
            ops[i].kind != ops[start].kind
        };
        if cut {
            groups.push(Range { start, end: i });
            start = i;
        }
    }
    groups
}

/// Display width of one step's column: its widest character, at least one
/// cell. Every rendered row pads its cells to this, so that the `|` separators
/// line up.
pub fn step_width(step: &Step) -> (r: usize)
    ensures
        r == width::column_width(step.content@),
{
    width::width_of_column(step.content.as_str())
}

/// The glyph that stands for a line feed at the end of a file.
pub const NEWLINE_GLYPH: char = '\u{21b5}';

/// The number of rows that the grid of two files has.
pub open spec fn grid_height(a: Seq<char>, b: Seq<char>) -> nat {
    text::larger(columns::file_lines(a).len(), columns::file_lines(b).len())
}

/// The columns of file `a` in a grid with file `b`.
pub open spec fn grid_columns(a: Seq<char>, b: Seq<char>) -> Seq<Seq<char>> {
    columns::columns_of(columns::file_lines(a), grid_height(a, b))
}

/// A column with the newline glyph in line `row` and spaces elsewhere.
pub open spec fn newline_column(row: int, height: nat) -> Seq<char> {
    Seq::new(
        height,
        |r: int|
            if r == row {
                NEWLINE_GLYPH
            } else {
                ' '
            },
    )
}

/// The step that reports a line feed at the end of one file only: deleted
/// where the old file has it, inserted where the new file has it. An empty
/// file has no last line whose end could be missing.
pub open spec fn newline_mark(a: Seq<char>, b: Seq<char>) -> Seq<StepView> {
    if a.len() == 0 || b.len() == 0 || columns::ends_line(a) == columns::ends_line(b) {
        Seq::empty()
    } else if columns::ends_line(a) {
        seq![
            StepView {
                kind: StepKind::Delete,
                content: newline_column(columns::file_lines(a).len() - 1, grid_height(a, b)),
            },
        ]
    } else {
        seq![
            StepView {
                kind: StepKind::Insert,
                content: newline_column(columns::file_lines(b).len() - 1, grid_height(a, b)),
            },
        ]
    }
}

/// The steps from file `a` to file `b`.
pub open spec fn grid_steps(a: Seq<char>, b: Seq<char>) -> Seq<StepView> {
    lcs::column_diff(grid_columns(a, b), grid_columns(b, a)) + newline_mark(a, b)
}

/// Whether every step has a column of `height` characters.
pub open spec fn all_tall(steps: Seq<StepView>, height: nat) -> bool {
    forall|i: int| 0 <= i < steps.len() ==> (#[trigger] steps[i]).content.len() == height
}

proof fn lemma_edits_tall(
    a: Seq<Seq<char>>,
    b: Seq<Seq<char>>,
    i: int,
    j: int,
    height: nat,
)
    requires
        0 <= i <= a.len(),
        0 <= j <= b.len(),
        forall|x: int| 0 <= x < a.len() ==> (#[trigger] a[x]).len() == height,
        forall|x: int| 0 <= x < b.len() ==> (#[trigger] b[x]).len() == height,
    ensures
        all_tall(lcs::edits(a, b, i, j), height),
    decreases a.len() - i + b.len() - j,
{
    if i < a.len() {
        lemma_edits_tall(a, b, i + 1, j, height);
    }
    if j < b.len() {
        lemma_edits_tall(a, b, i, j + 1, height);
    }
    if i < a.len() && j < b.len() {
        lemma_edits_tall(a, b, i + 1, j + 1, height);
    }
}

proof fn lemma_diff_tall(a: Seq<Seq<char>>, b: Seq<Seq<char>>, height: nat)
    requires
        forall|x: int| 0 <= x < a.len() ==> (#[trigger] a[x]).len() == height,
        forall|x: int| 0 <= x < b.len() ==> (#[trigger] b[x]).len() == height,
    ensures
        all_tall(lcs::column_diff(a, b), height),
{
    lcs::lemma_prefix_bound(a, b);
    let p = lcs::common_prefix(a, b) as int;
    lcs::lemma_suffix_bound(a.skip(p), b.skip(p));
    let ma = lcs::middle(a, b);
    let mb = lcs::middle(b, a);
    assert forall|x: int| 0 <= x < ma.len() implies (#[trigger] ma[x]).len() == height by {
        assert(ma[x] == a[p + x]);
    }
    assert forall|x: int| 0 <= x < mb.len() implies (#[trigger] mb[x]).len() == height by {
        assert(mb[x] == b[p + x]);
    }
    let end = lcs::shared_end(a, b);
    assert forall|x: int| 0 <= x < end.len() implies (#[trigger] end[x]).len() == height by {
        assert(end[x] == a[a.len() - end.len() + x]);
    }
    lemma_edits_tall(ma, mb, 0, 0, height);
}

/// Whether `s` ends with a line feed.
fn ends_with_newline(s: &str) -> (r: bool)
    ensures
        r == columns::ends_line(s@),
{
    let chars = text::chars_of(s);
    chars.len() > 0 && chars[chars.len() - 1] == '\n'
}

/// A column with the newline glyph in line `row`.
fn newline_text(row: usize, height: usize) -> (r: String)
    ensures
        r@ == newline_column(row as int, height as nat),
{
    let mut r = String::new();
    let mut i: usize = 0;
    while i < height
        invariant
            i <= height,
            r@ == newline_column(row as int, i as nat),
        decreases height - i,
    {
        if i == row {
            r.push(NEWLINE_GLYPH);
        } else {
            r.push(' ');
        }
        assert(r@ =~= newline_column(row as int, (i + 1) as nat));
        i += 1;
    }
    r
}

/// Appends the step that reports a line feed at the end of one file only.
fn push_newline_mark(
    steps: &mut Vec<Step>,
    a: &str,
    b: &str,
    a_lines: usize,
    b_lines: usize,
    height: usize,
)
    requires
        a_lines == columns::file_lines(a@).len(),
        b_lines == columns::file_lines(b@).len(),
        height == grid_height(a@, b@),
    ensures
        step_views(final(steps)@) == step_views(old(steps)@) + newline_mark(a@, b@),
{
    let ghost before = step_views(steps@);
    let a_ends = ends_with_newline(a);
    let b_ends = ends_with_newline(b);
    if !a.is_empty() && !b.is_empty() && a_ends != b_ends {
        proof {
            columns::lemma_some_line(a@);
            columns::lemma_some_line(b@);
        }
        if a_ends {
            steps.push(
                Step { kind: StepKind::Delete, content: newline_text(a_lines - 1, height) },
            );
        } else {
            steps.push(
                Step { kind: StepKind::Insert, content: newline_text(b_lines - 1, height) },
            );
        }
        assert(step_views(steps@) =~= before.push(steps@.last()@));
        assert(step_views(steps@) =~= before + newline_mark(a@, b@));
    } else {
        assert(before + newline_mark(a@, b@) =~= before);
    }
}

/// Computes the column diff of two file contents (carriage returns stripped,
/// tabs expanded). A line feed at the end of one file only is reported as a
/// step of its own, past the columns.
pub fn compute(a: &str, b: &str) -> (r: DiffGrid)
    ensures
        r.view_steps() == grid_steps(a@, b@),
        r.height == grid_height(a@, b@),
        r.degraded == lcs::too_wide(grid_columns(a@, b@), grid_columns(b@, a@)),
        r.wf(),
        r.rectangular(),
{
    let a_lines = columns::compared_lines(a);
    let b_lines = columns::compared_lines(b);
    assert(text::texts(a_lines@).len() == a_lines@.len());
    assert(text::texts(b_lines@).len() == b_lines@.len());
    let height: usize = if a_lines.len() >= b_lines.len() {
        a_lines.len()
    } else {
        b_lines.len()
    };
    let a_cols = columns::columns_padded(a_lines.as_slice(), height);
    let ghost ca = grid_columns(a@, b@);
    let ghost cb = grid_columns(b@, a@);
    proof {
        lemma_diff_tall(ca, cb, height as nat);
    }
    // Identical inputs are the common case; build the all-match grid straight
    // from the columns instead of diffing.
    if text::same_text(a, b) {
        let mut steps: Vec<Step> = Vec::new();
        push_all(&mut steps, StepKind::Match, a_cols.as_slice(), 0, a_cols.len());
        proof {
            lcs_laws::law_diff_of_same(ca);
            assert(text::texts(a_cols@).subrange(0, a_cols@.len() as int) =~= ca);
            assert(step_views(steps@) =~= grid_steps(a@, b@));
        }
        return DiffGrid::from_parts(steps, height, false);
    }
    let b_cols = columns::columns_padded(b_lines.as_slice(), height);
    let (mut steps, degraded) = lcs::diff_columns(a_cols.as_slice(), b_cols.as_slice());
    push_newline_mark(&mut steps, a, b, a_lines.len(), b_lines.len(), height);
    DiffGrid::from_parts(steps, height, degraded)
}

} // verus!
