//! From the text of a file to its grid, told character by character.

use crate::columns;
use crate::diff;
use crate::diff::{StepKind, StepView};
use crate::grid_laws;
use crate::lcs;
use crate::lcs_laws;
use crate::report_laws;
use crate::text;
use crate::text::CharSet;
use crate::text_laws;
use crate::width;
use vstd::prelude::*;

verus! {

/// The cells that a text without tabs takes on a terminal, a control character
/// counting as one cell.
pub open spec fn cursor(s: Seq<char>) -> nat
    decreases s.len(),
{
    if s.len() == 0 {
        0
    } else {
        cursor(s.drop_last()) + match width::char_width(s.last()) {
            Some(w) => w as nat,
            None => 1,
        }
    }
}

/// Whether `out` is `line` with each tab replaced by spaces up to the next
/// multiple of eight cells: character `i` of `line` starts at place `at[i]` of
/// `out`.
pub open spec fn tabs_out(line: Seq<char>, out: Seq<char>, at: Seq<int>) -> bool {
    &&& at.len() == line.len() + 1
    &&& at[0] == 0
    &&& at[line.len() as int] == out.len()
    &&& forall|i: int|
        0 <= i < line.len() ==> {
            &&& 0 <= #[trigger] at[i] < at[i + 1] <= out.len()
            &&& line[i] != '\t' ==> at[i + 1] == at[i] + 1 && out[at[i]] == line[i]
            &&& line[i] == '\t' ==> at[i + 1] <= at[i] + 8 && cursor(out.take(at[i + 1])) % 8 == 0
                && forall|j: int| at[i] <= j < at[i + 1] ==> #[trigger] out[j] == ' '
        }
}

proof fn lemma_cursor(s: Seq<char>)
    requires
        text_laws::free_of(s, '\t'),
        text_laws::free_of(s, '\n'),
    ensures
        columns::column_after(s) == cursor(s),
    decreases s.len(),
{
    if s.len() > 0 {
        let rest = s.drop_last();
        assert forall|i: int| 0 <= i < rest.len() implies #[trigger] rest[i] != '\t' by {
            assert(rest[i] == s[i]);
        }
        assert forall|i: int| 0 <= i < rest.len() implies #[trigger] rest[i] != '\n' by {
            assert(rest[i] == s[i]);
        }
        lemma_cursor(rest);
        assert(s[s.len() - 1] != '\t' && s[s.len() - 1] != '\n');
    }
}

proof fn lemma_no_break_in_expanded(line: Seq<char>)
    requires
        text_laws::free_of(line, '\n'),
    ensures
        text_laws::free_of(columns::expanded(line), '\n'),
    decreases line.len(),
{
    if line.len() > 0 {
        let rest = line.drop_last();
        assert forall|i: int| 0 <= i < rest.len() implies #[trigger] rest[i] != '\n' by {
            assert(rest[i] == line[i]);
        }
        lemma_no_break_in_expanded(rest);
        assert(line[line.len() - 1] != '\n');
    }
}

/// In a line each tab gives way to the spaces up to the next multiple of eight
/// cells, and all else stays.
pub proof fn law_tabs_reach_the_next_stop(line: Seq<char>) -> (at: Seq<int>)
    requires
        text_laws::free_of(line, '\n'),
    ensures
        tabs_out(line, columns::expanded(line), at),
    decreases line.len(),
{
    let out = columns::expanded(line);
    if line.len() == 0 {
        seq![0int]
    } else {
        let rest = line.drop_last();
        assert forall|i: int| 0 <= i < rest.len() implies #[trigger] rest[i] != '\n' by {
            assert(rest[i] == line[i]);
        }
        let before = law_tabs_reach_the_next_stop(rest);
        let head = columns::expanded(rest);
        let at = before.push(out.len() as int);
        let n = rest.len() as int;
        lemma_no_break_in_expanded(line);
        grid_laws::law_no_tab_is_left(line);
        lemma_cursor(out);
        grid_laws::law_expansion_keeps_columns(line);
        assert(out.take(out.len() as int) =~= out);
        assert forall|i: int| 0 <= i < line.len() implies {
            &&& 0 <= #[trigger] at[i] < at[i + 1] <= out.len()
            &&& line[i] != '\t' ==> at[i + 1] == at[i] + 1 && out[at[i]] == line[i]
            &&& line[i] == '\t' ==> at[i + 1] <= at[i] + 8 && cursor(out.take(at[i + 1])) % 8 == 0
                && forall|j: int| at[i] <= j < at[i + 1] ==> #[trigger] out[j] == ' '
        } by {
            if i < n {
                assert(at[i] == before[i] && at[i + 1] == before[i + 1]);
                assert(rest[i] == line[i]);
                assert(out.take(at[i + 1]) =~= head.take(at[i + 1]));
                assert forall|j: int| at[i] <= j < at[i + 1] implies out[j] == head[j] by {}
            } else {
                assert(at[i] == head.len());
            }
        }
        at
    }
}

/// Splitting and expanding go line by line.
proof fn lemma_expanded_pieces(t: Seq<char>)
    ensures
        text::split_on(columns::expanded(t), '\n').len() == text::split_on(t, '\n').len(),
        text::split_on(t, '\n').len() >= 1,
        forall|r: int|
            0 <= r < text::split_on(t, '\n').len() ==> #[trigger] text::split_on(
                columns::expanded(t),
                '\n',
            )[r] == columns::expanded(text::split_on(t, '\n')[r]),
        columns::column_after(t) == columns::column_after(text::split_on(t, '\n').last()),
    decreases t.len(),
{
    let x = text::split_on(columns::expanded(t), '\n');
    let y = text::split_on(t, '\n');
    if t.len() == 0 {
        assert(columns::expanded(Seq::<char>::empty()) =~= Seq::<char>::empty());
    } else {
        let p = t.drop_last();
        let e = columns::expanded(p);
        lemma_expanded_pieces(p);
        let hx = text::split_on(e, '\n');
        let hy = text::split_on(p, '\n');
        let n = hy.len() - 1;
        assert(hx[n] == columns::expanded(hy[n]));
        if t.last() == '\t' {
            let fill = text::spaces(columns::tab_fill(p));
            text_laws::lemma_split_more(e, fill, '\n');
            assert(hy[n].push('\t').drop_last() =~= hy[n]);
            assert(columns::expanded(hy[n].push('\t')) == hx[n] + fill);
        } else if t.last() == '\n' {
            assert(columns::expanded(t).drop_last() =~= e);
            assert(columns::expanded(Seq::<char>::empty()) =~= Seq::<char>::empty());
        } else {
            assert(columns::expanded(t).drop_last() =~= e);
            assert(hy[n].push(t.last()).drop_last() =~= hy[n]);
        }
        assert forall|r: int| 0 <= r < y.len() implies #[trigger] x[r] == columns::expanded(
            y[r],
        ) by {
            if r < n {
                assert(x[r] == hx[r]);
                assert(y[r] == hy[r]);
            }
        }
    }
}

/// Whether `t` is `s` without the carriage returns at its end.
pub open spec fn without_returns(t: Seq<char>, s: Seq<char>) -> bool {
    &&& t.len() <= s.len()
    &&& t == s.take(t.len() as int)
    &&& forall|i: int| t.len() <= i < s.len() ==> #[trigger] s[i] == '\r'
    &&& t.len() > 0 ==> t.last() != '\r'
}

/// Whether `line` is `raw` with its tabs expanded, but for the carriage returns
/// at its end.
pub open spec fn compared_as(raw: Seq<char>, line: Seq<char>) -> bool {
    exists|out: Seq<char>, at: Seq<int>| #[trigger]
        tabs_out(raw, out, at) && without_returns(line, out)
}

/// A text falls into the pieces that its line feeds end, the last of which may
/// lack its line feed; each piece is compared with its tabs expanded and without
/// the carriage returns at its end.
pub proof fn law_text_falls_into_lines(s: Seq<char>) -> (raw: Seq<Seq<char>>)
    ensures
        report_laws::as_lines(raw) == if s.len() == 0 || s.last() == '\n' {
            s
        } else {
            s.push('\n')
        },
        forall|r: int| 0 <= r < raw.len() ==> text_laws::free_of(#[trigger] raw[r], '\n'),
        columns::file_lines(s).len() == raw.len(),
        forall|r: int|
            0 <= r < raw.len() ==> compared_as(#[trigger] raw[r], columns::file_lines(s)[r]),
{
    let raw = columns::lines_of(s);
    let t = columns::expanded(s);
    let lines = columns::file_lines(s);
    if s.len() == 0 {
        assert(report_laws::as_lines(raw) =~= s);
        raw
    } else {
        let body = columns::body_of(s);
        text_laws::law_pieces_stand_in_order(body, '\n');
        assert(s.last() == '\n' ==> body.push('\n') =~= s);
        lemma_expanded_pieces(body);
        let p = s.drop_last();
        assert(t.len() > 0 && columns::body_of(t) == columns::expanded(body)) by {
            if s.last() == '\n' {
                assert(t =~= columns::expanded(p).push('\n'));
                assert(t.drop_last() =~= columns::expanded(p));
            } else {
                assert(t.last() != '\n');
            }
        }
        assert forall|r: int| 0 <= r < raw.len() implies text_laws::free_of(
            #[trigger] raw[r],
            '\n',
        ) && compared_as(raw[r], lines[r]) by {
            text_laws::law_pieces_hold_no_separator(body, '\n', r);
            let at = law_tabs_reach_the_next_stop(raw[r]);
            let out = columns::expanded(raw[r]);
            assert(columns::lines_of(t)[r] == out);
            assert(lines[r] == text::trim_end(out, CharSet::One('\r')));
            text_laws::law_trim_end_cuts_the_suffix(out, CharSet::One('\r'));
            assert forall|i: int| lines[r].len() <= i < out.len() implies #[trigger] out[i]
                == '\r' by {
                assert(CharSet::One('\r').holds(out[i]));
            }
            assert(without_returns(lines[r], out));
            assert(tabs_out(raw[r], out, at));
        }
        raw
    }
}

/// Whether `cols` are the columns of `lines` in a grid of `height` rows: as many
/// as the longest line has characters, and in row `r` of column `k` character
/// `k` of line `r`, or a space where there is none.
pub open spec fn are_columns(cols: Seq<Seq<char>>, lines: Seq<Seq<char>>, height: nat) -> bool {
    &&& forall|r: int| 0 <= r < lines.len() ==> (#[trigger] lines[r]).len() <= cols.len()
    &&& cols.len() == 0 || exists|r: int|
        0 <= r < lines.len() && (#[trigger] lines[r]).len() == cols.len()
    &&& forall|k: int| 0 <= k < cols.len() ==> (#[trigger] cols[k]).len() == height
    &&& forall|k: int, r: int|
        #![trigger cols[k][r]]
        0 <= k < cols.len() && 0 <= r < height ==> cols[k][r] == if r < lines.len() && k
            < lines[r].len() {
            lines[r][k]
        } else {
            ' '
        }
}

/// The columns of lines.
proof fn lemma_are_columns(lines: Seq<Seq<char>>, height: nat)
    ensures
        are_columns(
            columns::columns_of(lines, height),
            lines,
            if lines.len() >= height {
                lines.len()
            } else {
                height
            },
        ),
{
    let cols = columns::columns_of(lines, height);
    assert forall|r: int| 0 <= r < lines.len() implies (#[trigger] lines[r]).len()
        <= cols.len() by {
        grid_laws::lemma_longest(lines, r);
    }
    if cols.len() > 0 {
        let r = text_laws::lemma_some_longest(lines);
        assert(lines[r].len() == cols.len());
    }
}

/// The height of the grid of two texts.
pub open spec fn rows_of(a: Seq<char>, b: Seq<char>) -> nat {
    if report_laws::line_count(a) >= report_laws::line_count(b) {
        report_laws::line_count(a)
    } else {
        report_laws::line_count(b)
    }
}

/// Whether `step` reports a line feed that only one of two texts ends with:
/// deleted where it is the old one, inserted where it is the new one, by the
/// newline glyph in the last line of that text and spaces elsewhere.
pub open spec fn reports_newline(step: StepView, a: Seq<char>, b: Seq<char>) -> bool {
    let (kind, last) = if a.last() == '\n' {
        (StepKind::Delete, report_laws::line_count(a) - 1)
    } else {
        (StepKind::Insert, report_laws::line_count(b) - 1)
    };
    &&& step.kind == kind
    &&& step.content.len() == rows_of(a, b)
    &&& 0 <= last < rows_of(a, b)
    &&& forall|r: int|
        0 <= r < step.content.len() ==> #[trigger] step.content[r] == if r == last {
            '\u{21b5}'
        } else {
            ' '
        }
}

/// The grid of two texts is as high as the longer one has lines. What it matches
/// or deletes are the columns of the old text, what it matches or inserts those
/// of the new text, and as many match as any common subsequence has columns,
/// unless the middles are too wide. Past them one more step stands where only
/// one of the texts ends with a line feed, and none otherwise.
pub proof fn law_grid_is_made_of_the_columns(a: Seq<char>, b: Seq<char>) -> (steps: Seq<StepView>)
    ensures
        diff::grid_height(a, b) == rows_of(a, b),
        are_columns(lcs_laws::old_side(steps), columns::file_lines(a), rows_of(a, b)),
        are_columns(lcs_laws::new_side(steps), columns::file_lines(b), rows_of(a, b)),
        lcs_laws::deletes_first(steps),
        !lcs::too_wide(lcs_laws::old_side(steps), lcs_laws::new_side(steps)) ==> forall|
            pairs: Seq<(int, int)>,
        | #[trigger]
            lcs_laws::common_pairs(
                lcs_laws::old_side(steps),
                lcs_laws::new_side(steps),
                pairs,
            ) ==> pairs.len() <= lcs_laws::matches_in(steps),
        if report_laws::ends_differ(a, b) {
            &&& diff::grid_steps(a, b).len() == steps.len() + 1
            &&& diff::grid_steps(a, b).drop_last() == steps
            &&& reports_newline(diff::grid_steps(a, b).last(), a, b)
        } else {
            diff::grid_steps(a, b) == steps
        },
{
    let ca = diff::grid_columns(a, b);
    let cb = diff::grid_columns(b, a);
    let steps = lcs::column_diff(ca, cb);
    report_laws::law_lines_are_counted_by_breaks(a);
    report_laws::law_lines_are_counted_by_breaks(b);
    lcs_laws::law_diff_keeps_both_sides(ca, cb);
    lcs_laws::law_deletes_come_before_inserts(ca, cb);
    if !lcs::too_wide(ca, cb) {
        lcs_laws::law_diff_matches_most(ca, cb);
        lcs_laws::law_lcs_is_longest(ca, cb);
    }
    lemma_are_columns(columns::file_lines(a), diff::grid_height(a, b));
    lemma_are_columns(columns::file_lines(b), diff::grid_height(b, a));
    if report_laws::ends_differ(a, b) {
        columns::lemma_some_line(a);
        columns::lemma_some_line(b);
        assert(diff::grid_steps(a, b).drop_last() =~= steps);
    } else {
        assert(diff::newline_mark(a, b) =~= Seq::<StepView>::empty());
        assert(diff::grid_steps(a, b) =~= steps);
    }
    steps
}

} // verus!
