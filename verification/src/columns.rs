//! From the text of a file to its columns.

use crate::text;
use crate::text::CharSet;
use crate::width;
use vstd::prelude::*;

verus! {

/// Tab stops every `TAB_STOP` display columns; a tab expands to the spaces up
/// to the next stop. Terminals advance a tab to its own tab stop, so a fixed
/// one-cell width would misalign every following column.
pub const TAB_STOP: usize = 8;

/// `s` without one line feed at its end.
pub open spec fn body_of(s: Seq<char>) -> Seq<char> {
    if ends_line(s) {
        s.drop_last()
    } else {
        s
    }
}

/// Whether `s` ends with a line feed.
pub open spec fn ends_line(s: Seq<char>) -> bool {
    s.len() > 0 && s.last() == '\n'
}

/// The lines of `s`. A line feed at the end opens no further line; an empty
/// text has no line at all.
pub open spec fn lines_of(s: Seq<char>) -> Seq<Seq<char>> {
    if s.len() == 0 {
        Seq::empty()
    } else {
        text::split_on(body_of(s), '\n')
    }
}

/// The display column that a terminal's cursor has reached after `s`, control
/// characters counting as one cell.
pub open spec fn column_after(s: Seq<char>) -> nat
    decreases s.len(),
{
    if s.len() == 0 || s.last() == '\n' {
        0
    } else if s.last() == '\t' {
        (column_after(s.drop_last()) / TAB_STOP as nat + 1) * TAB_STOP as nat
    } else {
        column_after(s.drop_last()) + width::width_or(s.last(), 1)
    }
}

/// The number of spaces that a tab after `s` stands for.
pub open spec fn tab_fill(s: Seq<char>) -> nat {
    (TAB_STOP - column_after(s) % TAB_STOP as nat) as nat
}

/// `s` with each tab replaced by the spaces up to the next tab stop.
pub open spec fn expanded(s: Seq<char>) -> Seq<char>
    decreases s.len(),
{
    if s.len() == 0 {
        Seq::empty()
    } else if s.last() == '\t' {
        expanded(s.drop_last()) + text::spaces(tab_fill(s.drop_last()))
    } else {
        expanded(s.drop_last()).push(s.last())
    }
}

/// The lines of a file as they are compared: tabs expanded, carriage returns
/// at the end of a line cut off.
pub open spec fn file_lines(s: Seq<char>) -> Seq<Seq<char>> {
    lines_of(expanded(s)).map_values(|l: Seq<char>| text::trim_end(l, CharSet::One('\r')))
}

/// The character in column `k` of line `r`, a space where there is none.
pub open spec fn cell_at(lines: Seq<Seq<char>>, r: int, k: int) -> char {
    if 0 <= r < lines.len() && 0 <= k < lines[r].len() {
        lines[r][k]
    } else {
        ' '
    }
}

/// Column `k` of the lines, `height` characters long.
pub open spec fn column(lines: Seq<Seq<char>>, height: nat, k: int) -> Seq<char> {
    Seq::new(height, |r: int| cell_at(lines, r, k))
}

/// The columns of the lines, as many as the longest line has characters, each
/// padded to `height`.
pub open spec fn columns_of(lines: Seq<Seq<char>>, height: nat) -> Seq<Seq<char>> {
    Seq::new(
        text::max_len(lines),
        |k: int| column(lines, text::larger(lines.len(), height), k),
    )
}

/// Splits into lines, keeping the meaning of a trailing empty line
/// (`"a\nb\n\n"` ends with a real empty line). An empty input yields no lines
/// at all.
pub fn lines_with_trailing(input: &str) -> (r: Vec<String>)
    ensures
        text::texts(r@) == lines_of(input@),
{
    let chars = text::chars_of(input);
    let n: usize = chars.len();
    if n == 0 {
        let none: Vec<String> = Vec::new();
        assert(text::texts(none@) =~= Seq::<Seq<char>>::empty());
        return none;
    }
    if chars[n - 1] == '\n' {
        let body = text::text_of(&chars, 0, n - 1);
        assert(body@ =~= body_of(input@));
        text::split_text(body.as_str(), '\n')
    } else {
        text::split_text(input, '\n')
    }
}

/// Replaces tabs with spaces up to the next `TAB_STOP` column, using display
/// widths so that a wide character before the tab lands on the same stop as in
/// a terminal. The column count resets at line feeds.
pub fn expand_tabs(input: &str) -> (r: String)
    ensures
        r@ == expanded(input@),
{
    let mut out = String::new();
    // The current display column, up to a multiple of `TAB_STOP`.
    let mut col: usize = 0;
    for c in it: input.chars()
        invariant
            it.seq() == input@,
            out@ == expanded(input@.take(it.index() as int)),
            col < TAB_STOP,
            col as nat == column_after(input@.take(it.index() as int)) % TAB_STOP as nat,
    {
        let ghost before = input@.take(it.index() as int);
        proof {
            let now = input@.take(it.index() + 1);
            assert(now.drop_last() =~= before);
            assert(now.last() == c);
        }
        if c == '\t' {
            text::push_spaces(&mut out, TAB_STOP - col);
            col = 0;
        } else if c == '\n' {
            out.push(c);
            col = 0;
        } else {
            out.push(c);
            let w: usize = width::width_of_char(c).unwrap_or(1);
            col = (col + w) % TAB_STOP;
        }
    }
    assert(input@.take(input@.len() as int) =~= input@);
    out
}

/// The characters of each line.
fn line_chars(lines: &[String]) -> (r: Vec<Vec<char>>)
    ensures
        r@.len() == lines@.len(),
        forall|i: int| 0 <= i < r@.len() ==> (#[trigger] r@[i])@ == text::texts(lines@)[i],
{
    let mut r: Vec<Vec<char>> = Vec::new();
    let mut i: usize = 0;
    while i < lines.len()
        invariant
            i <= lines@.len(),
            r@.len() == i,
            forall|x: int| 0 <= x < i ==> (#[trigger] r@[x])@ == text::texts(lines@)[x],
        decreases lines@.len() - i,
    {
        r.push(text::chars_of(lines[i].as_str()));
        i += 1;
    }
    r
}

/// The length of the longest line.
fn longest_line(chars: &Vec<Vec<char>>, Ghost(lines): Ghost<Seq<Seq<char>>>) -> (r: usize)
    requires
        chars@.len() == lines.len(),
        forall|i: int| 0 <= i < lines.len() ==> (#[trigger] chars@[i])@ == lines[i],
    ensures
        r == text::max_len(lines),
{
    let mut w: usize = 0;
    let mut i: usize = 0;
    while i < chars.len()
        invariant
            i <= chars@.len(),
            chars@.len() == lines.len(),
            forall|x: int| 0 <= x < lines.len() ==> (#[trigger] chars@[x])@ == lines[x],
            w == text::max_len(lines.take(i as int)),
        decreases chars@.len() - i,
    {
        proof {
            assert(lines.take(i + 1).drop_last() =~= lines.take(i as int));
            assert(lines.take(i + 1).last() == lines[i as int]);
        }
        if chars[i].len() > w {
            w = chars[i].len();
        }
        i += 1;
    }
    assert(lines.take(i as int) =~= lines);
    w
}

/// The columns of a file: the k-th character of every line, missing characters
/// padded with spaces. Every column is padded to `height`.
pub fn columns_padded(lines: &[String], height: usize) -> (r: Vec<String>)
    ensures
        text::texts(r@) == columns_of(text::texts(lines@), height as nat),
{
    let ghost texts = text::texts(lines@);
    let chars = line_chars(lines);
    let width: usize = longest_line(&chars, Ghost(texts));
    let tall: usize = if lines.len() >= height {
        lines.len()
    } else {
        height
    };
    let mut r: Vec<String> = Vec::new();
    let mut k: usize = 0;
    while k < width
        invariant
            k <= width,
            width == text::max_len(texts),
            chars@.len() == texts.len(),
            forall|x: int| 0 <= x < texts.len() ==> (#[trigger] chars@[x])@ == texts[x],
            tall == text::larger(texts.len(), height as nat),
            r@.len() == k,
            forall|x: int| 0 <= x < k ==> (#[trigger] r@[x])@ == column(texts, tall as nat, x),
        decreases width - k,
    {
        let mut col = String::new();
        let mut row: usize = 0;
        while row < tall
            invariant
                row <= tall,
                chars@.len() == texts.len(),
                forall|x: int| 0 <= x < texts.len() ==> (#[trigger] chars@[x])@ == texts[x],
                col@ == column(texts, row as nat, k as int),
            decreases tall - row,
        {
            let c = if row < chars.len() && k < chars[row].len() {
                chars[row][k]
            } else {
                ' '
            };
            let ghost before = col@;
            col.push(c);
            assert(col@ =~= column(texts, (row + 1) as nat, k as int));
            row += 1;
        }
        r.push(col);
        k += 1;
    }
    assert(text::texts(r@) =~= columns_of(texts, height as nat));
    r
}

/// The lines of a file as they are compared.
pub fn compared_lines(input: &str) -> (r: Vec<String>)
    ensures
        text::texts(r@) == file_lines(input@),
{
    let wide = expand_tabs(input);
    let lines = lines_with_trailing(wide.as_str());
    let mut r: Vec<String> = Vec::new();
    let mut i: usize = 0;
    while i < lines.len()
        invariant
            i <= lines.len(),
            r@.len() == i,
            forall|x: int|
                0 <= x < i ==> (#[trigger] r@[x])@ == text::trim_end(
                    lines@[x]@,
                    CharSet::One('\r'),
                ),
        decreases lines.len() - i,
    {
        r.push(text::trimmed_end(lines[i].as_str(), CharSet::One('\r')));
        i += 1;
    }
    proof {
        assert forall|x: int| 0 <= x < r@.len() implies text::texts(r@)[x] == file_lines(
            input@,
        )[x] by {
            assert(lines_of(expanded(input@))[x] == lines@[x]@);
        }
        assert(text::texts(lines@).len() == lines@.len());
        assert(text::texts(r@) =~= file_lines(input@));
    }
    r
}

pub proof fn lemma_split_some(s: Seq<char>, sep: char)
    ensures
        text::split_on(s, sep).len() >= 1,
    decreases s.len(),
{
    if s.len() > 0 {
        lemma_split_some(s.drop_last(), sep);
    }
}

/// A file with some text has some line.
pub proof fn lemma_some_line(s: Seq<char>)
    requires
        s.len() > 0,
    ensures
        file_lines(s).len() >= 1,
{
    assert(expanded(s).len() > 0);
    lemma_split_some(body_of(expanded(s)), '\n');
}

} // verus!
