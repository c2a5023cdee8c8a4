//! Display widths: how many terminal cells a character or a text occupies.

use crate::text;
use vstd::prelude::*;

verus! {

/// The width that the tables of `unicode-width` hold for a character from
/// U+00A0 on.
pub uninterp spec fn table_width(c: char) -> usize;

/// The width that `unicode-width` gives to a text, ligatures and emoji
/// sequences taken into account.
pub uninterp spec fn table_text_width(s: Seq<char>) -> usize;

/// The display width of `c` in cells; `None` for a control character.
pub open spec fn char_width(c: char) -> Option<usize> {
    if ' ' <= c <= '~' {
        Some(1)
    } else if c >= '\u{a0}' {
        Some(table_width(c))
    } else {
        None
    }
}

/// Whether `s` holds printable ASCII characters only.
pub open spec fn printable_ascii(s: Seq<char>) -> bool {
    forall|i: int| 0 <= i < s.len() ==> ' ' <= #[trigger] s[i] <= '~'
}

/// The display width of `s` in cells.
pub open spec fn text_width(s: Seq<char>) -> nat {
    if printable_ascii(s) {
        s.len()
    } else {
        table_text_width(s) as nat
    }
}

/// `UnicodeWidthChar::width`: one cell for printable ASCII, nothing for the
/// control characters (below U+0020 and from U+007F to U+009F), and for all
/// others the value in the crate's tables, which is at most three.
#[verifier::external_body]
pub(crate) fn width_of_char(c: char) -> (r: Option<usize>)
    ensures
        r == char_width(c),
        c >= '\u{a0}' ==> r == Some(table_width(c)),
        r matches Some(w) ==> w <= 3,
{
    unicode_width::UnicodeWidthChar::width(c)
}

/// `UnicodeWidthStr::width`: one cell per character for printable ASCII; for
/// any other text a value that depends on the text alone.
#[verifier::external_body]
pub(crate) fn width_of_text(s: &str) -> (r: usize)
    ensures
        r == text_width(s@),
        !printable_ascii(s@) ==> r == table_text_width(s@),
{
    unicode_width::UnicodeWidthStr::width(s)
}

/// The width of `c` where a control character counts as `control` cells.
pub open spec fn width_or(c: char, control: nat) -> nat {
    match char_width(c) {
        Some(w) => w as nat,
        None => control,
    }
}

/// The width of the widest character of `s`, control characters counting as
/// zero.
pub open spec fn widest(s: Seq<char>) -> nat
    decreases s.len(),
{
    if s.len() == 0 {
        0
    } else {
        text::larger(widest(s.drop_last()), width_or(s.last(), 0))
    }
}

/// The width of a column: that of its widest character, at least one cell.
pub open spec fn column_width(content: Seq<char>) -> nat {
    text::larger(widest(content), 1)
}

/// The number of spaces that fill the cell of `c` up to `col_w` cells. A
/// character without width gets none: a space would tear it off the
/// character before it.
pub open spec fn padding(c: char, col_w: nat) -> nat {
    if char_width(c) == Some(0usize) {
        0
    } else {
        text::minus(col_w, width_or(c, 1))
    }
}

/// The display width of `s` as a sum over its characters, control characters
/// counting as zero.
pub open spec fn cells(s: Seq<char>) -> nat
    decreases s.len(),
{
    if s.len() == 0 {
        0
    } else {
        cells(s.drop_last()) + width_or(s.last(), 0)
    }
}

/// The width of the widest of `rows`, zero if there is none.
pub open spec fn widest_row(rows: Seq<Seq<char>>) -> nat
    decreases rows.len(),
{
    if rows.len() == 0 {
        0
    } else {
        text::larger(widest_row(rows.drop_last()), text_width(rows.last()))
    }
}

/// The display width of a column that holds the characters of `content`.
pub fn width_of_column(content: &str) -> (r: usize)
    ensures
        r == column_width(content@),
{
    let mut w: usize = 0;
    for c in it: content.chars()
        invariant
            it.seq() == content@,
            w == widest(content@.take(it.index() as int)),
    {
        proof {
            let i = it.index() as int;
            assert(content@.take(i + 1).drop_last() =~= content@.take(i));
            assert(content@.take(i + 1).last() == c);
        }
        let cw: usize = width_of_char(c).unwrap_or(0);
        if cw > w {
            w = cw;
        }
    }
    assert(content@.take(content@.len() as int) =~= content@);
    if w > 1 {
        w
    } else {
        1
    }
}

/// Pad count for one cell: `col_w` cells minus the character's own width.
/// Characters without width (joiners, combining marks) get no pad: a space
/// after them would break the cluster that they belong to.
pub fn cell_pad(c: char, col_w: usize) -> (r: usize)
    ensures
        r == padding(c, col_w as nat),
{
    match width_of_char(c) {
        Some(w) => {
            if w == 0 {
                0
            } else {
                col_w.saturating_sub(w)
            }
        },
        None => col_w.saturating_sub(1),
    }
}

/// The display width of the widest of `rows`.
pub fn width_of_rows(rows: &Vec<String>) -> (r: usize)
    ensures
        r == widest_row(text::texts(rows@)),
{
    let mut w: usize = 0;
    let mut i: usize = 0;
    while i < rows.len()
        invariant
            i <= rows.len(),
            w == widest_row(text::texts(rows@).take(i as int)),
        decreases rows.len() - i,
    {
        proof {
            let t = text::texts(rows@);
            assert(t.take(i + 1).drop_last() =~= t.take(i as int));
            assert(t.take(i + 1).last() == t[i as int]);
        }
        let rw: usize = width_of_text(rows[i].as_str());
        if rw > w {
            w = rw;
        }
        i += 1;
    }
    assert(text::texts(rows@).take(i as int) =~= text::texts(rows@));
    w
}

/// The width of a column is a machine word.
pub proof fn lemma_column_is_a_word(content: Seq<char>)
    ensures
        column_width(content) <= usize::MAX,
    decreases content.len(),
{
    if content.len() > 0 {
        lemma_column_is_a_word(content.drop_last());
    }
}

/// A column is at least as wide as each of its characters.
pub proof fn lemma_column_fits(content: Seq<char>, i: int)
    requires
        0 <= i < content.len(),
    ensures
        width_or(content[i], 0) <= column_width(content),
    decreases content.len(),
{
    if i < content.len() - 1 {
        lemma_column_fits(content.drop_last(), i);
    }
}

} // verus!
