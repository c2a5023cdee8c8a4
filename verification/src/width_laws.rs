//! What holds of display widths.

use crate::width;
use vstd::prelude::*;

verus! {

/// Some character of `s` is as wide as its widest one.
proof fn lemma_widest_is_there(s: Seq<char>) -> (i: int)
    requires
        width::widest(s) > 0,
    ensures
        0 <= i < s.len(),
        width::width_or(s[i], 0) == width::widest(s),
    decreases s.len(),
{
    let n = s.len() - 1;
    if width::width_or(s[n], 0) == width::widest(s) {
        n
    } else {
        lemma_widest_is_there(s.drop_last())
    }
}

/// A column is one cell wide at least, as wide as each of its characters, and no
/// wider than it has to be.
pub proof fn law_column_is_as_wide_as_its_widest(content: Seq<char>)
    ensures
        width::column_width(content) >= 1,
        forall|i: int|
            0 <= i < content.len() ==> (width::char_width(#[trigger] content[i]) matches Some(w)
                ==> w <= width::column_width(content)),
        width::column_width(content) == 1 || exists|i: int|
            0 <= i < content.len() && (width::char_width(#[trigger] content[i]) matches Some(w)
                && w == width::column_width(content)),
{
    assert forall|i: int| 0 <= i < content.len() implies (width::char_width(
        #[trigger] content[i],
    ) matches Some(w) ==> w <= width::column_width(content)) by {
        width::lemma_column_fits(content, i);
    }
    if width::column_width(content) > 1 {
        let i = lemma_widest_is_there(content);
        assert(width::char_width(content[i]) is Some);
    }
}

/// The width of the widest row is that of some row, and of no row more.
pub proof fn law_widest_row_is_the_widest(rows: Seq<Seq<char>>)
    ensures
        forall|r: int|
            0 <= r < rows.len() ==> width::text_width(#[trigger] rows[r]) <= width::widest_row(
                rows,
            ),
        width::widest_row(rows) == 0 || exists|r: int|
            0 <= r < rows.len() && width::text_width(#[trigger] rows[r]) == width::widest_row(
                rows,
            ),
    decreases rows.len(),
{
    if rows.len() > 0 {
        let rest = rows.drop_last();
        law_widest_row_is_the_widest(rest);
        assert forall|r: int| 0 <= r < rows.len() implies width::text_width(#[trigger] rows[r])
            <= width::widest_row(rows) by {
            if r < rest.len() {
                assert(rest[r] == rows[r]);
            }
        }
        if width::widest_row(rows) > 0 {
            if width::widest_row(rows) == width::text_width(rows.last()) {
                assert(width::text_width(rows[rows.len() - 1]) == width::widest_row(rows));
            } else {
                let r = choose|r: int|
                    0 <= r < rest.len() && width::text_width(#[trigger] rest[r])
                        == width::widest_row(rest);
                assert(rest[r] == rows[r]);
            }
        }
    }
}

/// The cells of a text are those of its first characters and those of the rest;
/// a single character takes its own width, and a control character none.
pub proof fn law_cells_add_up(s: Seq<char>, c: char)
    ensures
        width::cells(Seq::<char>::empty()) == 0,
        width::cells(s.push(c)) == width::cells(s) + match width::char_width(c) {
            Some(w) => w as nat,
            None => 0,
        },
{
    assert(s.push(c).drop_last() =~= s);
}

/// A character is padded to the width of its column. One that is wider is not
/// padded, nor is one that takes no cell; a control character counts as one
/// cell.
pub proof fn law_padding_fills_the_column(c: char, room: nat)
    ensures
        match width::char_width(c) {
            None => width::padding(c, room) == if room > 0 {
                room - 1
            } else {
                0
            },
            Some(w) => if 1 <= w <= room {
                w + width::padding(c, room) == room
            } else {
                width::padding(c, room) == 0
            },
        },
{
}

} // verus!
