//! What holds of splitting, joining and trimming.

use crate::columns;
use crate::text;
use crate::text::CharSet;
use vstd::prelude::*;

verus! {

/// Joining the pieces of a text with the separator gives the text back.
pub proof fn law_join_undoes_split(s: Seq<char>, sep: char)
    ensures
        text::split_on(s, sep).len() >= 1,
        text::join_with(text::split_on(s, sep), seq![sep]) == s,
    decreases s.len(),
{
    let parts = text::split_on(s, sep);
    if s.len() == 0 {
        assert(text::join_with(parts, seq![sep]) =~= s);
    } else {
        law_join_undoes_split(s.drop_last(), sep);
        let head = text::split_on(s.drop_last(), sep);
        if s.last() == sep {
            assert(parts.drop_last() =~= head);
            assert(text::join_with(parts, seq![sep]) =~= s.drop_last() + seq![sep] + Seq::empty());
            assert(text::join_with(parts, seq![sep]) =~= s);
        } else {
            assert(parts.drop_last() =~= head.drop_last());
            assert(parts.last() == head.last().push(s.last()));
            assert(text::join_with(parts, seq![sep]) =~= text::join_with(head, seq![sep]).push(
                s.last(),
            ));
            assert(text::join_with(parts, seq![sep]) =~= s);
        }
    }
}

/// Whether `c` does not occur in `s`.
pub open spec fn free_of(s: Seq<char>, c: char) -> bool {
    forall|i: int| 0 <= i < s.len() ==> #[trigger] s[i] != c
}

/// No piece of a split text holds the separator.
pub proof fn law_pieces_hold_no_separator(s: Seq<char>, sep: char, i: int)
    requires
        0 <= i < text::split_on(s, sep).len(),
    ensures
        free_of(text::split_on(s, sep)[i], sep),
    decreases s.len(),
{
    if s.len() > 0 {
        let head = text::split_on(s.drop_last(), sep);
        law_join_undoes_split(s.drop_last(), sep);
        if i < head.len() {
            law_pieces_hold_no_separator(s.drop_last(), sep, i);
        }
    }
}

/// Splitting a text that goes on with a piece free of the separator: the last
/// piece grows.
pub proof fn lemma_split_more(s: Seq<char>, piece: Seq<char>, sep: char)
    requires
        free_of(piece, sep),
    ensures
        text::split_on(s + piece, sep) == text::split_on(s, sep).drop_last().push(
            text::split_on(s, sep).last() + piece,
        ),
    decreases piece.len(),
{
    law_join_undoes_split(s, sep);
    if piece.len() == 0 {
        assert(s + piece =~= s);
        assert(text::split_on(s, sep).last() + piece =~= text::split_on(s, sep).last());
        assert(text::split_on(s, sep) =~= text::split_on(s, sep).drop_last().push(
            text::split_on(s, sep).last(),
        ));
    } else {
        lemma_split_more(s, piece.drop_last(), sep);
        assert((s + piece).drop_last() =~= s + piece.drop_last());
        assert((s + piece).last() == piece.last());
        let head = text::split_on(s + piece.drop_last(), sep);
        assert(head.drop_last() =~= text::split_on(s, sep).drop_last());
        assert(head.last().push(piece.last()) =~= text::split_on(s, sep).last() + piece);
    }
}

/// Splitting what was joined with the separator gives the parts back, where
/// there are any and none of them holds the separator.
pub proof fn law_split_undoes_join(parts: Seq<Seq<char>>, sep: char)
    requires
        parts.len() >= 1,
        forall|i: int| 0 <= i < parts.len() ==> free_of(#[trigger] parts[i], sep),
    ensures
        text::split_on(text::join_with(parts, seq![sep]), sep) == parts,
    decreases parts.len(),
{
    let empty = Seq::<char>::empty();
    if parts.len() == 1 {
        lemma_split_more(empty, parts[0], sep);
        assert(empty + parts[0] =~= parts[0]);
        assert(text::split_on(parts[0], sep) =~= parts);
    } else {
        let rest = parts.drop_last();
        assert forall|i: int| 0 <= i < rest.len() implies free_of(#[trigger] rest[i], sep) by {
            assert(rest[i] == parts[i]);
        }
        law_split_undoes_join(rest, sep);
        let joined = text::join_with(rest, seq![sep]);
        let cut = joined + seq![sep];
        assert(cut.drop_last() =~= joined);
        assert(text::split_on(cut, sep) =~= rest.push(empty));
        assert(free_of(parts[parts.len() - 1], sep));
        lemma_split_more(cut, parts.last(), sep);
        assert(empty + parts.last() =~= parts.last());
        assert(text::split_on(text::join_with(parts, seq![sep]), sep) =~= parts);
    }
}

/// The lines of a text, joined with line feeds, are the text without the line
/// feed at its end.
pub proof fn law_lines_read_back(s: Seq<char>)
    requires
        s.len() > 0,
    ensures
        text::join_with(columns::lines_of(s), seq!['\n']) == columns::body_of(s),
{
    law_join_undoes_split(columns::body_of(s), '\n');
}

/// One line feed more at the end makes one empty line more.
pub proof fn law_trailing_empty_line_is_kept(s: Seq<char>)
    requires
        columns::ends_line(s),
    ensures
        columns::lines_of(s.push('\n')) == columns::lines_of(s).push(Seq::empty()),
{
    assert(columns::body_of(s.push('\n')) =~= s);
    assert(columns::body_of(s) =~= s.drop_last());
}

/// Trimming cuts off a suffix of characters of the set and leaves none at the
/// end.
pub proof fn law_trim_end_cuts_the_suffix(s: Seq<char>, set: CharSet)
    ensures
        text::trim_end(s, set).len() <= s.len(),
        text::trim_end(s, set) == s.take(text::trim_end(s, set).len() as int),
        forall|i: int|
            text::trim_end(s, set).len() <= i < s.len() ==> set.holds(#[trigger] s[i]),
        text::trim_end(s, set).len() > 0 ==> !set.holds(text::trim_end(s, set).last()),
    decreases s.len(),
{
    if s.len() > 0 && set.holds(s.last()) {
        law_trim_end_cuts_the_suffix(s.drop_last(), set);
        let n = text::trim_end(s, set).len() as int;
        assert(s.drop_last().take(n) =~= s.take(n));
        assert forall|i: int| n <= i < s.len() implies set.holds(#[trigger] s[i]) by {
            if i < s.len() - 1 {
                assert(s.drop_last()[i] == s[i]);
            }
        }
    } else {
        assert(s.take(s.len() as int) =~= s);
    }
}

/// Trimming twice is trimming once.
pub proof fn law_trim_end_is_final(s: Seq<char>, set: CharSet)
    ensures
        text::trim_end(text::trim_end(s, set), set) == text::trim_end(s, set),
{
    law_trim_end_cuts_the_suffix(s, set);
}

/// One of the longest parts.
pub proof fn lemma_some_longest(parts: Seq<Seq<char>>) -> (i: int)
    requires
        text::max_len(parts) > 0,
    ensures
        0 <= i < parts.len(),
        parts[i].len() == text::max_len(parts),
    decreases parts.len(),
{
    let n = parts.len() - 1;
    if parts[n].len() == text::max_len(parts) {
        n
    } else {
        lemma_some_longest(parts.drop_last())
    }
}

/// Joined parts are the parts in order, each with the separator behind it, but
/// for the last one. No part at all makes an empty text.
pub proof fn law_joined_parts_stand_in_order(parts: Seq<Seq<char>>, sep: Seq<char>)
    ensures
        parts.len() == 0 ==> text::join_with(parts, sep).len() == 0,
        parts.len() > 0 ==> text::join_with(parts, sep) + sep == parts.map_values(
            |p: Seq<char>| p + sep,
        ).flatten(),
    decreases parts.len(),
{
    if parts.len() > 0 {
        let f = |p: Seq<char>| p + sep;
        let rest = parts.drop_last();
        law_joined_parts_stand_in_order(rest, sep);
        assert(parts.map_values(f) =~= rest.map_values(f).push(parts.last() + sep));
        rest.map_values(f).lemma_flatten_push(parts.last() + sep);
        if parts.len() == 1 {
            assert(rest.map_values(f) =~= Seq::<Seq<char>>::empty());
            assert(text::join_with(parts, sep) + sep =~= rest.map_values(f).flatten() + (
            parts.last() + sep));
        } else {
            assert(text::join_with(parts, sep) + sep =~= (text::join_with(rest, sep) + sep) + (
            parts.last() + sep));
        }
    }
}

/// The pieces of a text, each with the separator behind it, are the text with
/// one separator more at its end.
pub proof fn law_pieces_stand_in_order(s: Seq<char>, sep: char)
    ensures
        text::split_on(s, sep).map_values(|p: Seq<char>| p.push(sep)).flatten() == s.push(sep),
{
    let parts = text::split_on(s, sep);
    law_join_undoes_split(s, sep);
    law_joined_parts_stand_in_order(parts, seq![sep]);
    assert(parts.map_values(|p: Seq<char>| p + seq![sep]) =~= parts.map_values(
        |p: Seq<char>| p.push(sep),
    )) by {
        assert forall|i: int| 0 <= i < parts.len() implies #[trigger] (parts[i] + seq![sep])
            == parts[i].push(sep) by {
            assert(parts[i] + seq![sep] =~= parts[i].push(sep));
        }
    }
    assert(s.push(sep) =~= s + seq![sep]);
}

/// The number that a text of decimal digits denotes.
pub open spec fn number_of(s: Seq<char>) -> int
    decreases s.len(),
{
    if s.len() == 0 {
        0
    } else {
        10 * number_of(s.drop_last()) + (s.last() as int - '0' as int)
    }
}

/// A number is written in decimal digits, without a zero before them, and reads
/// back as itself.
pub proof fn law_decimal_reads_back(n: nat)
    ensures
        number_of(text::decimal(n)) == n,
        forall|i: int|
            0 <= i < text::decimal(n).len() ==> '0' <= #[trigger] text::decimal(n)[i] <= '9',
        text::decimal(n).len() > 0,
        n > 0 ==> text::decimal(n)[0] != '0',
        n == 0 ==> text::decimal(n).len() == 1,
    decreases n,
{
    if n < 10 {
        let s = text::decimal(n);
        assert(s.drop_last() =~= Seq::<char>::empty());
        assert(number_of(s.drop_last()) == 0);
    } else {
        law_decimal_reads_back(n / 10);
        let s = text::decimal(n);
        let head = text::decimal(n / 10);
        assert(s.drop_last() =~= head);
        assert forall|i: int| 0 <= i < s.len() implies '0' <= #[trigger] s[i] <= '9' by {
            if i < head.len() {
                assert(s[i] == head[i]);
            }
        }
        assert(s[0] == head[0]);
    }
}

/// A negative number is written with a minus sign before its digits, and only a
/// negative number has one.
pub proof fn law_signed_decimal_has_its_sign(n: int)
    ensures
        n < 0 ==> text::signed_decimal(n)[0] == '-' && number_of(
            text::signed_decimal(n).drop_first(),
        ) == -n && text::signed_decimal(n).drop_first()[0] != '0',
        n >= 0 ==> number_of(text::signed_decimal(n)) == n && forall|i: int|
            0 <= i < text::signed_decimal(n).len() ==> #[trigger] text::signed_decimal(n)[i]
                != '-',
{
    if n < 0 {
        law_decimal_reads_back((-n) as nat);
        assert(text::signed_decimal(n).drop_first() =~= text::decimal((-n) as nat));
    } else {
        law_decimal_reads_back(n as nat);
    }
}

} // verus!
