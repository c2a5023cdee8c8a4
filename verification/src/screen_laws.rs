//! What is drawn, and where.

use crate::app::App;
use crate::changes::{ChangedFileView, Status};
use crate::diff::DiffGrid;
use crate::git::GitShell;
use crate::row_laws;
use crate::rows;
use crate::screen;
use crate::screen::{Area, Body, Glyph, Panes, RowKind, Screen, Tint};
use crate::text;
use crate::width;
use vstd::prelude::*;

verus! {

/// Deletes are red and inserts green in every row but a file line; separators
/// are grey in every row but a transposed one. All else is plain.
pub proof fn law_tints(kind: RowKind, c: char)
    ensures
        screen::tint_for(kind, c) == Tint::Red <==> c == '-' && kind != RowKind::Content,
        screen::tint_for(kind, c) == Tint::Green <==> c == '+' && kind != RowKind::Content,
        screen::tint_for(kind, c) == Tint::DarkGray <==> c == '|' && kind != RowKind::Step,
        screen::tint_for(kind, c) != Tint::Yellow,
        screen::tint_for(kind, c) != Tint::Cyan,
{
}

/// Whether `g` is character `k` of `row`, drawn on line `y`: as far right of the
/// pane's left edge as its cell is right of the scroll, in its own colour, or
/// plain where it is not the mark of a transposed row.
pub open spec fn draws(
    g: Glyph,
    inner: Area,
    y: int,
    row: Seq<char>,
    scroll_x: nat,
    kind: RowKind,
    k: int,
) -> bool {
    &&& g.y == y
    &&& g.symbol == row[k]
    &&& g.x == inner.x + width::cells(row.take(k)) - scroll_x
    &&& g.tint == if kind == RowKind::Step && k > 0 {
        Tint::Plain
    } else {
        screen::tint_for(kind, row[k])
    }
}

/// Whether the mark of a transposed row takes a cell.
pub open spec fn starts_with_a_cell(row: Seq<char>) -> bool {
    row.len() > 0 ==> (width::char_width(row[0]) matches Some(w) && w > 0)
}

/// Of a row the characters are drawn that lie whole in the pane, each once and
/// in order, and no others.
pub proof fn law_row_is_drawn_where_it_lies(
    inner: Area,
    y: u16,
    row: Seq<char>,
    scroll_x: nat,
    kind: RowKind,
) -> (r: (int, int))
    requires
        inner.fits(),
        kind == RowKind::Step ==> starts_with_a_cell(row),
    ensures
        0 <= r.0 <= r.1 <= row.len(),
        forall|k: int| #[trigger]
            row_laws::lies_in(row, scroll_x, inner.width as nat, k) <==> r.0 <= k < r.1,
        screen::row_glyphs(inner, y, row, scroll_x, kind).len() == r.1 - r.0,
        forall|i: int|
            0 <= i < r.1 - r.0 ==> draws(
                #[trigger] screen::row_glyphs(inner, y, row, scroll_x, kind)[i],
                inner,
                y as int,
                row,
                scroll_x,
                kind,
                r.0 + i,
            ),
{
    let w = inner.width as nat;
    let r = row_laws::law_window_shows_what_lies_in_it(row, scroll_x, w);
    let visible = rows::window(row, scroll_x, w);
    let glyphs = screen::row_glyphs(inner, y, row, scroll_x, kind);
    assert forall|i: int| 0 <= i < r.1 - r.0 implies draws(
        #[trigger] glyphs[i],
        inner,
        y as int,
        row,
        scroll_x,
        kind,
        r.0 + i,
    ) by {
        let k = r.0 + i;
        assert(visible[i] == row[k]);
        assert(visible.take(i) =~= row.subrange(r.0, k));
        rows::lemma_piece_cells(row, r.0, k);
        rows::lemma_cells_grow(row, r.0, k);
        rows::lemma_cells_grow(row, k, k + 1);
        assert(row_laws::lies_in(row, scroll_x, w, k));
        assert(glyphs[i] == screen::glyph_at(inner, y, row, scroll_x, kind, i));
        assert(row_laws::lies_in(row, scroll_x, w, r.0));
        if kind == RowKind::Step && k > 0 && scroll_x == 0 && i == 0 {
            rows::lemma_cell_step(row, 0);
            assert(row.take(0) =~= Seq::<char>::empty());
            rows::lemma_cells_grow(row, 1, k + 1);
            assert(row_laws::lies_in(row, scroll_x, w, 0));
        }
        if kind == RowKind::Step && k == 0 {
            assert(row.take(0) =~= Seq::<char>::empty());
            assert(scroll_x == 0);
        }
    }
    r
}

/// Every character of the rows from row `from` on is one of a row that lies
/// below line `top` and above the pane's lower edge, on that row's line.
pub proof fn law_only_rows_inside_are_drawn(
    inner: Area,
    top: int,
    lines: Seq<Seq<char>>,
    scroll: (nat, nat),
    kind: RowKind,
    from: int,
    g: int,
) -> (r: (int, int))
    requires
        0 <= from,
        top >= -1,
        inner.fits(),
        0 <= g < screen::rows_from(inner, top, lines, scroll, kind, from).len(),
    ensures
        from <= r.0 < lines.len(),
        top < inner.y + r.0 - scroll.0 < inner.y + inner.height,
        ({
            let y = (inner.y + r.0 - scroll.0) as u16;
            let row = screen::row_glyphs(inner, y, lines[r.0], scroll.1, kind);
            &&& 0 <= r.1 < row.len()
            &&& screen::rows_from(inner, top, lines, scroll, kind, from)[g] == row[r.1]
        }),
    decreases lines.len() - from,
{
    let y = screen::row_line(inner, from, scroll.0);
    if top < y < inner.y + inner.height {
        let head = screen::row_glyphs(inner, y as u16, lines[from], scroll.1, kind);
        if g < head.len() {
            (from, g)
        } else {
            law_only_rows_inside_are_drawn(
                inner,
                top,
                lines,
                scroll,
                kind,
                from + 1,
                g - head.len(),
            )
        }
    } else {
        law_only_rows_inside_are_drawn(inner, top, lines, scroll, kind, from + 1, g)
    }
}

/// What a row adds to the pane: its characters where it lies below line `top`
/// and above the pane's lower edge, and nothing otherwise.
pub open spec fn row_part(
    inner: Area,
    top: int,
    lines: Seq<Seq<char>>,
    scroll: (nat, nat),
    kind: RowKind,
    i: int,
) -> Seq<Glyph> {
    let y = inner.y + i - scroll.0;
    if top < y < inner.y + inner.height {
        screen::row_glyphs(inner, y as u16, lines[i], scroll.1, kind)
    } else {
        Seq::empty()
    }
}

/// The rows are drawn in order, each once.
pub proof fn law_rows_are_drawn_in_order(
    inner: Area,
    top: int,
    lines: Seq<Seq<char>>,
    scroll: (nat, nat),
    kind: RowKind,
    from: int,
)
    requires
        0 <= from <= lines.len(),
    ensures
        screen::rows_from(inner, top, lines, scroll, kind, from) == Seq::new(
            (lines.len() - from) as nat,
            |j: int| row_part(inner, top, lines, scroll, kind, from + j),
        ).flatten(),
    decreases lines.len() - from,
{
    let parts = Seq::new(
        (lines.len() - from) as nat,
        |j: int| row_part(inner, top, lines, scroll, kind, from + j),
    );
    let all = screen::rows_from(inner, top, lines, scroll, kind, from);
    if from < lines.len() {
        law_rows_are_drawn_in_order(inner, top, lines, scroll, kind, from + 1);
        let rest = Seq::new(
            (lines.len() - (from + 1)) as nat,
            |j: int| row_part(inner, top, lines, scroll, kind, from + 1 + j),
        );
        assert(parts.drop_first() =~= rest);
        assert(parts.first() == row_part(inner, top, lines, scroll, kind, from));
        assert(all =~= parts.first() + rest.flatten());
    } else {
        assert(all =~= parts.flatten());
    }
}

/// The diff pane shows, transposed, the rows of the steps from its first line
/// on; otherwise the marker row on its first line, however far the diff is
/// scrolled down, and the file lines below that.
pub proof fn law_pane_shows_the_rows(
    inner: Area,
    grid: DiffGrid,
    transposed: bool,
    scroll: (nat, nat),
)
    ensures
        ({
            let steps = rows::step_rows(grid.view_steps());
            let lines = rows::display_rows(grid.view_steps(), grid.height as nat);
            let glyphs = screen::grid_glyphs(inner, grid, transposed, scroll);
            let marks = screen::row_glyphs(inner, inner.y, lines[0], scroll.1, RowKind::Marker);
            if transposed {
                glyphs == screen::rows_from(inner, inner.y - 1, steps, scroll, RowKind::Step, 0)
            } else {
                &&& marks.len() <= glyphs.len()
                &&& glyphs.take(marks.len() as int) == marks
                &&& glyphs.skip(marks.len() as int) == screen::rows_from(
                    inner,
                    inner.y as int,
                    lines,
                    scroll,
                    RowKind::Content,
                    1,
                )
            }
        }),
{
    let lines = rows::display_rows(grid.view_steps(), grid.height as nat);
    let marks = screen::row_glyphs(inner, inner.y, lines[0], scroll.1, RowKind::Marker);
    let glyphs = screen::grid_glyphs(inner, grid, transposed, scroll);
    if !transposed {
        assert(glyphs.take(marks.len() as int) =~= marks);
        assert(glyphs.skip(marks.len() as int) =~= screen::rows_from(
            inner,
            inner.y as int,
            lines,
            scroll,
            RowKind::Content,
            1,
        ));
    }
}

/// The areas tile the screen: the status takes the last line, where there is
/// one; the rest above it belongs to the diff, but for a sidebar on the left,
/// which is there in repository mode while it is not hidden. The sidebar takes
/// 28 percent of the width, to the nearest cell.
pub proof fn law_panes_tile_the_screen<G: GitShell + ?Sized>(app: App<G>, area: Area)
    requires
        area.fits(),
    ensures
        ({
            let p = screen::panes_in(app, area);
            let left: int = match p.sidebar {
                Some(s) => s.width as int,
                None => 0,
            };
            &&& p.sidebar is Some <==> app.source is Git && app.show_sidebar
            &&& p.status.x == area.x && p.status.width == area.width
            &&& p.status.height == if area.height > 0 {
                1int
            } else {
                0
            }
            &&& p.status.y + p.status.height == area.y + area.height
            &&& p.diff.y == area.y && p.diff.y + p.diff.height == p.status.y
            &&& p.diff.x == area.x + left && p.diff.x + p.diff.width == area.x + area.width
            &&& p.sidebar matches Some(s) ==> s.x == area.x && s.y == area.y && s.height
                == p.diff.height && -50 <= 28 * area.width - 100 * s.width < 50
        }),
{
}

/// A message stands on one line of the pane, as wide as the pane, with as many
/// lines above it as below it, or one less.
pub proof fn law_message_stands_in_the_middle(inner: Area)
    requires
        inner.fits(),
    ensures
        ({
            let m = screen::middle_line(inner);
            let above = m.y - inner.y;
            let below = inner.height - 1 - above;
            &&& m.x == inner.x
            &&& m.width == inner.width
            &&& m.height == 1
            &&& inner.height > 0 ==> 0 <= above <= below <= above + 1
            &&& inner.height == 0 ==> m.y == inner.y
        }),
{
}

/// The sidebar lists each file with the letter and the colour of its status, and
/// with its path; of a renamed file it shows both paths.
pub proof fn law_sidebar_entries(files: Seq<ChangedFileView>, i: int)
    requires
        0 <= i < files.len(),
    ensures
        screen::items_of(files).len() == files.len(),
        ({
            let item = screen::items_of(files)[i];
            let (letter, tint) = match files[i].status {
                Status::Modified => ('M', Tint::Yellow),
                Status::Added => ('A', Tint::Green),
                Status::Deleted => ('D', Tint::Red),
                Status::Renamed => ('R', Tint::Cyan),
            };
            &&& item.letter == letter
            &&& item.tint == tint
            &&& files[i].status == Status::Renamed ==> item.path == files[i].old_path
                + " \u{2192} "@ + files[i].new_path
            &&& files[i].status != Status::Renamed ==> item.path == files[i].new_path
        }),
{
}

/// What a screen of the viewer says: the names of the two sides above the diff
/// and in the status line, the listed files in the sidebar, and in the pane the
/// diff, or where there is none the message.
pub proof fn law_screen_says<G: GitShell + ?Sized>(app: App<G>, panes: Panes, s: Screen)
    requires
        screen::is_screen(app, panes, s),
    ensures
        ({
            let names = app.labels.0@ + " \u{2192} "@ + app.labels.1@;
            let keys =
                "tab/\u{21e7}tab select \u{b7} hjkl scroll \u{b7} n/p changes \u{b7} t transpose \u{b7} e sidebar \u{b7} q quit"@;
            let scroll = "v"@ + text::decimal(app.scroll_y as nat) + "/"@ + text::decimal(
                app.limit_y(),
            ) + " h"@ + text::decimal(app.scroll_x as nat) + "/"@ + text::decimal(app.limit_x())
                + "  "@;
            let told = if app.grid is Some {
                if app.degraded {
                    scroll + "LCS skipped (wide file)  "@
                } else {
                    scroll
                }
            } else if app.message is Some {
                app.message->0@ + "  "@
            } else {
                Seq::<char>::empty()
            };
            &&& s.diff.title@ == " "@ + names + " "@
            &&& s.status.line@ == " "@ + names + "  "@ + told + keys
        }),
        s.diff.area == panes.diff,
        s.status.area == panes.status,
        s.sidebar is Some <==> panes.sidebar is Some,
        s.sidebar matches Some(sidebar) ==> Some(sidebar.area) == panes.sidebar && sidebar.selected
            == app.selection && screen::item_views(sidebar.items@) == screen::items_of(
            app.listed(),
        ),
        app.grid is Some ==> (s.diff.body matches Body::Glyphs(glyphs) && glyphs@
            == screen::grid_glyphs(
            screen::inner_of(panes.diff),
            app.grid->0,
            app.transposed,
            (app.scroll_y as nat, app.scroll_x as nat),
        )),
        app.grid is None && app.message is Some ==> (s.diff.body matches Body::Message {
            area,
            message,
        } && area == screen::middle_line(screen::inner_of(panes.diff)) && message@
            == app.message->0@),
        app.grid is None && app.message is None ==> s.diff.body is Empty,
{
}

} // verus!
