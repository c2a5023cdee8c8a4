//! What the viewer draws: areas, texts and coloured characters, ready to be
//! put on a terminal.

use crate::app::App;
use crate::changes::{ChangedFile, ChangedFileView, Status};
use crate::diff::DiffGrid;
use crate::git::GitShell;
use crate::rows;
use crate::text;
use crate::width;
use ratatui::layout::{Constraint, Direction, Layout, Rect};
use ratatui::widgets::{Block, Borders};
use vstd::prelude::*;

verus! {

/// A rectangle of terminal cells.
#[derive(Debug, Clone, Copy, PartialEq, Eq, Structural)]
pub struct Area {
    pub x: u16,
    pub y: u16,
    pub width: u16,
    pub height: u16,
}

impl Area {
    /// Whether the area's far edges have coordinates.
    pub open spec fn fits(self) -> bool {
        self.x + self.width <= u16::MAX && self.y + self.height <= u16::MAX
    }

    /// Whether the area lies inside `outer`.
    pub open spec fn inside(self, outer: Area) -> bool {
        &&& outer.x <= self.x
        &&& self.x + self.width <= outer.x + outer.width
        &&& outer.y <= self.y
        &&& self.y + self.height <= outer.y + outer.height
    }
}

/// The direction in which an area is split.
#[derive(Debug, Clone, Copy, PartialEq, Eq, Structural)]
pub enum Axis {
    /// One part beside the other.
    Horizontal,
    /// One part above the other.
    Vertical,
}

/// How much of an area one part gets.
#[derive(Debug, Clone, Copy, PartialEq, Eq, Structural)]
pub enum Share {
    AtLeast(u16),
    Exactly(u16),
    Percent(u16),
}

/// Whether `part` is a part of `whole` split along `axis`: it keeps the other
/// axis and lies inside.
pub open spec fn part_of(part: Area, whole: Area, axis: Axis) -> bool {
    &&& part.inside(whole)
    &&& match axis {
        Axis::Horizontal => part.y == whole.y && part.height == whole.height,
        Axis::Vertical => part.x == whole.x && part.width == whole.width,
    }
}

/// The length of an area along an axis.
pub open spec fn extent(area: Area, axis: Axis) -> nat {
    match axis {
        Axis::Horizontal => area.width as nat,
        Axis::Vertical => area.height as nat,
    }
}

/// The first `k` cells of an area along an axis, and the rest of it.
pub open spec fn cut(area: Area, axis: Axis, k: nat) -> (Area, Area) {
    match axis {
        Axis::Horizontal => (
            Area { width: k as u16, ..area },
            Area { x: (area.x + k) as u16, width: (area.width - k) as u16, ..area },
        ),
        Axis::Vertical => (
            Area { height: k as u16, ..area },
            Area { y: (area.y + k) as u16, height: (area.height - k) as u16, ..area },
        ),
    }
}

/// How many of `size` cells the first of two parts gets: what an exact second
/// part that fits leaves, or a percentage, rounded, where the second part asks
/// for nothing. `None` for shares that are not told here.
pub open spec fn first_part(size: nat, first: Share, second: Share) -> Option<nat> {
    match (first, second) {
        (Share::AtLeast(least), Share::Exactly(n)) => if least == 0 && n <= size {
            Some((size - n) as nat)
        } else {
            None
        },
        (Share::Percent(p), Share::AtLeast(least)) => if least == 0 && p <= 100 {
            Some((p * size + 50) as nat / 100)
        } else {
            None
        },
        _ => None,
    }
}

/// `Layout::split` with two constraints. Both parts span the area across the
/// direction of the split, and lie inside it along that direction: every
/// variable of the solver is required to. `Constraint::Length` that fits sets
/// the size of its part, `Constraint::Percentage` sets it to the percentage of
/// the whole rounded to the nearest cell, half a cell upwards, and
/// `Constraint::Min(0)` beside either takes up all the rest. Of other pairs of
/// constraints, and of a length that does not fit, no more is said than that
/// the parts lie inside.
#[verifier::external_body]
fn split_area(area: Area, axis: Axis, first: Share, second: Share) -> (r: (Area, Area))
    requires
        area.fits(),
    ensures
        part_of(r.0, area, axis),
        part_of(r.1, area, axis),
        first_part(extent(area, axis), first, second) matches Some(k) ==> r == cut(area, axis, k),
{
    let limit = |s: Share| match s {
        Share::AtLeast(n) => Constraint::Min(n),
        Share::Exactly(n) => Constraint::Length(n),
        Share::Percent(n) => Constraint::Percentage(n),
    };
    let direction = match axis {
        Axis::Horizontal => Direction::Horizontal,
        Axis::Vertical => Direction::Vertical,
    };
    let plain = |r: Rect| Area { x: r.x, y: r.y, width: r.width, height: r.height };
    let whole = Rect { x: area.x, y: area.y, width: area.width, height: area.height };
    let limits = [limit(first), limit(second)];
    let parts = Layout::default().direction(direction).constraints(limits).split(whole);
    (plain(parts[0]), plain(parts[1]))
}

/// The area inside a border of one cell on each side.
pub open spec fn inner_of(area: Area) -> Area {
    Area {
        x: if area.width > 0 {
            (area.x + 1) as u16
        } else {
            area.x
        },
        y: if area.height > 0 {
            (area.y + 1) as u16
        } else {
            area.y
        },
        width: text::minus(area.width as nat, 2) as u16,
        height: text::minus(area.height as nat, 2) as u16,
    }
}

/// `Block::inner` of a block with all borders: one cell less on each side, as
/// far as there are cells.
#[verifier::external_body]
fn inside_borders(area: Area) -> (r: Area)
    requires
        area.fits(),
    ensures
        r == inner_of(area),
{
    let whole = Rect { x: area.x, y: area.y, width: area.width, height: area.height };
    let r = Block::default().borders(Borders::ALL).inner(whole);
    Area { x: r.x, y: r.y, width: r.width, height: r.height }
}

/// A foreground colour.
#[derive(Debug, Clone, Copy, PartialEq, Eq, Structural)]
pub enum Tint {
    Plain,
    Red,
    Green,
    Yellow,
    Cyan,
    DarkGray,
}

/// One character on the screen.
#[derive(Debug, Clone, Copy, PartialEq, Eq, Structural)]
pub struct Glyph {
    pub x: u16,
    pub y: u16,
    pub symbol: char,
    pub tint: Tint,
}

/// The rows of the diff pane, told apart by how they are coloured.
#[derive(Debug, Clone, Copy, PartialEq, Eq, Structural)]
pub enum RowKind {
    /// The marks above the file lines.
    Marker,
    /// A file line.
    Content,
    /// A step of the transposed view.
    Step,
}

/// The colour that a mark or a separator has in a row.
pub open spec fn tint_for(kind: RowKind, c: char) -> Tint {
    match c {
        '-' => if kind == RowKind::Content {
            Tint::Plain
        } else {
            Tint::Red
        },
        '+' => if kind == RowKind::Content {
            Tint::Plain
        } else {
            Tint::Green
        },
        '|' => if kind == RowKind::Step {
            Tint::Plain
        } else {
            Tint::DarkGray
        },
        _ => Tint::Plain,
    }
}

/// The colour that a mark or a separator has in a row.
pub fn tint_of(kind: RowKind, c: char) -> (r: Tint)
    ensures
        r == tint_for(kind, c),
{
    match kind {
        RowKind::Marker => match c {
            '-' => Tint::Red,
            '+' => Tint::Green,
            '|' => Tint::DarkGray,
            _ => Tint::Plain,
        },
        RowKind::Content => {
            if c == '|' {
                Tint::DarkGray
            } else {
                Tint::Plain
            }
        },
        RowKind::Step => match c {
            '-' => Tint::Red,
            '+' => Tint::Green,
            _ => Tint::Plain,
        },
    }
}

/// The colour of character `i` of what shows of a row scrolled by `scroll_x`
/// cells. A row of the transposed view starts with the mark of its step, and
/// only that one is coloured.
pub open spec fn tint_at(kind: RowKind, scroll_x: nat, i: int, c: char) -> Tint {
    if kind == RowKind::Step && (scroll_x > 0 || i > 0) {
        Tint::Plain
    } else {
        tint_for(kind, c)
    }
}

/// Character `i` of what shows of `row` in `inner` on line `y`, scrolled by
/// `scroll_x` cells: as far right of the pane's left edge as its cell is right
/// of the scroll.
pub open spec fn glyph_at(
    inner: Area,
    y: u16,
    row: Seq<char>,
    scroll_x: nat,
    kind: RowKind,
    i: int,
) -> Glyph {
    let visible = rows::window(row, scroll_x, inner.width as nat);
    let first = rows::window_cell(row, scroll_x, inner.width as nat);
    Glyph {
        x: (inner.x + (first - scroll_x) + rows::cell_of(visible, i)) as u16,
        y,
        symbol: visible[i],
        tint: tint_at(kind, scroll_x, i, visible[i]),
    }
}

/// The characters of `row` that show in `inner` on line `y`, scrolled by
/// `scroll_x` cells.
pub open spec fn row_glyphs(
    inner: Area,
    y: u16,
    row: Seq<char>,
    scroll_x: nat,
    kind: RowKind,
) -> Seq<Glyph> {
    Seq::new(
        rows::window(row, scroll_x, inner.width as nat).len(),
        |i: int| glyph_at(inner, y, row, scroll_x, kind, i),
    )
}

/// Appends the characters of `row` that show in `inner` on line `y`.
fn draw_row(
    out: &mut Vec<Glyph>,
    inner: Area,
    y: u16,
    row: &str,
    scroll_x: usize,
    kind: RowKind,
)
    requires
        inner.fits(),
        scroll_x + u16::MAX <= usize::MAX,
    ensures
        final(out)@ == old(out)@ + row_glyphs(inner, y, row@, scroll_x as nat, kind),
{
    let (visible, first) = rows::slice_by_width(row, scroll_x, inner.width as usize);
    let ghost all = row_glyphs(inner, y, row@, scroll_x as nat, kind);
    let ghost v = visible@;
    proof {
        let _ = rows::law_window_is_one_piece(row@, scroll_x as nat, inner.width as nat);
        assert(v.take(0) =~= Seq::<char>::empty());
        assert(all.len() == v.len());
    }
    // A wide character straddling the scroll boundary is skipped whole, so the
    // first drawn character may sit past the viewport start; the offset keeps
    // this row's cells under the same viewport columns as the marker row.
    let mut x: u16 = inner.x + (first - scroll_x) as u16;
    let chars = text::chars_of(visible.as_str());
    let mut i: usize = 0;
    while i < chars.len()
        invariant
            inner.fits(),
            chars@ == v,
            i <= v.len(),
            v == rows::window(row@, scroll_x as nat, inner.width as nat),
            first == rows::window_cell(row@, scroll_x as nat, inner.width as nat),
            scroll_x <= first,
            first + width::cells(v) <= scroll_x + inner.width,
            all == row_glyphs(inner, y, row@, scroll_x as nat, kind),
            all.len() == v.len(),
            x == inner.x + (first - scroll_x) + rows::cell_of(v, i as int),
            out@ == old(out)@ + all.take(i as int),
        decreases v.len() - i,
    {
        let c = chars[i];
        let tint = if kind == RowKind::Step && (scroll_x > 0 || i > 0) {
            Tint::Plain
        } else {
            tint_of(kind, c)
        };
        out.push(Glyph { x, y, symbol: c, tint });
        proof {
            assert(all[i as int].x == x);
            assert(all[i as int] == out@[out@.len() - 1]);
            assert(out@ =~= old(out)@ + all.take(i + 1));
            rows::lemma_cell_step(v, i as int);
            rows::lemma_cells_grow(v, i + 1, v.len() as int);
            assert(v.take(v.len() as int) =~= v);
        }
        x += width::width_of_char(c).unwrap_or(0) as u16;
        i += 1;
    }
    assert(all.take(i as int) =~= all);
}

/// The line on which row `i` lies after scrolling.
pub open spec fn row_line(inner: Area, i: int, scroll_y: nat) -> int {
    inner.y + i - scroll_y
}

/// The rows from row `i` on that lie below line `top` and above the pane's
/// lower edge.
pub open spec fn rows_from(
    inner: Area,
    top: int,
    lines: Seq<Seq<char>>,
    scroll: (nat, nat),
    kind: RowKind,
    i: int,
) -> Seq<Glyph>
    decreases lines.len() - i,
{
    let y = row_line(inner, i, scroll.0);
    if i >= lines.len() {
        Seq::empty()
    } else if top < y < inner.y + inner.height {
        row_glyphs(inner, y as u16, lines[i], scroll.1, kind) + rows_from(
            inner,
            top,
            lines,
            scroll,
            kind,
            i + 1,
        )
    } else {
        rows_from(inner, top, lines, scroll, kind, i + 1)
    }
}

/// Nothing is drawn from the first row past the pane's lower edge on.
proof fn lemma_no_rows_past_the_edge(
    inner: Area,
    top: int,
    lines: Seq<Seq<char>>,
    scroll: (nat, nat),
    kind: RowKind,
    i: int,
)
    requires
        row_line(inner, i, scroll.0) >= inner.y + inner.height,
    ensures
        rows_from(inner, top, lines, scroll, kind, i) == Seq::<Glyph>::empty(),
    decreases lines.len() - i,
{
    if i < lines.len() {
        lemma_no_rows_past_the_edge(inner, top, lines, scroll, kind, i + 1);
    }
}

/// What the diff pane shows of a grid: in the transposed view one row per
/// step; otherwise the marker row, pinned to the first line, and the file
/// lines below it.
pub open spec fn grid_glyphs(
    inner: Area,
    grid: DiffGrid,
    transposed: bool,
    scroll: (nat, nat),
) -> Seq<Glyph> {
    if transposed {
        rows_from(
            inner,
            inner.y - 1,
            rows::step_rows(grid.view_steps()),
            scroll,
            RowKind::Step,
            0,
        )
    } else {
        let lines = rows::display_rows(grid.view_steps(), grid.height as nat);
        row_glyphs(inner, inner.y, lines[0], scroll.1, RowKind::Marker) + rows_from(
            inner,
            inner.y as int,
            lines,
            scroll,
            RowKind::Content,
            1,
        )
    }
}

/// Appends the rows from row `from` on.
fn draw_rows(
    out: &mut Vec<Glyph>,
    inner: Area,
    pinned: bool,
    lines: &Vec<String>,
    scroll: (usize, usize),
    kind: RowKind,
    from: usize,
)
    requires
        inner.fits(),
        scroll.1 + u16::MAX <= usize::MAX,
        from <= lines@.len(),
    ensures
        final(out)@ == old(out)@ + rows_from(
            inner,
            if pinned {
                inner.y as int
            } else {
                inner.y - 1
            },
            text::texts(lines@),
            (scroll.0 as nat, scroll.1 as nat),
            kind,
            from as int,
        ),
{
    let ghost top: int = if pinned {
        inner.y as int
    } else {
        inner.y - 1
    };
    let ghost t = text::texts(lines@);
    let ghost s = (scroll.0 as nat, scroll.1 as nat);
    let highest: i128 = if pinned {
        inner.y as i128 + 1
    } else {
        inner.y as i128
    };
    let bottom: i128 = inner.y as i128 + inner.height as i128;
    let mut i: usize = from;
    while i < lines.len()
        invariant
            inner.fits(),
            scroll.1 + u16::MAX <= usize::MAX,
            i <= lines@.len(),
            highest == top + 1,
            bottom == inner.y + inner.height,
            top == if pinned {
                inner.y as int
            } else {
                inner.y - 1
            },
            t == text::texts(lines@),
            s == (scroll.0 as nat, scroll.1 as nat),
            out@ + rows_from(inner, top, t, s, kind, i as int) == old(out)@ + rows_from(
                inner,
                top,
                t,
                s,
                kind,
                from as int,
            ),
        decreases lines@.len() - i,
    {
        assert(t[i as int] == lines@[i as int]@);
        let y: i128 = inner.y as i128 + i as i128 - scroll.0 as i128;
        if y >= bottom {
            proof {
                lemma_no_rows_past_the_edge(inner, top, t, s, kind, i as int);
                assert(out@ =~= out@ + rows_from(inner, top, t, s, kind, i as int));
            }
            return;
        }
        if y >= highest {
            let ghost before = out@;
            draw_row(out, inner, y as u16, lines[i].as_str(), scroll.1, kind);
            assert(out@ + rows_from(inner, top, t, s, kind, i + 1) =~= before + rows_from(
                inner,
                top,
                t,
                s,
                kind,
                i as int,
            ));
        }
        i += 1;
    }
    assert(rows_from(inner, top, t, s, kind, i as int) =~= Seq::<Glyph>::empty());
    assert(out@ =~= out@ + rows_from(inner, top, t, s, kind, i as int));
}

/// What the diff pane shows of a grid.
fn draw_grid(inner: Area, grid: &DiffGrid, transposed: bool, scroll: (usize, usize)) -> (r: Vec<
    Glyph,
>)
    requires
        grid.wf(),
        grid.rectangular(),
        inner.fits(),
        scroll.1 + u16::MAX <= usize::MAX,
    ensures
        r@ == grid_glyphs(inner, *grid, transposed, (scroll.0 as nat, scroll.1 as nat)),
{
    let mut out: Vec<Glyph> = Vec::new();
    if transposed {
        let lines = rows::transposed_rows(grid);
        draw_rows(&mut out, inner, false, &lines, scroll, RowKind::Step, 0);
    } else {
        assert(rows::low(grid.view_steps(), grid.height as nat));
        let lines = rows::build_rows(grid);
        assert(text::texts(lines@).len() == lines@.len());
        assert(text::texts(lines@)[0] == lines@[0]@);
        draw_row(&mut out, inner, inner.y, lines[0].as_str(), scroll.1, RowKind::Marker);
        draw_rows(&mut out, inner, true, &lines, scroll, RowKind::Content, 1);
    }
    assert(out@ =~= grid_glyphs(
        inner,
        *grid,
        transposed,
        (scroll.0 as nat, scroll.1 as nat),
    ));
    out
}

/// One entry of the sidebar.
#[derive(Debug, PartialEq, Eq)]
pub struct SidebarItem {
    pub letter: char,
    pub tint: Tint,
    pub path: String,
}

/// What an entry of the sidebar says.
#[verifier::ext_equal]
pub struct SidebarItemView {
    pub letter: char,
    pub tint: Tint,
    pub path: Seq<char>,
}

impl View for SidebarItem {
    type V = SidebarItemView;

    open spec fn view(&self) -> SidebarItemView {
        SidebarItemView { letter: self.letter, tint: self.tint, path: self.path@ }
    }
}

/// What entries of the sidebar say.
pub open spec fn item_views(items: Seq<SidebarItem>) -> Seq<SidebarItemView> {
    items.map_values(|i: SidebarItem| i@)
}

/// Two names with an arrow between them.
pub open spec fn arrow(a: Seq<char>, b: Seq<char>) -> Seq<char> {
    a + " \u{2192} "@ + b
}

/// The sidebar's entry for a file: its status letter, and both paths where it
/// was renamed.
pub open spec fn item_of(file: ChangedFileView) -> SidebarItemView {
    SidebarItemView {
        letter: match file.status {
            Status::Modified => 'M',
            Status::Added => 'A',
            Status::Deleted => 'D',
            Status::Renamed => 'R',
        },
        tint: match file.status {
            Status::Modified => Tint::Yellow,
            Status::Added => Tint::Green,
            Status::Deleted => Tint::Red,
            Status::Renamed => Tint::Cyan,
        },
        path: if file.status == Status::Renamed {
            arrow(file.old_path, file.new_path)
        } else {
            file.new_path
        },
    }
}

/// The sidebar's entries for a list of files.
pub open spec fn items_of(files: Seq<ChangedFileView>) -> Seq<SidebarItemView> {
    files.map_values(|f: ChangedFileView| item_of(f))
}

/// Two names with an arrow between them.
fn arrow_text(a: &str, b: &str) -> (r: String)
    ensures
        r@ == arrow(a@, b@),
{
    let mut r = a.to_string();
    r.append(" \u{2192} ");
    r.append(b);
    r
}

/// The sidebar's entry for a file.
pub fn sidebar_item(file: &ChangedFile) -> (r: SidebarItem)
    ensures
        r@ == item_of(file@),
{
    let (letter, tint) = match file.status {
        Status::Modified => ('M', Tint::Yellow),
        Status::Added => ('A', Tint::Green),
        Status::Deleted => ('D', Tint::Red),
        Status::Renamed => ('R', Tint::Cyan),
    };
    let path = if file.status == Status::Renamed {
        arrow_text(file.old_path.as_str(), file.new_path.as_str())
    } else {
        file.new_path.clone()
    };
    SidebarItem { letter, tint, path }
}

/// The list of changed files beside the diff.
#[derive(Debug, PartialEq, Eq)]
pub struct Sidebar {
    pub area: Area,
    pub items: Vec<SidebarItem>,
    pub selected: usize,
}

/// What stands inside the border of the diff pane.
#[derive(Debug, PartialEq, Eq)]
pub enum Body {
    /// A diff.
    Glyphs(Vec<Glyph>),
    /// A message, centered on one line.
    Message { area: Area, message: String },
    Empty,
}

/// The diff pane: a bordered area with a title.
#[derive(Debug, PartialEq, Eq)]
pub struct DiffPane {
    pub area: Area,
    pub title: String,
    pub body: Body,
}

/// The line at the bottom of the screen.
#[derive(Debug, PartialEq, Eq)]
pub struct StatusLine {
    pub area: Area,
    pub line: String,
}

/// Everything that is drawn.
#[derive(Debug, PartialEq, Eq)]
pub struct Screen {
    pub sidebar: Option<Sidebar>,
    pub diff: DiffPane,
    pub status: StatusLine,
}

/// The areas that a screen is made of.
#[derive(Debug, Clone, Copy, PartialEq, Eq)]
pub struct Panes {
    pub sidebar: Option<Area>,
    pub diff: Area,
    pub status: Area,
}

/// The areas of a screen.
pub open spec fn panes_of(screen: Screen) -> Panes {
    Panes {
        sidebar: match screen.sidebar {
            Some(s) => Some(s.area),
            None => None,
        },
        diff: screen.diff.area,
        status: screen.status.area,
    }
}

/// The line in the middle of the diff pane.
pub open spec fn middle_line(inner: Area) -> Area {
    Area {
        x: inner.x,
        y: (inner.y + text::minus(inner.height as nat, 1) / 2) as u16,
        width: inner.width,
        height: 1,
    }
}

/// The scroll positions and their limits.
pub open spec fn scroll_text(y: nat, max_y: nat, x: nat, max_x: nat) -> Seq<char> {
    "v"@ + text::decimal(y) + "/"@ + text::decimal(max_y) + " h"@ + text::decimal(x) + "/"@
        + text::decimal(max_x) + "  "@
}

/// What the status line tells of the diff.
pub open spec fn status_middle<G: GitShell + ?Sized>(app: App<G>) -> Seq<char> {
    match (app.grid, app.message) {
        (Some(_), _) => {
            let scroll = scroll_text(
                app.scroll_y as nat,
                app.limit_y(),
                app.scroll_x as nat,
                app.limit_x(),
            );
            if app.degraded {
                scroll + "LCS skipped (wide file)  "@
            } else {
                scroll
            }
        },
        (None, Some(m)) => m@ + "  "@,
        (None, None) => Seq::empty(),
    }
}

/// The keys, as the status line lists them.
pub open spec fn key_help() -> Seq<char> {
    "tab/\u{21e7}tab select \u{b7} hjkl scroll \u{b7} n/p changes \u{b7} t transpose \u{b7} e sidebar \u{b7} q quit"@
}

/// The status line.
pub open spec fn status_text<G: GitShell + ?Sized>(app: App<G>) -> Seq<char> {
    " "@ + arrow(app.labels.0@, app.labels.1@) + "  "@ + status_middle(app) + key_help()
}

/// The title of the diff pane.
pub open spec fn title_text<G: GitShell + ?Sized>(app: App<G>) -> Seq<char> {
    " "@ + arrow(app.labels.0@, app.labels.1@) + " "@
}

/// Whether `body` is what the diff pane shows inside its border.
pub open spec fn is_body<G: GitShell + ?Sized>(app: App<G>, inner: Area, body: Body) -> bool {
    match (app.grid, app.message) {
        (Some(grid), _) => body matches Body::Glyphs(glyphs) && glyphs@ == grid_glyphs(
            inner,
            grid,
            app.transposed,
            (app.scroll_y as nat, app.scroll_x as nat),
        ),
        (None, Some(m)) => body matches Body::Message { area, message } && area == middle_line(
            inner,
        ) && message@ == m@,
        (None, None) => body is Empty,
    }
}

/// Whether `screen` is what the viewer draws in the areas `panes`.
pub open spec fn is_screen<G: GitShell + ?Sized>(
    app: App<G>,
    panes: Panes,
    screen: Screen,
) -> bool {
    &&& panes_of(screen) == panes
    &&& screen.sidebar matches Some(s) ==> item_views(s.items@) == items_of(app.listed())
        && s.selected == app.selection
    &&& screen.diff.title@ == title_text(app)
    &&& is_body(app, inner_of(panes.diff), screen.diff.body)
    &&& screen.status.line@ == status_text(app)
}

/// How many percent of the width the sidebar takes.
pub const SIDEBAR_PERCENT: u16 = 28;

/// The screen above the status line, and the status line.
pub open spec fn main_and_status(area: Area) -> (Area, Area) {
    cut(area, Axis::Vertical, text::minus(area.height as nat, 1))
}

/// The sidebar and the diff pane beside it.
pub open spec fn sidebar_and_diff(main: Area) -> (Area, Area) {
    cut(main, Axis::Horizontal, (SIDEBAR_PERCENT * main.width + 50) as nat / 100)
}

/// The areas of the screen: the last line for the status; above it the diff,
/// with the sidebar beside it where there is one to show.
pub open spec fn panes_in<G: GitShell + ?Sized>(app: App<G>, area: Area) -> Panes {
    let (main, status) = main_and_status(area);
    if app.source is Git && app.show_sidebar {
        let (sidebar, diff) = sidebar_and_diff(main);
        Panes { sidebar: Some(sidebar), diff, status }
    } else {
        Panes { sidebar: None, diff: main, status }
    }
}

impl<G: GitShell + ?Sized> App<G> {
    /// The areas of the screen: one line for the status below, the sidebar
    /// where there is one to show, and the rest for the diff.
    pub fn panes(&self, area: Area) -> (r: Panes)
        requires
            area.fits(),
        ensures
            r == panes_in(*self, area),
            r.diff.fits(),
    {
        let (main, status) = split_area(
            area,
            Axis::Vertical,
            Share::AtLeast(0),
            Share::Exactly(1),
        );
        assert((main, status) == main_and_status(area));
        if self.has_sidebar() && self.show_sidebar {
            let (sidebar, diff) = split_area(
                main,
                Axis::Horizontal,
                Share::Percent(SIDEBAR_PERCENT),
                Share::AtLeast(0),
            );
            Panes { sidebar: Some(sidebar), diff, status }
        } else {
            Panes { sidebar: None, diff: main, status }
        }
    }

    /// The entries of the sidebar.
    fn sidebar_items(&self) -> (r: Vec<SidebarItem>)
        ensures
            item_views(r@) == items_of(self.listed()),
    {
        let files = self.entries();
        let ghost listed = self.listed();
        assert(listed.len() == files@.len());
        let mut r: Vec<SidebarItem> = Vec::new();
        let mut i: usize = 0;
        while i < files.len()
            invariant
                i <= files@.len(),
                r@.len() == i,
                listed == crate::changes::file_views(files@),
                forall|x: int| 0 <= x < i ==> (#[trigger] r@[x])@ == item_of(listed[x]),
            decreases files@.len() - i,
        {
            assert(listed[i as int] == files@[i as int]@);
            r.push(sidebar_item(&files[i]));
            i += 1;
        }
        assert(item_views(r@) =~= items_of(listed));
        r
    }

    /// What the diff pane shows inside its border.
    fn body(&self, inner: Area) -> (r: Body)
        requires
            self.wf(),
            inner.fits(),
            self.scroll_x + u16::MAX <= usize::MAX,
        ensures
            is_body(*self, inner, r),
    {
        match &self.grid {
            Some(grid) => Body::Glyphs(
                draw_grid(inner, grid, self.transposed, (self.scroll_y, self.scroll_x)),
            ),
            None => match &self.message {
                Some(m) => Body::Message {
                    area: Area {
                        x: inner.x,
                        y: inner.y + inner.height.saturating_sub(1) / 2,
                        width: inner.width,
                        height: 1,
                    },
                    message: m.clone(),
                },
                None => Body::Empty,
            },
        }
    }

    /// The status line.
    fn status_line(&self) -> (r: String)
        requires
            self.wf(),
        ensures
            r@ == status_text(*self),
    {
        let mut r = " ".to_string();
        let names = arrow_text(self.labels.0.as_str(), self.labels.1.as_str());
        r.append(names.as_str());
        r.append("  ");
        let ghost head = r@;
        match &self.grid {
            Some(_) => {
                r.append("v");
                let n = text::decimal_text(self.scroll_y as u64);
                r.append(n.as_str());
                r.append("/");
                let n = text::decimal_text(self.max_scroll_y() as u64);
                r.append(n.as_str());
                r.append(" h");
                let n = text::decimal_text(self.scroll_x as u64);
                r.append(n.as_str());
                r.append("/");
                let n = text::decimal_text(self.max_scroll_x() as u64);
                r.append(n.as_str());
                r.append("  ");
                if self.degraded {
                    r.append("LCS skipped (wide file)  ");
                }
            },
            None => match &self.message {
                Some(m) => {
                    r.append(m.as_str());
                    r.append("  ");
                },
                None => {},
            },
        }
        assert(r@ =~= head + status_middle(*self));
        r.append(
            "tab/\u{21e7}tab select \u{b7} hjkl scroll \u{b7} n/p changes \u{b7} t transpose \u{b7} e sidebar \u{b7} q quit",
        );
        r
    }

    /// What the viewer draws in the given areas.
    pub fn screen(&self, panes: Panes) -> (r: Screen)
        requires
            self.wf(),
            panes.diff.fits(),
            self.scroll_x + u16::MAX <= usize::MAX,
        ensures
            is_screen(*self, panes, r),
    {
        let sidebar = match panes.sidebar {
            Some(area) => Some(
                Sidebar { area, items: self.sidebar_items(), selected: self.selection },
            ),
            None => None,
        };
        let names = arrow_text(self.labels.0.as_str(), self.labels.1.as_str());
        let mut title = " ".to_string();
        title.append(names.as_str());
        title.append(" ");
        let body = self.body(inside_borders(panes.diff));
        Screen {
            sidebar,
            diff: DiffPane { area: panes.diff, title, body },
            status: StatusLine { area: panes.status, line: self.status_line() },
        }
    }

    /// What the viewer draws in `area`. The viewer remembers the size of the
    /// diff pane for the limits of scrolling.
    pub fn render(&mut self, area: Area) -> (r: Screen)
        requires
            old(self).wf(),
            area.fits(),
            old(self).scroll_x + u16::MAX <= usize::MAX,
        ensures
            is_screen(*old(self), panes_in(*old(self), area), r),
            *final(self) == (App {
                pane_width: r.diff.area.width as usize,
                pane_height: r.diff.area.height as usize,
                ..*old(self)
            }),
    {
        let panes = self.panes(area);
        let screen = self.screen(panes);
        self.pane_width = panes.diff.width as usize;
        self.pane_height = panes.diff.height as usize;
        screen
    }
}

} // verus!
