//! Keys: scrolling, jumping between changes, selecting a file.

use crate::app::{App, DiffSource};
use crate::diff::{DiffGrid, StepKind, StepView};
use crate::git::GitShell;
use crate::rows;
use crate::text;
use std::ops::Range;
use vstd::prelude::*;

verus! {

/// A key, as far as the viewer tells keys apart.
#[derive(Debug, Clone, Copy, PartialEq, Eq, Structural)]
pub enum KeyCode {
    Char(char),
    Tab,
    BackTab,
    Other,
}

/// A key press.
#[derive(Debug, Clone, Copy, PartialEq, Eq, Structural)]
pub struct KeyEvent {
    pub code: KeyCode,
    /// Whether the control key was held.
    pub ctrl: bool,
}

/// What a key asks of the caller.
#[derive(Debug, Clone, Copy, PartialEq, Eq, Structural)]
pub enum Action {
    /// Nothing more than to draw again.
    Continue,
    /// To read what `App::disk_reads` names and hand it to `App::reload`.
    Reload,
    /// To leave.
    Quit,
}

/// The smaller of a number and a limit.
pub open spec fn at_most(n: int, limit: nat) -> usize {
    if n <= limit {
        n as usize
    } else {
        limit as usize
    }
}

/// The selection `delta` entries on, kept among `n` entries.
pub open spec fn next_selection(selection: usize, delta: int, n: nat) -> usize {
    if selection + delta < 0 {
        0
    } else {
        at_most(selection + delta, (n - 1) as nat)
    }
}

/// The viewer after moving the selection, and what that asks of the caller.
pub open spec fn moved<G: GitShell + ?Sized>(app: App<G>, delta: int) -> (App<G>, Action) {
    let next = next_selection(app.selection, delta, app.listed().len());
    if app.listed().len() == 0 || next == app.selection {
        (app, Action::Continue)
    } else {
        (App { selection: next, ..app }, Action::Reload)
    }
}

/// The groups of steps that are changes.
pub open spec fn change_groups(steps: Seq<StepView>, groups: Seq<Range<usize>>) -> Seq<
    Range<usize>,
>
    decreases groups.len(),
{
    if groups.len() == 0 {
        Seq::empty()
    } else if steps[groups.last().start as int].kind != StepKind::Match {
        change_groups(steps, groups.drop_last()).push(groups.last())
    } else {
        change_groups(steps, groups.drop_last())
    }
}

/// The row at which a group is found: its first step in the transposed view,
/// the first file line that it affects otherwise, and below all rows where it
/// affects none.
pub open spec fn anchor(grid: DiffGrid, transposed: bool, group: Range<usize>) -> int {
    if transposed {
        group.start as int
    } else {
        match rows::first_affected(grid.view_steps(), grid.height as nat, group) {
            Some(r) => r,
            None => usize::MAX as int,
        }
    }
}

/// The first of `ranges` found below row `y`.
pub open spec fn first_below(
    grid: DiffGrid,
    transposed: bool,
    ranges: Seq<Range<usize>>,
    y: int,
) -> Option<Range<usize>>
    decreases ranges.len(),
{
    if ranges.len() == 0 {
        None
    } else if anchor(grid, transposed, ranges.first()) > y {
        Some(ranges.first())
    } else {
        first_below(grid, transposed, ranges.drop_first(), y)
    }
}

/// The last of `ranges` found above row `y`.
pub open spec fn last_above(
    grid: DiffGrid,
    transposed: bool,
    ranges: Seq<Range<usize>>,
    y: int,
) -> Option<Range<usize>>
    decreases ranges.len(),
{
    if ranges.len() == 0 {
        None
    } else if anchor(grid, transposed, ranges.last()) < y {
        Some(ranges.last())
    } else {
        last_above(grid, transposed, ranges.drop_last(), y)
    }
}

/// The group to jump to, forwards or backwards. Forwards, the first change
/// follows the last one; backwards, the last change comes before the top left
/// corner, and `None` says that the top comes before the first change.
pub open spec fn jump_target<G: GitShell + ?Sized>(
    app: App<G>,
    grid: DiffGrid,
    forward: bool,
) -> Option<Range<usize>> {
    let ranges = change_groups(grid.view_steps(), grid.groups@);
    if forward {
        match first_below(grid, app.transposed, ranges, app.scroll_y as int) {
            Some(group) => Some(group),
            None => Some(ranges.first()),
        }
    } else {
        match last_above(grid, app.transposed, ranges, app.scroll_y as int) {
            Some(group) => Some(group),
            None => if app.scroll_y == 0 && app.scroll_x == 0 {
                Some(ranges.last())
            } else {
                None
            },
        }
    }
}

/// The viewer scrolled to a group; to the top left corner for `None`.
pub open spec fn scrolled_to<G: GitShell + ?Sized>(
    app: App<G>,
    grid: DiffGrid,
    target: Option<Range<usize>>,
) -> App<G> {
    match target {
        None => App { scroll_y: 0, scroll_x: 0, ..app },
        Some(group) => if app.transposed {
            App { scroll_y: at_most(group.start as int, app.limit_y()), scroll_x: 0, ..app }
        } else {
            match rows::first_affected(grid.view_steps(), grid.height as nat, group) {
                None => app,
                Some(row) => App {
                    scroll_y: at_most(row, app.limit_y()),
                    scroll_x: at_most(
                        rows::width_to(grid.view_steps(), group.end as int) as int,
                        app.limit_x(),
                    ),
                    ..app
                },
            }
        },
    }
}

/// The viewer after a jump to the next or the previous change.
pub open spec fn jumped<G: GitShell + ?Sized>(app: App<G>, forward: bool) -> App<G> {
    match app.grid {
        None => app,
        Some(grid) => if change_groups(grid.view_steps(), grid.groups@).len() == 0 {
            app
        } else {
            scrolled_to(app, grid, jump_target(app, grid, forward))
        },
    }
}

/// The viewer after a key that carries a character, and what that asks of the
/// caller.
pub open spec fn after_char<G: GitShell + ?Sized>(app: App<G>, c: char) -> (App<G>, Action) {
    match c {
        'q' => (app, Action::Quit),
        't' => (
            App { transposed: !app.transposed, scroll_y: 0, scroll_x: 0, ..app },
            Action::Continue,
        ),
        'e' => (
            if app.source is Git {
                App { show_sidebar: !app.show_sidebar, ..app }
            } else {
                app
            },
            Action::Continue,
        ),
        'g' => (App { scroll_y: 0, ..app }, Action::Continue),
        'G' => (App { scroll_y: app.limit_y() as usize, ..app }, Action::Continue),
        'n' => (jumped(app, true), Action::Continue),
        'p' => (jumped(app, false), Action::Continue),
        'h' => (
            App { scroll_x: text::minus(app.scroll_x as nat, 1) as usize, ..app },
            Action::Continue,
        ),
        'l' => (
            App { scroll_x: at_most(app.scroll_x + 1, app.limit_x()), ..app },
            Action::Continue,
        ),
        'j' => (
            App { scroll_y: at_most(app.scroll_y + 1, app.limit_y()), ..app },
            Action::Continue,
        ),
        'k' => (
            App { scroll_y: text::minus(app.scroll_y as nat, 1) as usize, ..app },
            Action::Continue,
        ),
        _ => (app, Action::Continue),
    }
}

/// The viewer after a key, and what that asks of the caller.
pub open spec fn after_key<G: GitShell + ?Sized>(app: App<G>, key: KeyEvent) -> (App<G>, Action) {
    if key.ctrl && key.code == KeyCode::Char('c') {
        (app, Action::Quit)
    } else {
        match key.code {
            KeyCode::Char(c) => after_char(app, c),
            KeyCode::Tab => moved(app, 1),
            KeyCode::BackTab => moved(app, -1),
            KeyCode::Other => (app, Action::Continue),
        }
    }
}

/// The next cell or row, up to a limit.
fn one_on(n: usize, limit: usize) -> (r: usize)
    ensures
        r == at_most(n + 1, limit as nat),
{
    if n < limit {
        n + 1
    } else {
        limit
    }
}

/// The smaller of two numbers.
fn smaller(n: usize, limit: usize) -> (r: usize)
    ensures
        r == at_most(n as int, limit as nat),
{
    if n <= limit {
        n
    } else {
        limit
    }
}

/// The groups of steps that are changes.
fn find_changes(grid: &DiffGrid) -> (r: Vec<Range<usize>>)
    requires
        grid.wf(),
    ensures
        r@ == change_groups(grid.view_steps(), grid.groups@),
        forall|k: int|
            0 <= k < r@.len() ==> (#[trigger] r@[k]).start < r@[k].end <= grid.steps@.len(),
{
    let ghost steps = grid.view_steps();
    let mut r: Vec<Range<usize>> = Vec::new();
    let mut i: usize = 0;
    assert(grid.groups@.take(0) =~= Seq::empty());
    while i < grid.groups.len()
        invariant
            grid.wf(),
            steps == grid.view_steps(),
            i <= grid.groups@.len(),
            r@ == change_groups(steps, grid.groups@.take(i as int)),
            forall|k: int|
                0 <= k < r@.len() ==> (#[trigger] r@[k]).start < r@[k].end <= grid.steps@.len(),
        decreases grid.groups@.len() - i,
    {
        let start: usize = grid.groups[i].start;
        let end: usize = grid.groups[i].end;
        proof {
            assert(grid.groups@.take(i + 1).drop_last() =~= grid.groups@.take(i as int));
            assert(grid.groups@.take(i + 1).last() == grid.groups@[i as int]);
            assert(start < end <= steps.len());
            assert(steps[start as int] == grid.steps@[start as int]@);
        }
        if grid.steps[start].kind != StepKind::Match {
            r.push(Range { start, end });
        }
        i += 1;
    }
    assert(grid.groups@.take(i as int) =~= grid.groups@);
    r
}

/// The row at which a group is found.
fn find_anchor(grid: &DiffGrid, transposed: bool, group: &Range<usize>) -> (r: usize)
    requires
        group.start <= group.end <= grid.steps@.len(),
    ensures
        r == anchor(*grid, transposed, *group),
{
    if transposed {
        group.start
    } else {
        match rows::first_affected_row(grid, group) {
            Some(r) => r,
            None => usize::MAX,
        }
    }
}

/// The first of `ranges` found below row `y`.
fn find_below(grid: &DiffGrid, transposed: bool, ranges: &Vec<Range<usize>>, y: usize) -> (r:
    Option<Range<usize>>)
    requires
        forall|k: int|
            0 <= k < ranges@.len() ==> (#[trigger] ranges@[k]).start < ranges@[k].end
                <= grid.steps@.len(),
    ensures
        r == first_below(*grid, transposed, ranges@, y as int),
        r matches Some(g) ==> g.start < g.end <= grid.steps@.len(),
{
    let mut i: usize = 0;
    assert(ranges@.skip(0) =~= ranges@);
    while i < ranges.len()
        invariant
            forall|k: int|
                0 <= k < ranges@.len() ==> (#[trigger] ranges@[k]).start < ranges@[k].end
                    <= grid.steps@.len(),
            i <= ranges@.len(),
            first_below(*grid, transposed, ranges@, y as int) == first_below(
                *grid,
                transposed,
                ranges@.skip(i as int),
                y as int,
            ),
        decreases ranges@.len() - i,
    {
        let group = Range { start: ranges[i].start, end: ranges[i].end };
        proof {
            assert(ranges@.skip(i as int).first() == ranges@[i as int]);
            assert(ranges@.skip(i as int).drop_first() =~= ranges@.skip(i + 1));
        }
        if find_anchor(grid, transposed, &group) > y {
            return Some(group);
        }
        i += 1;
    }
    None
}

/// The last of `ranges` found above row `y`.
fn find_above(grid: &DiffGrid, transposed: bool, ranges: &Vec<Range<usize>>, y: usize) -> (r:
    Option<Range<usize>>)
    requires
        forall|k: int|
            0 <= k < ranges@.len() ==> (#[trigger] ranges@[k]).start < ranges@[k].end
                <= grid.steps@.len(),
    ensures
        r == last_above(*grid, transposed, ranges@, y as int),
        r matches Some(g) ==> g.start < g.end <= grid.steps@.len(),
{
    let mut n: usize = ranges.len();
    assert(ranges@.take(n as int) =~= ranges@);
    while n > 0
        invariant
            forall|k: int|
                0 <= k < ranges@.len() ==> (#[trigger] ranges@[k]).start < ranges@[k].end
                    <= grid.steps@.len(),
            n <= ranges@.len(),
            last_above(*grid, transposed, ranges@, y as int) == last_above(
                *grid,
                transposed,
                ranges@.take(n as int),
                y as int,
            ),
        decreases n,
    {
        let group = Range { start: ranges[n - 1].start, end: ranges[n - 1].end };
        proof {
            assert(ranges@.take(n as int).last() == ranges@[n - 1]);
            assert(ranges@.take(n as int).drop_last() =~= ranges@.take(n - 1));
        }
        if find_anchor(grid, transposed, &group) < y {
            return Some(group);
        }
        n -= 1;
    }
    None
}

impl<G: GitShell + ?Sized> App<G> {
    /// Moves the selection by `delta` entries.
    pub fn move_selection(&mut self, delta: i32) -> (r: Action)
        ensures
            (*final(self), r) == moved(*old(self), delta as int),
    {
        let len: usize = match &self.source {
            DiffSource::Git { spec, files, git } => files.len(),
            DiffSource::Files { old, new } => 0,
        };
        assert(len == self.listed().len());
        if len == 0 {
            return Action::Continue;
        }
        let wanted: i128 = self.selection as i128 + delta as i128;
        let next: usize = if wanted < 0 {
            0
        } else if wanted < len as i128 {
            wanted as usize
        } else {
            len - 1
        };
        if next == self.selection {
            return Action::Continue;
        }
        self.selection = next;
        Action::Reload
    }

    /// The group to jump to among the changes `ranges`.
    fn find_target(&self, grid: &DiffGrid, ranges: &Vec<Range<usize>>, forward: bool) -> (r: Option<
        Range<usize>,
    >)
        requires
            ranges@ == change_groups(grid.view_steps(), grid.groups@),
            ranges@.len() > 0,
            forall|k: int|
                0 <= k < ranges@.len() ==> (#[trigger] ranges@[k]).start < ranges@[k].end
                    <= grid.steps@.len(),
        ensures
            r == jump_target(*self, *grid, forward),
            r matches Some(g) ==> g.start < g.end <= grid.steps@.len(),
    {
        if forward {
            match find_below(grid, self.transposed, ranges, self.scroll_y) {
                Some(group) => Some(group),
                None => Some(Range { start: ranges[0].start, end: ranges[0].end }),
            }
        } else {
            match find_above(grid, self.transposed, ranges, self.scroll_y) {
                Some(group) => Some(group),
                None => {
                    if self.scroll_y == 0 && self.scroll_x == 0 {
                        let last: usize = ranges.len() - 1;
                        Some(Range { start: ranges[last].start, end: ranges[last].end })
                    } else {
                        None
                    }
                },
            }
        }
    }

    /// Where a jump to the next or the previous change scrolls to.
    fn find_jump(&self, forward: bool) -> (r: (usize, usize))
        requires
            self.wf(),
        ensures
            (App { scroll_y: r.0, scroll_x: r.1, ..*self }) == jumped(*self, forward),
    {
        match &self.grid {
            None => (self.scroll_y, self.scroll_x),
            Some(grid) => {
                let ranges = find_changes(grid);
                if ranges.len() == 0 {
                    return (self.scroll_y, self.scroll_x);
                }
                match self.find_target(grid, &ranges, forward) {
                    None => (0, 0),
                    Some(group) => {
                        if self.transposed {
                            (smaller(group.start, self.max_scroll_y()), 0)
                        } else {
                            match rows::first_affected_row(grid, &group) {
                                None => (self.scroll_y, self.scroll_x),
                                Some(row) => (
                                    smaller(row, self.max_scroll_y()),
                                    smaller(
                                        rows::group_start_width(grid, &group),
                                        self.max_scroll_x(),
                                    ),
                                ),
                            }
                        }
                    },
                }
            },
        }
    }

    /// Jumps to the next (`dir` positive) or the previous change group.
    pub fn jump_group(&mut self, dir: i32)
        requires
            old(self).wf(),
        ensures
            *final(self) == jumped(*old(self), dir > 0),
    {
        let (y, x) = self.find_jump(dir > 0);
        self.scroll_y = y;
        self.scroll_x = x;
    }

    /// Handles one key, and says what it asks of the caller.
    pub fn handle_key(&mut self, key: KeyEvent) -> (r: Action)
        requires
            old(self).wf(),
        ensures
            (*final(self), r) == after_key(*old(self), key),
    {
        if key.ctrl && key.code == KeyCode::Char('c') {
            return Action::Quit;
        }
        match key.code {
            KeyCode::Char('q') => {
                return Action::Quit;
            },
            KeyCode::Char('t') => {
                self.transposed = !self.transposed;
                self.scroll_y = 0;
                self.scroll_x = 0;
            },
            KeyCode::Char('e') => {
                if self.has_sidebar() {
                    self.show_sidebar = !self.show_sidebar;
                }
            },
            KeyCode::Char('g') => {
                self.scroll_y = 0;
            },
            KeyCode::Char('G') => {
                self.scroll_y = self.max_scroll_y();
            },
            KeyCode::Char('n') => {
                self.jump_group(1);
            },
            KeyCode::Char('p') => {
                self.jump_group(-1);
            },
            KeyCode::Char('h') => {
                self.scroll_x = self.scroll_x.saturating_sub(1);
            },
            KeyCode::Char('l') => {
                self.scroll_x = one_on(self.scroll_x, self.max_scroll_x());
            },
            KeyCode::Char('j') => {
                self.scroll_y = one_on(self.scroll_y, self.max_scroll_y());
            },
            KeyCode::Char('k') => {
                self.scroll_y = self.scroll_y.saturating_sub(1);
            },
            KeyCode::Char(_) => {},
            KeyCode::Tab => {
                return self.move_selection(1);
            },
            KeyCode::BackTab => {
                return self.move_selection(-1);
            },
            KeyCode::Other => {},
        }
        Action::Continue
    }
}

} // verus!
