//! What holds of every key.

use crate::app;
use crate::app::App;
use crate::content::Texts;
use crate::diff::{DiffGrid, StepKind};
use crate::git::GitShell;
use crate::keys;
use crate::keys::{Action, KeyCode, KeyEvent};
use crate::rows;
use std::ops::Range;
use vstd::prelude::*;

verus! {

/// A key press of a character without the control key.
pub open spec fn plain_key(c: char) -> KeyEvent {
    KeyEvent { code: KeyCode::Char(c), ctrl: false }
}

/// The viewer after a character key.
pub open spec fn after_plain<G: GitShell + ?Sized>(app: App<G>, c: char) -> App<G> {
    keys::after_key(app, plain_key(c)).0
}

/// Whether both scrolls are within their limits.
pub open spec fn in_limits<G: GitShell + ?Sized>(app: App<G>) -> bool {
    app.scroll_y <= app.limit_y() && app.scroll_x <= app.limit_x()
}

/// `after` is `before` but for the scrolls.
pub open spec fn only_scrolled<G: GitShell + ?Sized>(before: App<G>, after: App<G>) -> bool {
    after == App { scroll_y: after.scroll_y, scroll_x: after.scroll_x, ..before }
}

/// Scrolling to a group changes the scrolls alone, and keeps them within their
/// limits.
proof fn lemma_scrolled<G: GitShell + ?Sized>(
    app: App<G>,
    grid: DiffGrid,
    target: Option<Range<usize>>,
)
    ensures
        only_scrolled(app, keys::scrolled_to(app, grid, target)),
        in_limits(app) && app.limit_y() <= usize::MAX && app.limit_x() <= usize::MAX ==> in_limits(
            keys::scrolled_to(app, grid, target),
        ),
{
    if target is Some {
        rows::lemma_affected_row(grid.view_steps(), grid.height as nat, target->0, 0);
    }
}

/// A jump changes the scrolls alone, and keeps them within their limits.
pub proof fn lemma_jumped<G: GitShell + ?Sized>(app: App<G>, forward: bool)
    ensures
        only_scrolled(app, keys::jumped(app, forward)),
        in_limits(app) && app.limit_y() <= usize::MAX && app.limit_x() <= usize::MAX ==> in_limits(
            keys::jumped(app, forward),
        ),
{
    if app.grid is Some {
        let grid = app.grid->0;
        lemma_scrolled(app, grid, keys::jump_target(app, grid, forward));
    }
}

/// A key never changes what is compared, nor the diff that is shown, nor what
/// the viewer knows of its pane.
pub proof fn law_keys_keep_the_diff<G: GitShell + ?Sized>(app: App<G>, key: KeyEvent)
    ensures
        keys::after_key(app, key).0.source == app.source,
        keys::after_key(app, key).0.grid == app.grid,
        keys::after_key(app, key).0.message == app.message,
        keys::after_key(app, key).0.degraded == app.degraded,
        keys::after_key(app, key).0.labels == app.labels,
        keys::after_key(app, key).0.pane_width == app.pane_width,
        keys::after_key(app, key).0.pane_height == app.pane_height,
{
    lemma_jumped(app, true);
    lemma_jumped(app, false);
}

/// A key never scrolls past the limits.
pub proof fn law_keys_stay_within_limits<G: GitShell + ?Sized>(app: App<G>, key: KeyEvent)
    requires
        in_limits(app),
        app.limit_y() <= usize::MAX,
        app.limit_x() <= usize::MAX,
    ensures
        in_limits(keys::after_key(app, key).0),
{
    lemma_jumped(app, true);
    lemma_jumped(app, false);
}

/// Showing an entry puts both scrolls within their limits.
pub proof fn law_shown_entry_starts_in_its_corner<G: GitShell + ?Sized>(
    before: App<G>,
    t: Texts,
    after: App<G>,
)
    requires
        app::now_shows(before, t, after),
    ensures
        in_limits(after),
        after.scroll_y == 0,
        after.scroll_x == 0,
        after.wf(),
{
}

/// The viewer leaves on `q` and on control-C, and on no other key.
pub proof fn law_only_q_and_ctrl_c_quit<G: GitShell + ?Sized>(app: App<G>, key: KeyEvent)
    ensures
        keys::after_key(app, key).1 == Action::Quit <==> key.code == KeyCode::Char('q') || (
        key.code == KeyCode::Char('c') && key.ctrl),
{
}

/// Only tab and back tab move the selection, and the caller is asked to read
/// the selected entry's files exactly when the selection has moved.
pub proof fn law_reload_follows_the_selection<G: GitShell + ?Sized>(app: App<G>, key: KeyEvent)
    ensures
        keys::after_key(app, key).1 == Action::Reload <==> keys::after_key(app, key).0.selection
            != app.selection,
        keys::after_key(app, key).0.selection != app.selection ==> key.code == KeyCode::Tab
            || key.code == KeyCode::BackTab,
{
}

/// The selection never leaves the list.
pub proof fn law_selection_stays_in_the_list<G: GitShell + ?Sized>(app: App<G>, key: KeyEvent)
    requires
        app.selection < app.listed().len(),
    ensures
        keys::after_key(app, key).0.selection < app.listed().len(),
{
}

/// Tab and then back tab come back to the same entry, unless the last one is
/// selected.
pub proof fn law_back_tab_undoes_tab<G: GitShell + ?Sized>(app: App<G>)
    requires
        app.selection + 1 < app.listed().len(),
        app.listed().len() <= usize::MAX,
    ensures
        keys::moved(keys::moved(app, 1).0, -1).0 == app,
{
    assert(keys::moved(app, 1).0.listed() == app.listed());
}

/// `k` undoes `j` and `h` undoes `l`, except at the limit.
pub proof fn law_opposite_keys_undo<G: GitShell + ?Sized>(app: App<G>)
    requires
        app.limit_y() <= usize::MAX,
        app.limit_x() <= usize::MAX,
    ensures
        app.scroll_y < app.limit_y() ==> after_plain(after_plain(app, 'j'), 'k') == app,
        app.scroll_x < app.limit_x() ==> after_plain(after_plain(app, 'l'), 'h') == app,
{
}

/// `t` twice gives the same view back, from its top left corner; `e` twice
/// changes nothing.
pub proof fn law_toggles_undo_themselves<G: GitShell + ?Sized>(app: App<G>)
    ensures
        after_plain(after_plain(app, 't'), 't') == (App { scroll_y: 0, scroll_x: 0, ..app }),
        after_plain(after_plain(app, 'e'), 'e') == app,
{
}

/// `g` leads to the top and `G` to the bottom, from wherever.
pub proof fn law_top_and_bottom<G: GitShell + ?Sized>(app: App<G>)
    requires
        app.limit_y() <= usize::MAX,
    ensures
        after_plain(app, 'g').scroll_y == 0,
        after_plain(app, 'G').scroll_y == app.limit_y(),
{
}

/// Scrolling, jumping and toggling do not touch the selection.
pub proof fn law_characters_keep_the_selection<G: GitShell + ?Sized>(app: App<G>, c: char)
    ensures
        after_plain(app, c).selection == app.selection,
{
}

/// The changes that can be jumped to are groups of the grid, and every step in
/// them is a change.
pub proof fn law_jumps_lead_to_changes(grid: DiffGrid, n: int, k: int)
    requires
        grid.wf(),
        0 <= n <= grid.groups@.len(),
        0 <= k < keys::change_groups(grid.view_steps(), grid.groups@.take(n)).len(),
    ensures
        ({
            let group = keys::change_groups(grid.view_steps(), grid.groups@.take(n))[k];
            &&& grid.groups@.contains(group)
            &&& forall|i: int|
                group.start <= i < group.end ==> (#[trigger] grid.view_steps()[i]).kind
                    != StepKind::Match
        }),
    decreases n,
{
    if n > 0 {
        let steps = grid.view_steps();
        let some = grid.groups@.take(n);
        assert(some.drop_last() =~= grid.groups@.take(n - 1));
        assert(some.last() == grid.groups@[n - 1]);
        let head = keys::change_groups(steps, grid.groups@.take(n - 1));
        if k < head.len() {
            law_jumps_lead_to_changes(grid, n - 1, k);
            assert(keys::change_groups(steps, some)[k] == head[k]);
        } else {
            let group = grid.groups@[n - 1];
            assert(keys::change_groups(steps, some)[k] == group);
            assert forall|i: int| group.start <= i < group.end implies (
            #[trigger] steps[i]).kind != StepKind::Match by {
                assert(steps[i].kind == steps[grid.groups@[n - 1].start as int].kind);
            }
        }
    } else {
        assert(grid.groups@.take(n) =~= Seq::<Range<usize>>::empty());
    }
}

/// The first change below a row: it lies below the row, and no change before it
/// does; where there is none, no change lies below the row.
pub proof fn law_next_change_is_the_first_below(
    grid: DiffGrid,
    transposed: bool,
    ranges: Seq<Range<usize>>,
    y: int,
)
    ensures
        match keys::first_below(grid, transposed, ranges, y) {
            Some(group) => exists|k: int|
                0 <= k < ranges.len() && #[trigger] ranges[k] == group && keys::anchor(
                    grid,
                    transposed,
                    group,
                ) > y && forall|j: int|
                    0 <= j < k ==> keys::anchor(grid, transposed, #[trigger] ranges[j]) <= y,
            None => forall|j: int|
                0 <= j < ranges.len() ==> keys::anchor(grid, transposed, #[trigger] ranges[j])
                    <= y,
        },
    decreases ranges.len(),
{
    if ranges.len() > 0 {
        let rest = ranges.drop_first();
        if keys::anchor(grid, transposed, ranges.first()) > y {
            assert(ranges[0] == ranges.first());
        } else {
            law_next_change_is_the_first_below(grid, transposed, rest, y);
            match keys::first_below(grid, transposed, rest, y) {
                Some(group) => {
                    let k = choose|k: int|
                        0 <= k < rest.len() && #[trigger] rest[k] == group && keys::anchor(
                            grid,
                            transposed,
                            group,
                        ) > y && forall|j: int|
                            0 <= j < k ==> keys::anchor(grid, transposed, #[trigger] rest[j])
                                <= y;
                    assert(ranges[k + 1] == group);
                    assert forall|j: int| 0 <= j < k + 1 implies keys::anchor(
                        grid,
                        transposed,
                        #[trigger] ranges[j],
                    ) <= y by {
                        if j > 0 {
                            assert(rest[j - 1] == ranges[j]);
                        }
                    }
                },
                None => {
                    assert forall|j: int| 0 <= j < ranges.len() implies keys::anchor(
                        grid,
                        transposed,
                        #[trigger] ranges[j],
                    ) <= y by {
                        if j > 0 {
                            assert(rest[j - 1] == ranges[j]);
                        }
                    }
                },
            }
        }
    }
}

/// The last change above a row: it lies above the row, and no change after it
/// does; where there is none, no change lies above the row.
pub proof fn law_previous_change_is_the_last_above(
    grid: DiffGrid,
    transposed: bool,
    ranges: Seq<Range<usize>>,
    y: int,
)
    ensures
        match keys::last_above(grid, transposed, ranges, y) {
            Some(group) => exists|k: int|
                0 <= k < ranges.len() && #[trigger] ranges[k] == group && keys::anchor(
                    grid,
                    transposed,
                    group,
                ) < y && forall|j: int|
                    k < j < ranges.len() ==> keys::anchor(grid, transposed, #[trigger] ranges[j])
                        >= y,
            None => forall|j: int|
                0 <= j < ranges.len() ==> keys::anchor(grid, transposed, #[trigger] ranges[j])
                    >= y,
        },
    decreases ranges.len(),
{
    if ranges.len() > 0 {
        let rest = ranges.drop_last();
        let n = ranges.len() - 1;
        if keys::anchor(grid, transposed, ranges.last()) < y {
            assert(ranges[n] == ranges.last());
        } else {
            law_previous_change_is_the_last_above(grid, transposed, rest, y);
            match keys::last_above(grid, transposed, rest, y) {
                Some(group) => {
                    let k = choose|k: int|
                        0 <= k < rest.len() && #[trigger] rest[k] == group && keys::anchor(
                            grid,
                            transposed,
                            group,
                        ) < y && forall|j: int|
                            k < j < rest.len() ==> keys::anchor(
                                grid,
                                transposed,
                                #[trigger] rest[j],
                            ) >= y;
                    assert(ranges[k] == group);
                    assert forall|j: int| k < j < ranges.len() implies keys::anchor(
                        grid,
                        transposed,
                        #[trigger] ranges[j],
                    ) >= y by {
                        if j < n {
                            assert(rest[j] == ranges[j]);
                        }
                    }
                },
                None => {
                    assert forall|j: int| 0 <= j < ranges.len() implies keys::anchor(
                        grid,
                        transposed,
                        #[trigger] ranges[j],
                    ) >= y by {
                        if j < n {
                            assert(rest[j] == ranges[j]);
                        }
                    }
                },
            }
        }
    }
}

} // verus!
