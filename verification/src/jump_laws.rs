//! Where `n` and `p` lead, and how far the other keys go.

use crate::app::App;
use crate::diff;
use crate::diff::{DiffGrid, StepKind, StepView};
use crate::git::GitShell;
use crate::key_laws;
use crate::keys;
use crate::keys::{Action, KeyCode, KeyEvent};
use crate::render;
use crate::rows;
use crate::view_laws;
use crate::width;
use std::ops::Range;
use vstd::prelude::*;

verus! {

/// Whether group `k` of the grid is a change.
pub open spec fn is_change(grid: DiffGrid, k: int) -> bool {
    0 <= k < grid.groups@.len() && grid.view_steps()[grid.groups@[k].start as int].kind
        != StepKind::Match
}

/// Whether some step of the group shows more than a blank in file line `r`.
pub open spec fn shows_in_line(steps: Seq<StepView>, group: Range<usize>, r: int) -> bool {
    exists|i: int|
        group.start <= i < group.end && 0 <= r < (#[trigger] steps[i]).content.len()
            && steps[i].content[r] != ' '
}

/// A group is found at its first step in the transposed view; otherwise at the
/// first file line in which it shows something, and below all rows where it
/// shows nothing.
pub proof fn law_group_is_found_at_its_first_line(grid: DiffGrid, group: Range<usize>)
    ensures
        keys::anchor(grid, true, group) == group.start,
        ({
            let y = keys::anchor(grid, false, group);
            ||| {
                &&& 0 <= y < grid.height
                &&& shows_in_line(grid.view_steps(), group, y)
                &&& forall|j: int|
                    0 <= j < y ==> !#[trigger] shows_in_line(grid.view_steps(), group, j)
            }
            ||| {
                &&& y == usize::MAX
                &&& forall|j: int|
                    0 <= j < grid.height ==> !#[trigger] shows_in_line(
                        grid.view_steps(),
                        group,
                        j,
                    )
            }
        }),
{
    let steps = grid.view_steps();
    let height = grid.height as nat;
    rows::lemma_affected_row(steps, height, group, 0);
    assert forall|j: int| shows_in_line(steps, group, j) == rows::row_affected(
        steps,
        group,
        j,
    ) by {}
    lemma_no_affected_row(steps, height, group, 0);
    assert forall|j: int|
        0 <= j < height && rows::first_affected(steps, height, group) is None implies !(
    #[trigger] shows_in_line(steps, group, j)) by {
        assert(!rows::row_affected(steps, group, j));
    }
    if rows::first_affected(steps, height, group) is Some {
        let y = rows::first_affected(steps, height, group)->0;
        assert forall|j: int| 0 <= j < y implies !#[trigger] shows_in_line(
            steps,
            group,
            j,
        ) by {
            assert(!rows::row_affected(steps, group, j));
        }
        assert(shows_in_line(steps, group, y));
    }
}

proof fn lemma_no_affected_row(steps: Seq<StepView>, height: nat, group: Range<usize>, r: int)
    ensures
        rows::affected_from(steps, height, group, r) is None ==> forall|j: int|
            r <= j < height ==> !#[trigger] rows::row_affected(steps, group, j),
    decreases height - r,
{
    if r < height && !rows::row_affected(steps, group, r) {
        lemma_no_affected_row(steps, height, group, r + 1);
    }
}

/// Past a group, in display cells: every column is as wide as its widest
/// character, and one cell more where it is the last of its run.
pub proof fn law_columns_before_a_group_add_up(steps: Seq<StepView>, k: int)
    requires
        0 <= k < steps.len(),
    ensures
        rows::width_to(steps, 0) == 0,
        rows::width_to(steps, k + 1) - rows::width_to(steps, k) == width::column_width(
            steps[k].content,
        ) + if k + 1 == steps.len() || steps[k].kind != steps[k + 1].kind {
            1int
        } else {
            0
        },
{
}

/// Where a separator follows step `k - 1`, the column to jump to is the display
/// cell in which step `k` starts in the marker row.
pub proof fn law_jump_column_is_where_the_next_step_starts(steps: Seq<StepView>, k: int)
    requires
        0 < k < steps.len(),
        rows::before_cut(steps, k - 1),
    ensures
        rows::width_to(steps, k) == width::cells(rows::marks_to(steps, k)),
    decreases k,
{
    let i = k - 1;
    if i > 0 {
        let j = choose|j: int| i <= j && #[trigger] diff::boundary(steps, j);
        assert(i - 1 <= j && diff::boundary(steps, j));
        law_jump_column_is_where_the_next_step_starts(steps, i);
    } else {
        assert(rows::marks_to(steps, 0) =~= Seq::<char>::empty());
        assert(width::cells(rows::marks_to(steps, 0)) == 0);
        assert(rows::width_to(steps, 0) == 0);
    }
    let room = rows::cell_room(steps, i);
    view_laws::lemma_mark_fills(steps[i].kind, room);
    view_laws::lemma_cell_width(
        render::mark_of(steps[i].kind),
        room,
        diff::boundary(steps, i),
    );
    view_laws::lemma_cells_concat(
        rows::marks_to(steps, i),
        render::cell_text(render::mark_of(steps[i].kind), room, diff::boundary(steps, i)),
    );
}

/// Whether `after` is `app` scrolled to a group: to its row and column, each
/// capped by its limit. A group that shows nothing in any line leaves the view
/// where it is.
pub open spec fn scrolled_at<G: GitShell + ?Sized>(
    app: App<G>,
    grid: DiffGrid,
    group: Range<usize>,
    after: App<G>,
) -> bool {
    let y = keys::anchor(grid, app.transposed, group);
    let x = rows::width_to(grid.view_steps(), group.end as int);
    if app.transposed {
        &&& after.scroll_y == if y <= app.limit_y() {
            y
        } else {
            app.limit_y() as int
        }
        &&& after.scroll_x == 0
    } else if y < grid.height {
        &&& after.scroll_y == if y <= app.limit_y() {
            y
        } else {
            app.limit_y() as int
        }
        &&& after.scroll_x == if x <= app.limit_x() {
            x
        } else {
            app.limit_x()
        }
    } else {
        after.scroll_y == app.scroll_y && after.scroll_x == app.scroll_x
    }
}

/// `i`-th of the listed changes as a group of the grid.
proof fn lemma_listed_change(grid: DiffGrid, n: int, i: int) -> (k: int)
    requires
        0 <= n <= grid.groups@.len(),
        0 <= i < keys::change_groups(grid.view_steps(), grid.groups@.take(n)).len(),
    ensures
        0 <= k < n,
        is_change(grid, k),
        grid.groups@[k] == keys::change_groups(grid.view_steps(), grid.groups@.take(n))[i],
        keys::change_groups(grid.view_steps(), grid.groups@.take(k)).len() == i,
    decreases n,
{
    let some = grid.groups@.take(n);
    if n == 0 {
        assert(some =~= Seq::<Range<usize>>::empty());
        0
    } else {
        assert(some.drop_last() =~= grid.groups@.take(n - 1));
        assert(some.last() == grid.groups@[n - 1]);
        let head = keys::change_groups(grid.view_steps(), grid.groups@.take(n - 1));
        if i < head.len() {
            lemma_listed_change(grid, n - 1, i)
        } else {
            n - 1
        }
    }
}

/// The changes among the first groups stand first in the list.
proof fn lemma_list_grows(grid: DiffGrid, m: int, n: int)
    requires
        0 <= m <= n <= grid.groups@.len(),
    ensures
        keys::change_groups(grid.view_steps(), grid.groups@.take(m)).len() <= keys::change_groups(
            grid.view_steps(),
            grid.groups@.take(n),
        ).len(),
        forall|i: int|
            0 <= i < keys::change_groups(grid.view_steps(), grid.groups@.take(m)).len()
                ==> #[trigger] keys::change_groups(grid.view_steps(), grid.groups@.take(n))[i]
                == keys::change_groups(grid.view_steps(), grid.groups@.take(m))[i],
    decreases n - m,
{
    if m < n {
        lemma_list_grows(grid, m, n - 1);
        assert(grid.groups@.take(n).drop_last() =~= grid.groups@.take(n - 1));
        let x = keys::change_groups(grid.view_steps(), grid.groups@.take(m));
        let y = keys::change_groups(grid.view_steps(), grid.groups@.take(n - 1));
        let z = keys::change_groups(grid.view_steps(), grid.groups@.take(n));
        assert forall|i: int| 0 <= i < x.len() implies #[trigger] z[i] == x[i] by {
            assert(y[i] == x[i]);
        }
    }
}

/// The place of change `k` in the list of changes.
proof fn lemma_place_of_change(grid: DiffGrid, k: int)
    requires
        is_change(grid, k),
    ensures
        keys::change_groups(grid.view_steps(), grid.groups@.take(k)).len() < keys::change_groups(
            grid.view_steps(),
            grid.groups@,
        ).len(),
        keys::change_groups(grid.view_steps(), grid.groups@)[keys::change_groups(
            grid.view_steps(),
            grid.groups@.take(k),
        ).len() as int] == grid.groups@[k],
{
    let n = grid.groups@.len() as int;
    assert(grid.groups@.take(n) =~= grid.groups@);
    let head = keys::change_groups(grid.view_steps(), grid.groups@.take(k));
    let next = keys::change_groups(grid.view_steps(), grid.groups@.take(k + 1));
    assert(grid.groups@.take(k + 1).drop_last() =~= grid.groups@.take(k));
    assert(grid.groups@.take(k + 1).last() == grid.groups@[k]);
    assert(next == head.push(grid.groups@[k]));
    lemma_list_grows(grid, k + 1, n);
    assert(next[head.len() as int] == grid.groups@[k]);
}

/// A later change stands further back in the list.
proof fn lemma_list_in_order(grid: DiffGrid, j: int, k: int)
    requires
        is_change(grid, j),
        0 <= j < k <= grid.groups@.len(),
    ensures
        keys::change_groups(grid.view_steps(), grid.groups@.take(j)).len() < keys::change_groups(
            grid.view_steps(),
            grid.groups@.take(k),
        ).len(),
{
    assert(grid.groups@.take(j + 1).drop_last() =~= grid.groups@.take(j));
    assert(grid.groups@.take(j + 1).last() == grid.groups@[j]);
    lemma_list_grows(grid, j + 1, k);
}

/// The row at which group `j` is found in the view that is shown.
pub open spec fn row_of<G: GitShell + ?Sized>(app: App<G>, grid: DiffGrid, j: int) -> int {
    keys::anchor(grid, app.transposed, grid.groups@[j])
}

/// Whether change `k` is the first one found below the current row.
pub open spec fn first_change_below<G: GitShell + ?Sized>(
    app: App<G>,
    grid: DiffGrid,
    k: int,
) -> bool {
    &&& row_of(app, grid, k) > app.scroll_y
    &&& forall|j: int|
        j < k && #[trigger] is_change(grid, j) ==> row_of(app, grid, j) <= app.scroll_y
}

/// Whether no change is found below the current row.
pub open spec fn no_change_below<G: GitShell + ?Sized>(app: App<G>, grid: DiffGrid) -> bool {
    forall|j: int| #[trigger] is_change(grid, j) ==> row_of(app, grid, j) <= app.scroll_y
}

/// Whether change `k` is the last one found above the current row.
pub open spec fn last_change_above<G: GitShell + ?Sized>(
    app: App<G>,
    grid: DiffGrid,
    k: int,
) -> bool {
    &&& row_of(app, grid, k) < app.scroll_y
    &&& forall|j: int|
        k < j && #[trigger] is_change(grid, j) ==> row_of(app, grid, j) >= app.scroll_y
}

/// Whether no change is found above the current row.
pub open spec fn no_change_above<G: GitShell + ?Sized>(app: App<G>, grid: DiffGrid) -> bool {
    forall|j: int| #[trigger] is_change(grid, j) ==> row_of(app, grid, j) >= app.scroll_y
}

/// Whether `k` is the first change of the grid.
pub open spec fn is_first_change(grid: DiffGrid, k: int) -> bool {
    forall|j: int| #[trigger] is_change(grid, j) ==> k <= j
}

/// Whether `k` is the last change of the grid.
pub open spec fn is_last_change(grid: DiffGrid, k: int) -> bool {
    forall|j: int| #[trigger] is_change(grid, j) ==> j <= k
}

/// The place in the list of changes of the first one found below row `y`; none
/// is found below it where that is the first place of all.
proof fn lemma_place_below(grid: DiffGrid, tr: bool, ranges: Seq<Range<usize>>, y: int) -> (i: int)
    requires
        ranges.len() > 0,
    ensures
        0 <= i < ranges.len(),
        forall|j: int| 0 <= j < i ==> keys::anchor(grid, tr, #[trigger] ranges[j]) <= y,
        match keys::first_below(grid, tr, ranges, y) {
            Some(group) => group == ranges[i] && keys::anchor(grid, tr, group) > y,
            None => i == 0 && forall|j: int|
                0 <= j < ranges.len() ==> keys::anchor(grid, tr, #[trigger] ranges[j]) <= y,
        },
{
    key_laws::law_next_change_is_the_first_below(grid, tr, ranges, y);
    if keys::first_below(grid, tr, ranges, y) is Some {
        let group = keys::first_below(grid, tr, ranges, y)->0;
        choose|k: int|
            0 <= k < ranges.len() && #[trigger] ranges[k] == group && keys::anchor(grid, tr, group)
                > y && forall|j: int|
                0 <= j < k ==> keys::anchor(grid, tr, #[trigger] ranges[j]) <= y
    } else {
        0
    }
}

/// The place in the list of changes of the last one found above row `y`; none
/// is found above it where that is the last place of all.
proof fn lemma_place_above(grid: DiffGrid, tr: bool, ranges: Seq<Range<usize>>, y: int) -> (i: int)
    requires
        ranges.len() > 0,
    ensures
        0 <= i < ranges.len(),
        forall|j: int| i < j < ranges.len() ==> keys::anchor(grid, tr, #[trigger] ranges[j]) >= y,
        match keys::last_above(grid, tr, ranges, y) {
            Some(group) => group == ranges[i] && keys::anchor(grid, tr, group) < y,
            None => i == ranges.len() - 1 && forall|j: int|
                0 <= j < ranges.len() ==> keys::anchor(grid, tr, #[trigger] ranges[j]) >= y,
        },
{
    key_laws::law_previous_change_is_the_last_above(grid, tr, ranges, y);
    if keys::last_above(grid, tr, ranges, y) is Some {
        let group = keys::last_above(grid, tr, ranges, y)->0;
        choose|k: int|
            0 <= k < ranges.len() && #[trigger] ranges[k] == group && keys::anchor(grid, tr, group)
                < y && forall|j: int|
                k < j < ranges.len() ==> keys::anchor(grid, tr, #[trigger] ranges[j]) >= y
    } else {
        ranges.len() - 1
    }
}

proof fn lemma_next_target<G: GitShell + ?Sized>(app: App<G>, grid: DiffGrid, c: int) -> (k: int)
    requires
        is_change(grid, c),
    ensures
        is_change(grid, k),
        keys::change_groups(grid.view_steps(), grid.groups@).len() > 0,
        keys::jump_target(app, grid, true) == Some(grid.groups@[k]),
        first_change_below(app, grid, k) || (no_change_below(app, grid) && is_first_change(
            grid,
            k,
        )),
{
    let n = grid.groups@.len() as int;
    assert(grid.groups@.take(n) =~= grid.groups@);
    let ranges = keys::change_groups(grid.view_steps(), grid.groups@);
    lemma_place_of_change(grid, c);
    let y = app.scroll_y as int;
    let i = lemma_place_below(grid, app.transposed, ranges, y);
    let k = lemma_listed_change(grid, n, i);
    let none = keys::first_below(grid, app.transposed, ranges, y) is None;
    assert forall|j: int| #[trigger] is_change(grid, j) implies (j < k || none ==> row_of(
        app,
        grid,
        j,
    ) <= y) && (none ==> k <= j) by {
        lemma_place_of_change(grid, j);
        let at = keys::change_groups(grid.view_steps(), grid.groups@.take(j)).len() as int;
        assert(ranges[at] == grid.groups@[j]);
        if j < k {
            lemma_list_in_order(grid, j, k);
        }
    }
    k
}

proof fn lemma_previous_target<G: GitShell + ?Sized>(app: App<G>, grid: DiffGrid, c: int) -> (k:
    int)
    requires
        is_change(grid, c),
    ensures
        is_change(grid, k),
        keys::change_groups(grid.view_steps(), grid.groups@).len() > 0,
        keys::jump_target(app, grid, false) == if no_change_above(app, grid) && (app.scroll_y > 0
            || app.scroll_x > 0) {
            None
        } else {
            Some(grid.groups@[k])
        },
        last_change_above(app, grid, k) || (no_change_above(app, grid) && is_last_change(grid, k)),
{
    let n = grid.groups@.len() as int;
    assert(grid.groups@.take(n) =~= grid.groups@);
    let ranges = keys::change_groups(grid.view_steps(), grid.groups@);
    lemma_place_of_change(grid, c);
    let y = app.scroll_y as int;
    let i = lemma_place_above(grid, app.transposed, ranges, y);
    let k = lemma_listed_change(grid, n, i);
    let none = keys::last_above(grid, app.transposed, ranges, y) is None;
    assert forall|j: int| #[trigger] is_change(grid, j) implies (k < j || none ==> row_of(
        app,
        grid,
        j,
    ) >= y) && (none ==> j <= k) by {
        lemma_place_of_change(grid, j);
        let at = keys::change_groups(grid.view_steps(), grid.groups@.take(j)).len() as int;
        assert(ranges[at] == grid.groups@[j]);
        if k < j {
            lemma_list_in_order(grid, k, j);
        }
    }
    assert(is_change(grid, k));
    assert(none <==> no_change_above(app, grid));
    k
}

proof fn lemma_scrolled_at<G: GitShell + ?Sized>(
    app: App<G>,
    grid: DiffGrid,
    group: Range<usize>,
)
    requires
        app.limit_y() <= usize::MAX,
        app.limit_x() <= usize::MAX,
    ensures
        scrolled_at(app, grid, group, keys::scrolled_to(app, grid, Some(group))),
{
    rows::lemma_affected_row(grid.view_steps(), grid.height as nat, group, 0);
}

/// Where a grid has some change `c`, `n` always leads to a change: to the first
/// one found below the current row, or, where there is none, to the first change
/// of the grid. The scrolls are then that change's row and column, each capped
/// by its limit.
pub proof fn law_n_leads_to_the_next_change<G: GitShell + ?Sized>(
    app: App<G>,
    grid: DiffGrid,
    c: int,
) -> (k: int)
    requires
        app.grid == Some(grid),
        is_change(grid, c),
        app.limit_y() <= usize::MAX,
        app.limit_x() <= usize::MAX,
    ensures
        is_change(grid, k),
        first_change_below(app, grid, k) || (no_change_below(app, grid) && is_first_change(
            grid,
            k,
        )),
        scrolled_at(
            app,
            grid,
            grid.groups@[k],
            keys::after_key(app, key_laws::plain_key('n')).0,
        ),
{
    let k = lemma_next_target(app, grid, c);
    lemma_scrolled_at(app, grid, grid.groups@[k]);
    k
}

/// Where a grid has some change `c`, `p` leads to the last change found above
/// the current row; where there is none, from the top left corner to the last
/// change of the grid, and from anywhere else to the top left corner.
pub proof fn law_p_leads_to_the_previous_change<G: GitShell + ?Sized>(
    app: App<G>,
    grid: DiffGrid,
    c: int,
) -> (k: int)
    requires
        app.grid == Some(grid),
        is_change(grid, c),
        app.limit_y() <= usize::MAX,
        app.limit_x() <= usize::MAX,
    ensures
        is_change(grid, k),
        last_change_above(app, grid, k) || (no_change_above(app, grid) && is_last_change(grid, k)),
        if no_change_above(app, grid) && (app.scroll_y > 0 || app.scroll_x > 0) {
            &&& keys::after_key(app, key_laws::plain_key('p')).0.scroll_y == 0
            &&& keys::after_key(app, key_laws::plain_key('p')).0.scroll_x == 0
        } else {
            scrolled_at(
                app,
                grid,
                grid.groups@[k],
                keys::after_key(app, key_laws::plain_key('p')).0,
            )
        },
{
    let k = lemma_previous_target(app, grid, c);
    lemma_scrolled_at(app, grid, grid.groups@[k]);
    k
}

/// Where nothing changed, and where there is no diff, `n` and `p` do nothing.
pub proof fn law_no_change_no_jump<G: GitShell + ?Sized>(app: App<G>)
    requires
        app.wf(),
        app.grid matches Some(grid) ==> forall|k: int| !#[trigger] is_change(grid, k),
    ensures
        keys::after_key(app, key_laws::plain_key('n')).0 == app,
        keys::after_key(app, key_laws::plain_key('p')).0 == app,
{
    if app.grid is Some {
        let grid = app.grid->0;
        let n = grid.groups@.len() as int;
        assert(grid.groups@.take(n) =~= grid.groups@);
        if keys::change_groups(grid.view_steps(), grid.groups@).len() > 0 {
            let k = lemma_listed_change(grid, n, 0);
            assert(is_change(grid, k));
        }
    }
}

/// `j` and `l` go one row or cell on, and no further than the limit; `k` and `h`
/// go one back, and no further than the start. Each leaves the other direction
/// alone.
pub proof fn law_scroll_keys_go_one_step<G: GitShell + ?Sized>(app: App<G>)
    requires
        app.limit_y() <= usize::MAX,
        app.limit_x() <= usize::MAX,
    ensures
        app.scroll_y < app.limit_y() ==> key_laws::after_plain(app, 'j').scroll_y == app.scroll_y
            + 1,
        app.scroll_y >= app.limit_y() ==> key_laws::after_plain(app, 'j').scroll_y
            == app.limit_y(),
        app.scroll_x < app.limit_x() ==> key_laws::after_plain(app, 'l').scroll_x == app.scroll_x
            + 1,
        app.scroll_x >= app.limit_x() ==> key_laws::after_plain(app, 'l').scroll_x
            == app.limit_x(),
        app.scroll_y > 0 ==> key_laws::after_plain(app, 'k').scroll_y == app.scroll_y - 1,
        app.scroll_y == 0 ==> key_laws::after_plain(app, 'k').scroll_y == 0,
        app.scroll_x > 0 ==> key_laws::after_plain(app, 'h').scroll_x == app.scroll_x - 1,
        app.scroll_x == 0 ==> key_laws::after_plain(app, 'h').scroll_x == 0,
        key_laws::after_plain(app, 'j').scroll_x == app.scroll_x,
        key_laws::after_plain(app, 'k').scroll_x == app.scroll_x,
        key_laws::after_plain(app, 'g').scroll_x == app.scroll_x,
        key_laws::after_plain(app, 'G').scroll_x == app.scroll_x,
        key_laws::after_plain(app, 'l').scroll_y == app.scroll_y,
        key_laws::after_plain(app, 'h').scroll_y == app.scroll_y,
{
}

/// `t` turns the view over, and only `t` does; `e` shows or hides the sidebar in
/// repository mode, and only `e` does.
pub proof fn law_toggles_toggle<G: GitShell + ?Sized>(app: App<G>, key: KeyEvent)
    ensures
        keys::after_key(app, key).0.transposed != app.transposed <==> key.code == KeyCode::Char('t'),
        keys::after_key(app, key).0.show_sidebar != app.show_sidebar <==> key.code
            == KeyCode::Char('e') && app.source is Git,
        key.code == KeyCode::Char('t') ==> keys::after_key(app, key).0.scroll_y == 0
            && keys::after_key(app, key).0.scroll_x == 0,
{
    key_laws::lemma_jumped(app, true);
    key_laws::lemma_jumped(app, false);
}

/// The control key makes a difference with `c` only.
pub proof fn law_control_matters_with_c_only<G: GitShell + ?Sized>(app: App<G>, code: KeyCode)
    requires
        code != KeyCode::Char('c'),
    ensures
        keys::after_key(app, KeyEvent { code, ctrl: true }) == keys::after_key(
            app,
            KeyEvent { code, ctrl: false },
        ),
{
}

/// Neither leaving, nor the sidebar, nor the selection scrolls anything.
pub proof fn law_other_keys_do_not_scroll<G: GitShell + ?Sized>(app: App<G>, key: KeyEvent)
    requires
        key.code == KeyCode::Tab || key.code == KeyCode::BackTab || key.code == KeyCode::Char('e')
            || key.code == KeyCode::Char('q') || key.code == KeyCode::Char('c'),
    ensures
        keys::after_key(app, key).0.scroll_y == app.scroll_y,
        keys::after_key(app, key).0.scroll_x == app.scroll_x,
{
}

/// Keys without a meaning change nothing.
pub proof fn law_other_keys_do_nothing<G: GitShell + ?Sized>(app: App<G>, key: KeyEvent)
    requires
        match key.code {
            KeyCode::Char(c) => !seq!['q', 't', 'e', 'g', 'G', 'n', 'p', 'h', 'j', 'k', 'l'].contains(
                c,
            ) && !(c == 'c' && key.ctrl),
            KeyCode::Other => true,
            _ => false,
        },
    ensures
        keys::after_key(app, key) == (app, Action::Continue),
{
    let known = seq!['q', 't', 'e', 'g', 'G', 'n', 'p', 'h', 'j', 'k', 'l'];
    assert(known[0] == 'q' && known[1] == 't' && known[2] == 'e' && known[3] == 'g' && known[4]
        == 'G' && known[5] == 'n' && known[6] == 'p' && known[7] == 'h' && known[8] == 'j'
        && known[9] == 'k' && known[10] == 'l');
}

/// Without any entry the selection does not move.
pub proof fn law_no_entry_no_selection<G: GitShell + ?Sized>(app: App<G>, delta: int)
    requires
        app.listed().len() == 0,
    ensures
        keys::moved(app, delta) == (app, Action::Continue),
{
}

/// Moving the selection by some entries moves it that far, and to the end of
/// the list where that is nearer.
pub proof fn law_selection_moves_as_far_as_it_can<G: GitShell + ?Sized>(app: App<G>, delta: int)
    requires
        app.listed().len() > 0,
        app.listed().len() <= usize::MAX,
    ensures
        ({
            let n = app.listed().len();
            let next = keys::moved(app, delta).0.selection;
            &&& 0 <= app.selection + delta < n ==> next == app.selection + delta
            &&& app.selection + delta < 0 ==> next == 0
            &&& app.selection + delta >= n ==> next == n - 1
            &&& keys::moved(app, delta).0 == App { selection: next, ..app }
            &&& keys::moved(app, delta).1 == if next == app.selection {
                Action::Continue
            } else {
                Action::Reload
            }
        }),
        keys::after_key(app, KeyEvent { code: KeyCode::Tab, ctrl: false }) == keys::moved(app, 1),
        keys::after_key(app, KeyEvent { code: KeyCode::BackTab, ctrl: false }) == keys::moved(
            app,
            -1,
        ),
{
}

} // verus!
