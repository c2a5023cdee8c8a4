use ratatui::backend::TestBackend;
use ratatui::layout::{Alignment, Rect};
use ratatui::style::{Color, Modifier, Style};
use ratatui::text::{Line, Span};
use ratatui::widgets::{Block, Borders, List, ListItem, ListState, Paragraph};
use ratatui::{Frame, Terminal};
use unicode_width::UnicodeWidthStr;
use vdiff::app::{App, DiffSource};
use vdiff::changes::{ChangedFile, Status};
use vdiff::content::{DiskReads, DiskTexts};
use vdiff::diff::compute;
use vdiff::fake_git::FakeGit;
use vdiff::keys::{Action, KeyCode, KeyEvent};
use vdiff::revs::{RevSpec, Source};
use vdiff::rows::{build_rows, slice_by_width};
use vdiff::screen::{Area, Body, Screen, Tint};

#[test]
fn build_rows_marker_padded_to_full_width() {
    let grid = compute("foo\nbar baz\nquux\n", "foo\nbar qaz\nquux\n");
    let rows = build_rows(&grid);
    assert_eq!(rows.len(), 4); // marker + 3 lines
    assert_eq!(rows[0], "    |-|+|  ");
    assert_eq!(rows[1], "foo | | |  ");
    assert_eq!(rows[2], "bar |b|q|az");
    assert_eq!(rows[3], "quux| | |  ");
    let widths: Vec<usize> = rows
        .iter()
        .map(|r| UnicodeWidthStr::width(r.as_str()))
        .collect();
    assert!(
        widths.windows(2).all(|w| w[0] == w[1]),
        "rows must share display width: {widths:?}"
    );
}

#[test]
fn build_rows_no_steps() {
    assert_eq!(build_rows(&compute("", "")), vec![""]);
}

#[test]
fn build_rows_cjk_pads_cells_to_column_width() {
    // Column 0 changes whole (中a → 中b): its cells are width 2, so
    // the narrow `a`/`b` cells get a trailing pad and the marker's
    // `-`/`+` sit over the `中`/`中` cells' first display cell.
    let grid = compute("中文\na文\n", "中文\nb文\n");
    let rows = build_rows(&grid);
    assert_eq!(rows[0], "- |+ |  ");
    assert_eq!(rows[1], "中|中|文");
    assert_eq!(rows[2], "a |b |文");
    let widths: Vec<usize> = rows
        .iter()
        .map(|r| UnicodeWidthStr::width(r.as_str()))
        .collect();
    assert!(
        widths.windows(2).all(|w| w[0] == w[1]),
        "rows must share display width: {widths:?}"
    );
}

#[test]
fn slice_ascii() {
    assert_eq!(slice_by_width("abcdef", 2, 3), ("cde".to_string(), 2));
}

#[test]
fn slice_skips_straddling_wide_char() {
    // 中 (width 2) starts at 0, straddles start=1 → skipped whole;
    // the first drawn char sits at cell 2, one past the viewport.
    assert_eq!(slice_by_width("中文", 1, 3), ("文".to_string(), 2));
    // 中 straddles the right edge: width 2 does not fit in 1 cell
    assert_eq!(slice_by_width("中a", 0, 1), (String::new(), 0));
}

#[test]
fn slice_past_end_is_empty() {
    assert_eq!(slice_by_width("abc", 10, 5), (String::new(), 10));
    assert_eq!(slice_by_width("", 0, 5), (String::new(), 0));
}

/// A files-mode app over two texts, as if both files had been read.
fn files_app(old: &str, new: &str) -> App<FakeGit> {
    let source = DiffSource::Files { old: "a.txt".to_string(), new: "b.txt".to_string() };
    let disk = DiskTexts { old: Some(old.to_string()), new: Some(new.to_string()) };
    App::new(source, disk)
}

/// A git-mode app whose diff content is faked through a seeded FakeGit. The
/// spec diffs HEAD~1 (old side) against HEAD (new side): HEAD~1 holds the
/// "old" content, HEAD the "new".
fn git_app(contents: Vec<(&str, &str)>) -> App<FakeGit> {
    let mut f = FakeGit::default();
    let mut files = Vec::new();
    for (i, (old, new)) in contents.into_iter().enumerate() {
        let path = format!("f{i}.txt");
        f.set(
            &["cat-file", "-p", &format!("HEAD~1:{path}")],
            Some(old.to_string()),
        );
        f.set(
            &["cat-file", "-p", &format!("HEAD:{path}")],
            Some(new.to_string()),
        );
        files.push(ChangedFile {
            status: Status::Modified,
            old_path: path.clone(),
            new_path: path,
        });
    }
    let spec = RevSpec {
        old: Source::Rev("HEAD~1".into()),
        new: Source::Rev("HEAD".into()),
        diff_args: vec![],
        toplevel: String::new(),
        prefix: String::new(),
    };
    let source = DiffSource::Git {
        spec,
        files,
        git: Box::new(f),
    };
    assert_eq!(source.disk_reads(0), DiskReads { old: None, new: None });
    App::new(source, DiskTexts::default())
}

fn rect(a: Area) -> Rect {
    Rect::new(a.x, a.y, a.width, a.height)
}

fn color(t: Tint) -> Color {
    match t {
        Tint::Plain => Color::Reset,
        Tint::Red => Color::Red,
        Tint::Green => Color::Green,
        Tint::Yellow => Color::Yellow,
        Tint::Cyan => Color::Cyan,
        Tint::DarkGray => Color::DarkGray,
    }
}

fn paint(screen: &Screen, frame: &mut Frame<'_>) {
    if let Some(sidebar) = &screen.sidebar {
        let items: Vec<ListItem> = sidebar
            .items
            .iter()
            .map(|i| {
                ListItem::new(Line::from(vec![
                    Span::styled(i.letter.to_string(), Style::default().fg(color(i.tint))),
                    Span::raw(" "),
                    Span::raw(i.path.clone()),
                ]))
            })
            .collect();
        let mut state = ListState::default().with_selected(Some(sidebar.selected));
        let list = List::new(items)
            .block(Block::default().borders(Borders::ALL).title(" Files "))
            .highlight_style(
                Style::default()
                    .bg(Color::DarkGray)
                    .add_modifier(Modifier::BOLD),
            )
            .highlight_symbol("> ");
        frame.render_stateful_widget(list, rect(sidebar.area), &mut state);
    }
    let block = Block::default()
        .borders(Borders::ALL)
        .title(screen.diff.title.as_str());
    frame.render_widget(block, rect(screen.diff.area));
    match &screen.diff.body {
        Body::Glyphs(glyphs) => {
            for g in glyphs {
                let style = match g.tint {
                    Tint::Plain => Style::default(),
                    t => Style::default().fg(color(t)),
                };
                frame
                    .buffer_mut()
                    .set_string(g.x, g.y, g.symbol.to_string(), style);
            }
        }
        Body::Message { area, message } => frame.render_widget(
            Paragraph::new(message.as_str()).alignment(Alignment::Center),
            rect(*area),
        ),
        Body::Empty => {}
    }
    frame.render_widget(Paragraph::new(screen.status.line.as_str()), rect(screen.status.area));
}

fn draw(app: &mut App<FakeGit>) -> TestBackend {
    let mut terminal = Terminal::new(TestBackend::new(80, 24)).unwrap();
    let screen = app.render(Area { x: 0, y: 0, width: 80, height: 24 });
    terminal.draw(|frame| paint(&screen, frame)).unwrap();
    terminal.backend().clone()
}

/// One key as the main loop handles it; true when the app should quit.
fn press(app: &mut App<FakeGit>, key: KeyEvent) -> bool {
    match app.handle_key(key) {
        Action::Continue => false,
        Action::Reload => {
            assert_eq!(app.disk_reads(), DiskReads { old: None, new: None });
            app.reload(DiskTexts::default());
            false
        }
        Action::Quit => true,
    }
}

fn key(code: KeyCode) -> KeyEvent {
    KeyEvent { code, ctrl: false }
}

#[test]
fn renders_marker_row_with_colors() {
    let mut app = files_app("foo\nbar baz\nquux\n", "foo\nbar qaz\nquux\n");
    let backend = draw(&mut app);
    let buf = backend.buffer();
    // The diff pane block is bordered, so inner starts at (1,1):
    // border at y=0, marker row at y=1 from x=1.
    // Marker: "    |-|+...": '|' at col 5, '-' at col 6, '+' at col 8.
    assert_eq!(buf[(6, 1)].symbol(), "-");
    assert_eq!(buf[(6, 1)].fg, Color::Red);
    assert_eq!(buf[(8, 1)].symbol(), "+");
    assert_eq!(buf[(8, 1)].fg, Color::Green);
    assert_eq!(buf[(5, 1)].symbol(), "|");
}

#[test]
fn cjk_separators_align_in_tui() {
    let mut app = files_app("中文abc\n", "中日abc\n");
    let backend = draw(&mut app);
    let buf = backend.buffer();
    // Marker "  |- |+ |   " and content "中|文|日|abc" both place
    // the `|`s at display cells 2, 5, 8. In buffer coords (inner
    // starts at (1,1)) those are x = 3, 6, 9 on the marker row
    // (y=1) and the content row (y=2).
    for x in [3, 6, 9] {
        assert_eq!(buf[(x, 1)].symbol(), "|", "marker | at x={x}");
        assert_eq!(buf[(x, 2)].symbol(), "|", "content | at x={x}");
    }
    // The `-`/`+` markers sit over their column's first display
    // cell: '-' at buffer (4,1) over 文 at (4,2), '+' at (7,1) over
    // 日 at (7,2). Continuation cells (x=5, x=8) are skipped;
    // TestBackend leaves them empty.
    assert_eq!(buf[(4, 1)].symbol(), "-");
    assert_eq!(buf[(7, 1)].symbol(), "+");
    assert_eq!(buf[(4, 2)].symbol(), "文");
    assert_eq!(buf[(7, 2)].symbol(), "日");
}

#[test]
fn cjk_separators_stay_aligned_when_scrolled_into_wide_char() {
    let mut app = files_app("中文abc\n", "中日abc\n");
    for scroll_x in [1, 4] {
        // scroll_x cuts inside a wide char (中 at cells 0-1, 文 at
        // 3-4): it is skipped whole, so the first drawn char sits
        // one cell past the viewport; the marker row must still
        // show the cell-2 `|` (viewport 1, buffer x = inner.x + 1
        // = 2) over the content row's cell-2 `|`.
        app.scroll_x = scroll_x;
        let backend = draw(&mut app);
        let buf = backend.buffer();
        assert_eq!(
            buf[(2, 1)].symbol(),
            "|",
            "marker | at viewport 1 (scroll_x={scroll_x})"
        );
        assert_eq!(
            buf[(2, 2)].symbol(),
            "|",
            "content | at viewport 1 (scroll_x={scroll_x})"
        );
    }
}

#[test]
fn marker_row_is_sticky_when_scrolling() {
    let mut app = files_app(
        "1\n2\n3\n4\n5\n6\n7\n8\n9\n10\n11\n12\n13\n14\n15\n16\n17\n18\n19\n20\n",
        "1\n2\n3\n4\n5\n6\n7\n8\n9\n10\n11\n12\n13\n14\n15\n16\n17\n18\n19\n21\n",
    );
    app.scroll_y = 10;
    let backend = draw(&mut app);
    let buf = backend.buffer();
    // Marker " |-|+" starts at x=1 (block border), '-' at x=3,
    // still at the top row after vertical scroll.
    assert_eq!(buf[(3, 1)].symbol(), "-");
}

#[test]
fn sidebar_shows_status_letters() {
    let mut app = git_app(vec![("foo\n", "bar\n"), ("a\n", "b\n")]);
    let backend = draw(&mut app);
    let buf = backend.buffer();
    // Sidebar block is bordered (inner x=1) and the highlight symbol
    // "> " occupies columns 1-2, so the status letter starts at x=3.
    assert_eq!(buf[(3, 1)].symbol(), "M"); // first entry: 'M' + space + path
    // highlight symbol "> " on the selected entry
    assert_eq!(buf[(1, 1)].symbol(), ">");
}

#[test]
fn transposed_view_renders_step_rows() {
    let mut app = files_app("foo\nbar baz\nquux\n", "foo\nbar qaz\nquux\n");
    app.transposed = true;
    let backend = draw(&mut app);
    let buf = backend.buffer();
    // The diff pane block is bordered: rows start at x=1. Transposed
    // row 0 = "  fbq": prefix space + separator space at (1,1) and
    // (2,1), 'f' at (3,1).
    assert_eq!(buf[(3, 1)].symbol(), "f");
    // delete step row "- b " is row 4 of the stack: y = 1 + 4, prefix at x=1
    assert_eq!(buf[(1, 5)].symbol(), "-");
    assert_eq!(buf[(1, 5)].fg, Color::Red);
}

#[test]
fn sidebar_hidden_diff_takes_full_width() {
    let mut app = git_app(vec![("foo\nbar baz\nquux\n", "foo\nbar qaz\nquux\n")]);
    let buf_before = draw(&mut app);
    assert_ne!(buf_before.buffer()[(4, 1)].symbol(), "-"); // (4,1) is inside the sidebar
    app.show_sidebar = false;
    let buf_after = draw(&mut app);
    // Full-width diff pane is still bordered: inner starts at x=1,
    // marker "    |-|+|  " → '|' at (5,1), '-' at (6,1).
    assert_eq!(buf_after.buffer()[(5, 1)].symbol(), "|"); // marker separator at (5,1)
    assert_eq!(buf_after.buffer()[(6, 1)].symbol(), "-");
}

#[test]
fn placeholder_for_no_changes() {
    let mut app = git_app(vec![]);
    let backend = draw(&mut app);
    let buf = backend.buffer();
    let row: String = (0..80).map(|x| buf[(x, 11)].symbol().to_string()).collect();
    assert!(
        row.contains("no changes"),
        "expected placeholder text, got {row:?}"
    );
}

#[test]
fn max_scroll_y_reaches_bottom_content_rows() {
    // 30 content rows in the 80x24 pane: the bordered diff pane has
    // inner height 21 and the sticky marker row occupies one of
    // those, so 20 content rows are visible and the last line only
    // becomes reachable at scroll_y = 10 (h - inner.height + 1).
    let mut old = String::new();
    let mut new = String::new();
    for i in 1..=29 {
        old.push_str(&format!("L{i:02}\n"));
        new.push_str(&format!("L{i:02}\n"));
    }
    old.push_str("L30\n");
    new.push_str("X30\n"); // only line 30 differs (col 0: 'L' vs 'X')
    let mut app = files_app(&old, &new);
    let _ = draw(&mut app); // sets pane_height from the real rect (23)
    assert_eq!(app.max_scroll_y(), 10);
    app.scroll_y = 10;
    let backend = draw(&mut app);
    let buf = backend.buffer();
    // Last content row "L|X|3|0" (line 30, old side 'L' / new side 'X')
    // sits at the bottom row of the pane: y = 21.
    assert_eq!(buf[(1, 21)].symbol(), "L");
    assert_eq!(buf[(3, 21)].symbol(), "X");
}

#[test]
fn max_scroll_x_reaches_last_columns() {
    // One 100-char row: the bordered pane's inner width is 78
    // (pane_width - 2), so the row scrolls to 22.
    let old = "a".repeat(100);
    let new = "a".repeat(100); // identical single-line files: width 100
    let mut app = files_app(&old, &new);
    let _ = draw(&mut app); // sets pane_width from the real rect (80)
    assert_eq!(app.max_scroll_x(), 22);
}

#[test]
fn q_and_ctrl_c_quit() {
    let mut app = files_app("a\n", "b\n");
    assert!(press(&mut app, key(KeyCode::Char('q'))));
    assert!(press(&mut app, KeyEvent { code: KeyCode::Char('c'), ctrl: true }));
}

#[test]
fn hjkl_scroll_diff() {
    let mut app = files_app(
        "1\n2\n3\n4\n5\n6\n7\n8\n9\n10\n11\n12\n13\n14\n15\n16\n17\n18\n19\n20\n",
        "1\n2\n3\n4\n5\n6\n7\n8\n9\n10\n11\n12\n13\n14\n15\n16\n17\n18\n19\n21\n",
    );
    press(&mut app, key(KeyCode::Char('j')));
    assert_eq!(app.scroll_y, 1);
    press(&mut app, key(KeyCode::Char('k')));
    assert_eq!(app.scroll_y, 0);
    press(&mut app, key(KeyCode::Char('l')));
    assert_eq!(app.scroll_x, 1);
    press(&mut app, key(KeyCode::Char('h')));
    assert_eq!(app.scroll_x, 0);
    // vim convention: g = top, G = bottom.
    app.scroll_y = 3;
    press(&mut app, key(KeyCode::Char('g')));
    assert_eq!(app.scroll_y, 0);
    press(&mut app, key(KeyCode::Char('G')));
    assert_eq!(app.scroll_y, app.max_scroll_y());
}

#[test]
fn tab_and_backtab_move_selection() {
    let mut app = git_app(vec![("foo\n", "bar\n"), ("x\n", "y\n")]);
    press(&mut app, key(KeyCode::Tab));
    assert_eq!(app.selection, 1);
    press(&mut app, key(KeyCode::BackTab));
    assert_eq!(app.selection, 0);
    // j/k scroll the diff: they never touch the selection.
    press(&mut app, key(KeyCode::Char('j')));
    assert_eq!(app.scroll_y, 1);
    assert_eq!(app.selection, 0);
    press(&mut app, key(KeyCode::Char('k')));
    assert_eq!(app.scroll_y, 0);
    assert_eq!(app.selection, 0);
}

#[test]
fn jk_scrolls_diff_in_git_mode_without_moving_selection() {
    let mut app = git_app(vec![
        (
            "1\n2\n3\n4\n5\n6\n7\n8\n9\n10\n11\n12\n13\n14\n15\n16\n17\n18\n19\n20\n",
            "1\n2\n3\n4\n5\n6\n7\n8\n9\n10\n11\n12\n13\n14\n15\n16\n17\n18\n19\n21\n",
        ),
        ("x\n", "y\n"),
    ]);
    press(&mut app, key(KeyCode::Char('j')));
    assert_eq!(app.scroll_y, 1, "j must scroll the diff in git mode");
    assert_eq!(app.selection, 0, "j must not move the selection");
    press(&mut app, key(KeyCode::Tab));
    assert_eq!(app.selection, 1, "Tab moves the selection");
    assert_eq!(
        app.scroll_y, 0,
        "selection change reloads and resets scroll"
    );
}

#[test]
fn selection_change_reloads_diff() {
    let mut app = git_app(vec![
        ("foo\nbar baz\nquux\n", "foo\nbar qaz\nquux\n"),
        ("x\n", "y\n"),
    ]);
    let before = app.grid.clone();
    press(&mut app, key(KeyCode::Tab));
    let after = app.grid.clone();
    assert_ne!(before, after, "diff must change when the selection moves");
}

#[test]
fn t_toggles_transposed_and_resets_scrolls() {
    let mut app = files_app("foo\nbar baz\nquux\n", "foo\nbar qaz\nquux\n");
    app.scroll_y = 2;
    app.scroll_x = 3;
    press(&mut app, key(KeyCode::Char('t')));
    assert!(app.transposed);
    assert_eq!(app.scroll_y, 0);
    assert_eq!(app.scroll_x, 0);
    press(&mut app, key(KeyCode::Char('t')));
    assert!(!app.transposed);
}

#[test]
fn e_toggles_sidebar_only_in_git_mode() {
    let mut app = git_app(vec![("a\n", "b\n")]);
    assert!(app.show_sidebar);
    press(&mut app, key(KeyCode::Char('e')));
    assert!(!app.show_sidebar);
    press(&mut app, key(KeyCode::Char('e')));
    assert!(app.show_sidebar);
    let mut files_app = files_app("a\n", "b\n");
    press(&mut files_app, key(KeyCode::Char('e'))); // no sidebar in files mode
    assert!(files_app.show_sidebar);
}

#[test]
fn n_p_jump_to_change_groups() {
    let mut app = files_app("foo\nbar baz\nquux\n", "foo\nbar qaz\nquux\n");
    press(&mut app, key(KeyCode::Char('n')));
    // change group (del+ins) starts at display width 7 (4 steps × 1 cell + 3 separators)
    assert_eq!(app.scroll_x, 7);
    assert_eq!(app.scroll_y, 1); // first affected row is line 1 ("bar ...")
    press(&mut app, key(KeyCode::Char('p')));
    assert_eq!(app.scroll_x, 0);
    assert_eq!(app.scroll_y, 0);
}

#[test]
fn only_the_mark_of_a_transposed_row_is_coloured() {
    // Column 1 holds a '-' and a '+' in both files; column 0 changes.
    let mut app = files_app("a-\nb+\n", "c-\nb+\n");
    app.transposed = true;
    let backend = draw(&mut app);
    let buf = backend.buffer();
    // Rows "- ab", "+ cb", "  -+".
    assert_eq!((buf[(1, 1)].symbol(), buf[(1, 1)].fg), ("-", Color::Red));
    assert_eq!((buf[(1, 2)].symbol(), buf[(1, 2)].fg), ("+", Color::Green));
    assert_eq!((buf[(3, 3)].symbol(), buf[(3, 3)].fg), ("-", Color::Reset));
    assert_eq!((buf[(4, 3)].symbol(), buf[(4, 3)].fg), ("+", Color::Reset));
    // Scrolled past the mark, nothing is coloured.
    app.scroll_x = 2;
    let backend = draw(&mut app);
    let buf = backend.buffer();
    assert_eq!((buf[(1, 3)].symbol(), buf[(1, 3)].fg), ("-", Color::Reset));
    assert_eq!((buf[(2, 3)].symbol(), buf[(2, 3)].fg), ("+", Color::Reset));
}

#[test]
fn the_last_row_of_a_very_tall_diff_is_shown() {
    let mut old = "x\n".repeat(70_000);
    let new = format!("{old}z\n");
    old.push_str("y\n");
    let mut app = files_app(&old, &new);
    let _ = draw(&mut app);
    press(&mut app, key(KeyCode::Char('G')));
    assert_eq!(app.scroll_y, 70_001 - 20);
    let backend = draw(&mut app);
    let buf = backend.buffer();
    assert_eq!((buf[(1, 1)].symbol(), buf[(3, 1)].symbol()), ("-", "+"));
    assert_eq!((buf[(1, 20)].symbol(), buf[(3, 20)].symbol()), ("x", "x"));
    assert_eq!((buf[(1, 21)].symbol(), buf[(3, 21)].symbol()), ("y", "z"));
}

#[test]
fn the_last_row_of_a_very_long_transposed_diff_is_shown() {
    let mut line = "a".repeat(70_000);
    line.push('b');
    let mut app = files_app(&line, &line);
    app.transposed = true;
    let _ = draw(&mut app);
    press(&mut app, key(KeyCode::Char('G')));
    let backend = draw(&mut app);
    let buf = backend.buffer();
    // One row of the pane is left below the last step.
    assert_eq!((buf[(3, 19)].symbol(), buf[(3, 20)].symbol(), buf[(3, 21)].symbol()), ("a", "b", " "));
}
