use vdiff::app::{App, DiffSource};
use vdiff::changes::{parse_name_status_z, ChangedFile, Status};
use vdiff::columns::expand_tabs;
use vdiff::content::{disk_reads, load_content, DiskPath, DiskReads, DiskTexts, FetchError};
use vdiff::diff::{compute, step_width, DiffGrid, Step, StepKind};
use vdiff::fake_git::FakeGit;
use vdiff::git::{in_repo, reply_from_run, GitError, GitRun, GitRunError, GitShell};
use vdiff::keys::{Action, KeyCode, KeyEvent};
use vdiff::lcs::diff_columns;
use vdiff::render::{render_text, render_transposed};
use vdiff::repo::{open_repo, OpenError};
use vdiff::report::{file_section, files_report, git_section};
use vdiff::revs::{resolve, split_range, RangeKind, RevSpec, Source};
use vdiff::rows::{build_rows, first_affected_row, group_start_width, slice_by_width, transposed_rows};
use vdiff::screen::{sidebar_item, Area, Body, Panes, Tint};
use vdiff::width::width_of_column;

fn spec(old: Source, new: Source) -> RevSpec {
    RevSpec { old, new, diff_args: vec![], toplevel: String::new(), prefix: String::new() }
}

fn modified(path: &str) -> ChangedFile {
    ChangedFile { status: Status::Modified, old_path: path.to_string(), new_path: path.to_string() }
}

fn viewer(old: &str, new: &str) -> App<FakeGit> {
    let source = DiffSource::Files { old: "old".to_string(), new: "new".to_string() };
    App::new(source, DiskTexts { old: Some(old.to_string()), new: Some(new.to_string()) })
}

fn listing(n: usize) -> App<FakeGit> {
    let files: Vec<ChangedFile> = (0..n).map(|i| modified(&format!("f{i}"))).collect();
    let source = DiffSource::Git {
        spec: spec(Source::Index, Source::Index),
        files,
        git: Box::new(FakeGit::default()),
    };
    App::new(source, DiskTexts::default())
}

fn press(app: &mut App<FakeGit>, c: char) -> Action {
    app.handle_key(KeyEvent { code: KeyCode::Char(c), ctrl: false })
}

const OLD_CPP: &str = "#include <cstdio>\n\nint main() {\n  std::printf(\"Hello, World\\n\");\n  return 0;\n}\n";
const NEW_CPP: &str = "#include <print>\n\nauto main() -> int {\n  std::println(\"Hello, World\");\n  return 0;\n}\n";

#[test]
fn example_of_two_programs() {
    assert_eq!(
        files_report(OLD_CPP, NEW_CPP),
        concat_lines(&[
            "--|++| |---------------|+++++++++++++++| |+|        |--|",
            "#i|#i|n|clude <cstdio> |clude <print>  | | |        |  |   ",
            "  |  | |               |               | | |        |  |   ",
            "in|au|t| main() {      |o main() -> int| |{|        |  |   ",
            "  |  |s|td::printf(\"Hel|td::println(\"He|l|l|o, World|\\n|\");",
            "  |  |r|eturn 0;       |eturn 0;       | | |        |  |   ",
            "} |} | |               |               | | |        |  |   ",
        ])
    );
}

fn concat_lines(lines: &[&str]) -> String {
    lines.iter().map(|l| format!("{l}\n")).collect()
}

#[test]
fn a_diff_keeps_both_sides() {
    let grid = compute(OLD_CPP, NEW_CPP);
    let side = |skipped: StepKind| -> Vec<String> {
        grid.steps.iter().filter(|s| s.kind != skipped).map(|s| s.content.clone()).collect()
    };
    let only = |text: &str| -> Vec<String> {
        compute(text, text).steps.into_iter().map(|s| s.content).collect()
    };
    assert_eq!(side(StepKind::Insert), only(OLD_CPP));
    assert_eq!(side(StepKind::Delete), only(NEW_CPP));
}

#[test]
fn a_diff_matches_as_much_as_can_be() {
    let columns = |s: &str| -> Vec<String> { s.chars().map(|c| c.to_string()).collect() };
    let (steps, degraded) = diff_columns(&columns("xabcbdaby"), &columns("xbdcabay"));
    assert!(!degraded);
    // The longest common subsequence of abcbdab and bdcaba has four letters.
    assert_eq!(steps.iter().filter(|s| s.kind == StepKind::Match).count(), 6);
}

#[test]
fn deletes_come_before_inserts() {
    let columns = |s: &str| -> Vec<String> { s.chars().map(|c| c.to_string()).collect() };
    let kinds = |a: &str, b: &str| -> Vec<StepKind> {
        diff_columns(&columns(a), &columns(b)).0.iter().map(|s| s.kind).collect()
    };
    let words = ["", "a", "ab", "ba", "aab", "abab", "babaa", "cabcb", "bcacab", "xaybzc"];
    for a in words {
        for b in words {
            let kinds = kinds(a, b);
            assert!(
                !kinds.windows(2).any(|w| w == [StepKind::Insert, StepKind::Delete]),
                "{a} {b}: {kinds:?}"
            );
        }
    }
    let m = StepKind::Match;
    let d = StepKind::Delete;
    let i = StepKind::Insert;
    assert_eq!(kinds("<ab>", "<xyz>"), vec![m, d, d, i, i, i, m]);
    // The mark for a deleted line feed stands past all columns.
    let grid = compute("a\n", "b");
    let kinds: Vec<StepKind> = grid.steps.iter().map(|s| s.kind).collect();
    assert_eq!(kinds, vec![d, i, d]);
}

#[test]
fn a_wide_diff_matches_the_ends_only() {
    let mut a = vec!["<".to_string()];
    a.extend(vec!["a".to_string(); 1_001]);
    a.push("=".to_string());
    a.push(">".to_string());
    let mut b = vec!["<".to_string()];
    b.extend(vec!["b".to_string(); 1_000]);
    b.push("=".to_string());
    b.push(">".to_string());
    let (steps, degraded) = diff_columns(&a, &b);
    assert!(degraded);
    assert_eq!(steps.iter().filter(|s| s.kind == StepKind::Match).count(), 3);
    // One column less, and the table is small enough.
    let (_, degraded) = diff_columns(&a[1..], &b);
    assert!(degraded);
    a.remove(1);
    let (steps, degraded) = diff_columns(&a, &b);
    assert!(!degraded);
    assert_eq!(steps.len(), 3 + 2_000);
}

#[test]
fn newline_marks() {
    // The old file has the line feed: deleted. The new one: inserted.
    assert_eq!(files_report("ab\n", "ab"), "  |-\nab|↵\n");
    assert_eq!(files_report("ab", "ab\n"), "  |+\nab|↵\n");
    // It stands in the last line of the file that has it.
    assert_eq!(files_report("a\nb\n", "a\nb"), " |-\na| \nb|↵\n");
    let grid = compute("a\n", "a\nb");
    let last = grid.steps.last().unwrap();
    assert_eq!((last.kind, last.content.as_str()), (StepKind::Delete, "↵ "));
    // An empty file has no last line.
    assert!(!files_report("", "a").contains('↵'));
    assert!(!files_report("a\n", "").contains('↵'));
}

#[test]
fn a_crlf_file_compares_like_an_lf_file() {
    assert_eq!(compute("a\r\nb\r\n", "a\nb\n"), compute("a\nb\n", "a\nb\n"));
    assert_eq!(files_report("x\ty\r\nz\r\n", "x\tz\nz\n"), files_report("x\ty\nz\n", "x\tz\nz\n"));
}

#[test]
fn trailing_blanks_do_not_show() {
    // Every place of the two files shows the same, so no change is shown.
    assert!(compute("a  \nbcd\n", "a\nbcd\n").steps.iter().all(|s| s.kind == StepKind::Match));
    // A column of blanks that only one file has is one column less.
    let grid = compute("a  \nb\n", "a\nb \n");
    let kinds: Vec<StepKind> = grid.steps.iter().map(|s| s.kind).collect();
    assert_eq!(kinds, vec![StepKind::Match, StepKind::Match, StepKind::Delete]);
}

#[test]
fn tabs_lead_to_stops() {
    assert_eq!(expand_tabs("1234567\tx"), "1234567 x");
    assert_eq!(expand_tabs("12345678\tx"), "12345678        x");
    assert!(!expand_tabs("\t\ta\t\n\t").contains('\t'));
    // A control character counts as one cell.
    assert_eq!(expand_tabs("\u{7}\tx"), "\u{7}       x");
}

#[test]
fn grids_have_one_grouping() {
    let steps = |kinds: &[StepKind]| -> Vec<Step> {
        kinds.iter().map(|k| Step { kind: *k, content: "x".to_string() }).collect()
    };
    let m = StepKind::Match;
    let d = StepKind::Delete;
    let i = StepKind::Insert;
    let grid = DiffGrid::from_parts(steps(&[m, m, d, i, i, m]), 1, false);
    assert_eq!(grid.groups, vec![0..2, 2..3, 3..5, 5..6]);
    assert_eq!(grid.is_group_end, vec![false, true, true, false, true, true]);
    assert_eq!(grid.widths, vec![1; 6]);
    let none = DiffGrid::from_parts(vec![], 0, true);
    assert!(none.groups.is_empty() && none.degraded);
}

#[test]
fn widths_of_characters() {
    assert_eq!(width_of_column("a中"), 2);
    assert_eq!(width_of_column("\u{17d8}"), 3);
    assert_eq!(width_of_column("\u{301}\u{7}"), 1);
    assert_eq!(step_width(&Step { kind: StepKind::Insert, content: String::new() }), 1);
}

#[test]
fn separators_line_up() {
    let text = files_report("中文\na文\n", "中文\nb文\n");
    let cells: Vec<Vec<usize>> = text
        .lines()
        .map(|l| {
            let mut at = 0;
            let mut seps = Vec::new();
            for c in l.chars() {
                if c == '|' {
                    seps.push(at);
                }
                at += unicode_width::UnicodeWidthChar::width(c).unwrap_or(0);
            }
            seps
        })
        .collect();
    assert_eq!(cells, vec![vec![2, 5]; 3]);
}

#[test]
fn the_marker_row_spans_wide_rows() {
    let rows = build_rows(&compute("a中中\nb\n", "x中中\nb\n"));
    assert_eq!(rows, vec!["-|+|    ", "a|x|中中", "b|b|  "]);
    // No wider than the widest row, and as wide as it.
    for (old, new) in [("ab\n", "xb\n"), ("a\nbcd\n", "a\nbcx\n"), ("中x\n", "文x\n")] {
        let rows = build_rows(&compute(old, new));
        let width = |r: &String| unicode_width::UnicodeWidthStr::width(r.as_str());
        assert_eq!(Some(width(&rows[0])), rows[1..].iter().map(width).max());
    }
}

#[test]
fn transposed_rows_stack_steps() {
    let grid = compute("ab\n", "ac\n");
    assert_eq!(transposed_rows(&grid), vec!["  a", "- b", "+ c"]);
    assert_eq!(render_transposed(&grid), "  a\n- b\n+ c\n");
    assert_eq!(render_text(&grid), " |-|+\na|b|c\n");
}

#[test]
fn groups_and_their_rows() {
    let grid = compute("foo\nbar baz\nquux\n", "foo\nbar qaz\nquux\n");
    assert_eq!(first_affected_row(&grid, &(4..5)), Some(1));
    assert_eq!(first_affected_row(&grid, &(0..4)), Some(0));
    assert_eq!(first_affected_row(&grid, &(4..4)), None);
    // Four columns and a separator, then one column and a separator.
    assert_eq!(group_start_width(&grid, &(0..4)), 5);
    assert_eq!(group_start_width(&grid, &(4..5)), 7);
}

#[test]
fn windows_show_whole_characters() {
    for start in 0..9 {
        for width in 0..9 {
            let (shown, first) = slice_by_width("a中b文c日", start, width);
            let cells: usize = shown
                .chars()
                .map(|c| unicode_width::UnicodeWidthChar::width(c).unwrap_or(0))
                .sum();
            assert!("a中b文c日".contains(&shown));
            assert!(first >= start && first + cells <= start + width);
        }
    }
    assert_eq!(slice_by_width("a中b文c日", 2, 5), ("b文c".to_string(), 3));
}

#[test]
fn listed_files_come_back() {
    let files = vec![
        modified("M"),
        ChangedFile { status: Status::Added, old_path: "a b".into(), new_path: "a b".into() },
        ChangedFile { status: Status::Renamed, old_path: "x".into(), new_path: "y\tz".into() },
        ChangedFile { status: Status::Deleted, old_path: "D".into(), new_path: "D".into() },
    ];
    assert_eq!(parse_name_status_z("M\0M\0A\0a b\0R093\0x\0y\tz\0D\0D\0"), files);
    // A copy carries two paths; an unknown letter is a modification.
    assert_eq!(
        parse_name_status_z("C75\0a\0b\0T\0c\0"),
        vec![
            ChangedFile { status: Status::Modified, old_path: "a".into(), new_path: "b".into() },
            modified("c"),
        ]
    );
    // Output that breaks off.
    assert_eq!(
        parse_name_status_z("R100\0a"),
        vec![ChangedFile { status: Status::Renamed, old_path: "a".into(), new_path: "a".into() }]
    );
    assert_eq!(parse_name_status_z("D"), vec![
        ChangedFile { status: Status::Deleted, old_path: String::new(), new_path: String::new() }
    ]);
}

#[test]
fn ranges_come_back() {
    let range = |kind, a: &str, b: &str| Some((kind, a.to_string(), b.to_string()));
    assert_eq!(split_range("v1.0..v1.1"), range(RangeKind::Plain, "v1.0", "v1.1"));
    assert_eq!(split_range("v1.0...v1.1"), range(RangeKind::MergeBase, "v1.0", "v1.1"));
    assert_eq!(split_range(".."), range(RangeKind::Plain, "HEAD", "HEAD"));
    assert_eq!(split_range("a..."), range(RangeKind::MergeBase, "a", "HEAD"));
    // Three dots are looked for first, wherever they stand.
    assert_eq!(split_range("a..b...c"), range(RangeKind::MergeBase, "a..b", "c"));
    assert_eq!(split_range("v1.0"), None);
}

#[test]
fn messages_of_revision_errors() {
    let fail = |cached, revs: &[&str]| {
        let revs: Vec<String> = revs.iter().map(|r| r.to_string()).collect();
        resolve(&FakeGit::default(), cached, &revs).unwrap_err().message()
    };
    assert_eq!(
        fail(false, &["a", "-x"]),
        "invalid revision arguments: revision arguments must not start with '-': -x"
    );
    assert_eq!(
        fail(true, &["a", "b"]),
        "invalid revision arguments: --cached takes at most one revision"
    );
    assert_eq!(
        fail(false, &["a", "b", "c"]),
        "invalid revision arguments: expected at most two revisions, got 3"
    );
    assert_eq!(
        fail(false, &["-..b"]),
        "invalid revision arguments: revision arguments must not start with '-': -..b"
    );
    assert_eq!(
        fail(false, &["a..-b"]),
        "invalid revision arguments: range sides must not start with '-'"
    );
    assert_eq!(
        fail(false, &["a...b"]),
        "merge-base failed for a...b: git exited with status 1: fake failure"
    );
}

#[test]
fn a_merge_base_is_trimmed() {
    let mut g = FakeGit::default();
    g.set(&["merge-base", "a", "b"], Some("\u{3000} base\r\n\u{85}".to_string()));
    let s = resolve(&g, false, &["a...b".to_string()]).unwrap();
    assert_eq!(s.old, Source::Rev("base".to_string()));
}

#[test]
fn runs_of_git() {
    let run = |success, code, out: &[u8], err: &[u8]| {
        Some(GitRun { success, code, stdout: out.to_vec(), stderr: err.to_vec() })
    };
    assert_eq!(reply_from_run(None, false), Err(GitRunError::SpawnFailed));
    assert_eq!(reply_from_run(None, true), Err(GitRunError::SpawnFailed));
    assert_eq!(reply_from_run(run(true, Some(0), "é\n".as_bytes(), b""), false), Ok("é\n".to_string()));
    assert_eq!(reply_from_run(run(true, Some(0), "é\n".as_bytes(), b""), true), Ok("é\n".to_string()));
    assert_eq!(reply_from_run(run(true, Some(0), b"a\xffb", b""), false), Err(GitRunError::NonUtf8));
    assert_eq!(
        reply_from_run(run(true, Some(0), b"a\xffb", b""), true),
        Ok("a\u{fffd}b".to_string())
    );
    assert_eq!(
        reply_from_run(run(false, Some(128), b"out", b"bad \xff"), false),
        Err(GitRunError::NonZero { code: Some(128), stderr: "bad \u{fffd}".to_string() })
    );
}

#[test]
fn messages_of_failed_runs() {
    assert_eq!(GitRunError::SpawnFailed.message(), "could not run git (is it installed?)");
    assert_eq!(GitRunError::NonUtf8.message(), "git produced non-UTF-8 output");
    let failed = |code, stderr: &str| GitRunError::NonZero { code, stderr: stderr.to_string() };
    assert_eq!(failed(Some(128), "").message(), "git exited with status 128");
    assert_eq!(failed(None, "").message(), "git exited with status ?");
    assert_eq!(failed(Some(-2147483648), "x").message(), "git exited with status -2147483648: x");
    assert_eq!(
        GitError::from_run(&failed(Some(1), "no")).message(),
        "git failed: git exited with status 1: no"
    );
    assert_eq!(FetchError::Binary.message(), "binary or unreadable");
    assert_eq!(
        FetchError::GitFailed(failed(Some(1), "no")).message(),
        "git failed: git exited with status 1: no"
    );
}

#[test]
fn opening_a_repository_fails_at_the_first_failure() {
    let mut g = FakeGit::default();
    assert_eq!(in_repo(&g), Ok(false));
    g.set_binary(&["rev-parse", "--git-dir"]);
    assert_eq!(in_repo(&g), Err(GitRunError::NonUtf8));
    let e = open_repo(&g, false, &[]).unwrap_err();
    assert_eq!(e, OpenError::Run(GitRunError::NonUtf8));
    assert_eq!(e.message(), "git produced non-UTF-8 output");
    assert_eq!(e.into_git().message(), "git failed: git produced non-UTF-8 output");
    g.set(&["rev-parse", "--git-dir"], Some(".git".to_string()));
    let e = open_repo(&g, false, &["-x".to_string()]).unwrap_err();
    assert!(matches!(e, OpenError::Git(GitError::InvalidRevSpec(_))));
    let e = open_repo(&g, false, &[]).unwrap_err();
    assert!(matches!(e, OpenError::Git(GitError::GitFailed(_))));
}

#[test]
fn a_seeded_shell_replies() {
    let mut g = FakeGit::default();
    g.set(&["a", "b"], Some("one".to_string()));
    g.set(&["c"], Some("two".to_string()));
    g.set(&["a", "b"], Some("three".to_string()));
    assert_eq!(g.output(&["a", "b"]), Ok("three".to_string()));
    assert_eq!(g.output_lossy(&["c"]), Ok("two".to_string()));
    g.set(&["c"], None);
    assert_eq!(g.output(&["c"]), g.output(&["never seeded"]));
}

#[test]
fn sides_on_disk() {
    let mut s = spec(Source::Index, Source::Worktree);
    s.toplevel = "/repo".to_string();
    s.prefix = "sub/".to_string();
    let on_disk = Some(DiskPath { root: "/repo".to_string(), path: "sub/f".to_string() });
    assert_eq!(disk_reads(&s, &modified("f")), DiskReads { old: None, new: on_disk });
    let deleted = ChangedFile { status: Status::Deleted, ..modified("f") };
    assert_eq!(disk_reads(&s, &deleted), DiskReads { old: None, new: None });
    let mut g = FakeGit::default();
    g.set(&["cat-file", "-p", ":sub/f"], Some("index".to_string()));
    assert_eq!(load_content(&g, &s, &modified("f"), DiskTexts::default()), Ok(None));
    assert_eq!(load_content(&g, &s, &deleted, DiskTexts::default()), Ok(Some(("index".to_string(), String::new()))));
    // git's failure on the old side comes first.
    g.set_failure(&["cat-file", "-p", ":sub/f"], "gone");
    let failed = GitRunError::NonZero { code: Some(128), stderr: "gone".to_string() };
    assert_eq!(
        load_content(&g, &s, &modified("f"), DiskTexts::default()),
        Err(FetchError::GitFailed(failed))
    );
}

#[test]
fn sections_of_the_report() {
    let text = |s: &str| s.to_string();
    assert_eq!(file_section(&modified("f"), Ok(None)), "=== f ===\n(binary or unreadable)\n");
    assert_eq!(
        file_section(&modified("f"), Err(FetchError::GitFailed(GitRunError::SpawnFailed))),
        "=== f ===\n(error: git failed: could not run git (is it installed?))\n"
    );
    assert_eq!(file_section(&modified("f"), Ok(Some((text("a\n"), text("b\n"))))), "=== f ===\n-|+\na|b\n");
    let mut g = FakeGit::default();
    g.set_binary(&["cat-file", "-p", ":f"]);
    let s = spec(Source::Index, Source::Index);
    assert_eq!(
        git_section(&g, &s, &modified("f"), DiskTexts::default()),
        "=== f ===\n(binary or unreadable)\n"
    );
}

#[test]
fn messages_of_the_viewer() {
    let app: App<FakeGit> = App::new(
        DiffSource::Files { old: "a".to_string(), new: "b".to_string() },
        DiskTexts { old: Some("x".to_string()), new: None },
    );
    assert_eq!(app.message.as_deref(), Some("binary or unreadable"));
    assert!(app.grid.is_none());
    assert_eq!(listing(0).message.as_deref(), Some("no changes"));
    assert_eq!(
        listing(1).message.as_deref(),
        Some("git failed: git exited with status 1: fake failure")
    );
}

#[test]
fn scrolling_stays_within_limits() {
    let mut app = viewer(OLD_CPP, NEW_CPP);
    app.render(Area { x: 0, y: 0, width: 30, height: 7 });
    for c in ['j', 'l', 'n', 'G', 'p', 'k', 'n', 'n', 'h', 't', 'j', 'n', 'p', 'G', 'l', 't'] {
        for _ in 0..4 {
            assert_eq!(press(&mut app, c), Action::Continue);
            assert!(app.scroll_y <= app.max_scroll_y());
            assert!(app.scroll_x <= app.max_scroll_x());
        }
    }
}

#[test]
fn opposite_keys_undo_each_other() {
    let mut app = viewer("1\n2\n3\n4\n", "1\n2\n3\n5\n");
    press(&mut app, 'j');
    press(&mut app, 'l');
    let at = (app.scroll_y, app.scroll_x);
    assert_eq!(at, (1, 1));
    for (there, back) in [('j', 'k'), ('l', 'h')] {
        press(&mut app, there);
        assert_ne!((app.scroll_y, app.scroll_x), at);
        press(&mut app, back);
        assert_eq!((app.scroll_y, app.scroll_x), at);
    }
}

#[test]
fn only_q_and_ctrl_c_quit() {
    let mut app = viewer("a\n", "b\n");
    assert_eq!(press(&mut app, 'c'), Action::Continue);
    assert_eq!(press(&mut app, 'q'), Action::Quit);
    assert_eq!(app.handle_key(KeyEvent { code: KeyCode::Char('c'), ctrl: true }), Action::Quit);
    assert_eq!(app.handle_key(KeyEvent { code: KeyCode::Other, ctrl: true }), Action::Continue);
}

#[test]
fn the_selection_stays_in_the_list() {
    let mut app = listing(3);
    let tab = KeyEvent { code: KeyCode::Tab, ctrl: false };
    let back = KeyEvent { code: KeyCode::BackTab, ctrl: false };
    assert_eq!(app.handle_key(back), Action::Continue);
    let seen: Vec<(Action, usize)> = (0..4).map(|_| (app.handle_key(tab), app.selection)).collect();
    assert_eq!(
        seen,
        vec![(Action::Reload, 1), (Action::Reload, 2), (Action::Continue, 2), (Action::Continue, 2)]
    );
    assert_eq!((app.handle_key(back), app.selection), (Action::Reload, 1));
    assert_eq!(listing(0).handle_key(tab), Action::Continue);
    assert_eq!((app.move_selection(-9), app.selection), (Action::Reload, 0));
}

#[test]
fn jumps_go_from_change_to_change() {
    // Changes in column 0 of line 1, and in column 2 of line 3.
    let mut app = viewer("a.b\nx..\n...\n..y\n", "a.b\nz..\n...\n..w\n");
    let mut seen = Vec::new();
    for _ in 0..3 {
        press(&mut app, 'n');
        seen.push((app.scroll_y, app.scroll_x));
    }
    // Every changed column of these files shows a character in line 0.
    assert_eq!(seen[0], seen[1]);
    press(&mut app, 't');
    let starts: Vec<usize> = (0..3)
        .map(|_| {
            press(&mut app, 'n');
            app.scroll_y
        })
        .collect();
    assert_eq!(starts, vec![1, 3, 4]);
    press(&mut app, 'p');
    assert_eq!(app.scroll_y, 3);
    press(&mut app, 'g');
    press(&mut app, 'p');
    assert_eq!(app.scroll_y, 4);
    // Where nothing changed, there is nowhere to jump.
    let mut same = viewer("a\nb\n", "a\nb\n");
    press(&mut same, 'j');
    press(&mut same, 'n');
    assert_eq!(same.scroll_y, 1);
}

#[test]
fn the_status_line() {
    let area = Area { x: 0, y: 0, width: 80, height: 24 };
    let keys = "tab/⇧tab select · hjkl scroll · n/p changes · t transpose · e sidebar · q quit";
    let mut app = viewer("a\n", "b\n");
    let screen = app.render(area);
    assert_eq!(screen.status.line, format!(" old → new  v0/1 h0/3  {keys}"));
    assert_eq!(screen.diff.title, " old → new ");
    assert!(screen.sidebar.is_none());
    let screen = app.render(area);
    assert_eq!(screen.status.line, format!(" old → new  v0/0 h0/0  {keys}"));
    app.degraded = true;
    assert!(app.render(area).status.line.contains("h0/0  LCS skipped (wide file)  tab"));
    let screen = listing(0).render(area);
    assert_eq!(screen.status.line, format!(" index → index  no changes  {keys}"));
}

#[test]
fn panes_of_the_screen() {
    let mut app = listing(2);
    let screen = app.render(Area { x: 0, y: 0, width: 100, height: 30 });
    let sidebar = screen.sidebar.unwrap();
    assert_eq!(sidebar.area, Area { x: 0, y: 0, width: 28, height: 29 });
    assert_eq!(screen.diff.area, Area { x: 28, y: 0, width: 72, height: 29 });
    assert_eq!(screen.status.area, Area { x: 0, y: 29, width: 100, height: 1 });
    assert_eq!((app.pane_width, app.pane_height), (72, 29));
    assert_eq!(sidebar.items.len(), 2);
    assert_eq!(sidebar.selected, 0);
    match screen.diff.body {
        Body::Message { area, .. } => {
            assert_eq!(area, Area { x: 29, y: 14, width: 70, height: 1 });
        }
        other => panic!("expected a message, got {other:?}"),
    }
}

#[test]
fn panes_of_every_size() {
    let app = listing(1);
    let widths = (0..=1_500).chain([9_999, 20_000, 32_767, 32_768, 40_001, 65_000, 65_528]);
    for width in widths {
        let area = Area { x: 7, y: 3, width, height: 24 };
        let side = ((28 * u32::from(width) + 50) / 100) as u16;
        let panes = app.panes(area);
        assert_eq!(panes.sidebar, Some(Area { x: 7, y: 3, width: side, height: 23 }));
        assert_eq!(panes.diff, Area { x: 7 + side, y: 3, width: width - side, height: 23 });
        assert_eq!(panes.status, Area { x: 7, y: 26, width, height: 1 });
    }
    let app = viewer("a\n", "b\n");
    for height in (0..=1_500).chain([9_999, 32_767, 32_768, 65_532]) {
        let area = Area { x: 7, y: 3, width: 80, height };
        let status = height.min(1);
        let panes = app.panes(area);
        assert_eq!(panes.sidebar, None);
        assert_eq!(panes.diff, Area { x: 7, y: 3, width: 80, height: height - status });
        assert_eq!(panes.status, Area { x: 7, y: 3 + height - status, width: 80, height: status });
    }
}

#[test]
fn tiny_screens() {
    let app = viewer("a\n", "b\n");
    let none = Area { x: 3, y: 4, width: 0, height: 0 };
    let screen = app.screen(Panes { sidebar: None, diff: none, status: none });
    assert_eq!(screen.diff.body, Body::Glyphs(vec![]));
    // One cell inside the border: the marker row alone.
    let small = Area { x: 0, y: 0, width: 3, height: 3 };
    let screen = app.screen(Panes { sidebar: None, diff: small, status: none });
    match screen.diff.body {
        Body::Glyphs(glyphs) => {
            assert_eq!(glyphs.len(), 1);
            assert_eq!((glyphs[0].x, glyphs[0].y, glyphs[0].symbol), (1, 1, '-'));
            assert_eq!(glyphs[0].tint, Tint::Red);
        }
        other => panic!("expected glyphs, got {other:?}"),
    }
}

#[test]
fn entries_of_the_sidebar() {
    let item = |status| {
        let file = ChangedFile { status, old_path: "a".to_string(), new_path: "b".to_string() };
        let item = sidebar_item(&file);
        (item.letter, item.tint, item.path)
    };
    assert_eq!(item(Status::Modified), ('M', Tint::Yellow, "b".to_string()));
    assert_eq!(item(Status::Added), ('A', Tint::Green, "b".to_string()));
    assert_eq!(item(Status::Deleted), ('D', Tint::Red, "b".to_string()));
    assert_eq!(item(Status::Renamed), ('R', Tint::Cyan, "a → b".to_string()));
}
