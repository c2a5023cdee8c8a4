use vdiff::columns::{expand_tabs, lines_with_trailing};
use vdiff::diff::{compute, step_width, DiffGrid, Step, StepKind};
use vdiff::lcs::diff_columns;
use vdiff::render::{render_text, render_transposed};

/// Flatten steps into (prefix, content) pairs for readable assertions.
fn ops_of(grid: &DiffGrid) -> Vec<(&'static str, String)> {
    grid.steps
        .iter()
        .map(|s| {
            let p = match s.kind {
                StepKind::Match => "=",
                StepKind::Delete => "-",
                StepKind::Insert => "+",
            };
            (p, s.content.chars().collect())
        })
        .collect()
}

/// Convert expected (prefix, content) literals to ops_of's output
/// type. Needed because std no longer implements `PartialEq`
/// between tuples of different element types (removed in 1.90), so
/// `Vec<(&str, String)>` can't be compared against `Vec<(&str, &str)>`.
fn exp<'a>(pairs: &[(&'a str, &'a str)]) -> Vec<(&'a str, String)> {
    pairs.iter().map(|(p, c)| (*p, c.to_string())).collect()
}

#[test]
fn expand_tabs_reaches_next_tab_stop() {
    assert_eq!(expand_tabs("a\tb"), "a       b");
    assert_eq!(expand_tabs("\t"), "        ");
    // The column count resets at newlines.
    assert_eq!(expand_tabs("a\tb\nab\tc"), "a       b\nab      c");
    // Wide chars count display columns: 中 (2) then the tab lands
    // at the same stop as in a terminal.
    assert_eq!(expand_tabs("中\tx"), "中      x");
}

#[test]
fn compute_expands_tabs() {
    // "a\tb" -> "a       b": only column 8 differs from "a\tc".
    let grid = compute("a\tb\n", "a\tc\n");
    let ops = ops_of(&grid);
    assert_eq!(ops.len(), 10);
    assert!(ops[..8].iter().all(|(p, _)| *p == "="));
    assert_eq!(ops[8], ("-", "b".to_string()));
    assert_eq!(ops[9], ("+", "c".to_string()));
}

#[test]
fn render_text_tabs_align_separators() {
    let rendered = render_text(&compute("a\tb\n", "a\tc\n"));
    let mut lines = rendered.lines();
    let marker = lines.next().unwrap();
    let content = lines.next().unwrap();
    assert_eq!(
        marker.chars().position(|c| c == '|'),
        content.chars().position(|c| c == '|'),
    );
}

#[test]
fn lines_keep_trailing_empty_line() {
    assert_eq!(lines_with_trailing("a\nb\n"), vec!["a", "b"]);
    assert_eq!(lines_with_trailing("a\nb\n\n"), vec!["a", "b", ""]);
    assert_eq!(lines_with_trailing(""), Vec::<String>::new());
}

#[test]
fn diff_columns_all_equal() {
    let cols = vec!["ab".to_string(), "cd".to_string()];
    let (steps, _) = diff_columns(&cols, &cols);
    assert_eq!(
        ops_of(&DiffGrid::from_parts(steps, 2, false)),
        exp(&[("=", "ab"), ("=", "cd")])
    );
}

#[test]
fn diff_columns_replaces_one() {
    let a = vec!["a".to_string(), "b".to_string(), "c".to_string()];
    let b = vec!["a".to_string(), "x".to_string(), "c".to_string()];
    let (steps, _) = diff_columns(&a, &b);
    assert_eq!(
        ops_of(&DiffGrid::from_parts(steps, 1, false)),
        exp(&[("=", "a"), ("-", "b"), ("+", "x"), ("=", "c")])
    );
}

#[test]
fn diff_columns_inserts_and_deletes() {
    let a = vec!["a".to_string(), "c".to_string()];
    let b = vec!["a".to_string(), "b".to_string(), "c".to_string()];
    let (steps, _) = diff_columns(&a, &b);
    assert_eq!(
        ops_of(&DiffGrid::from_parts(steps, 1, false)),
        exp(&[("=", "a"), ("+", "b"), ("=", "c")])
    );
    let a = vec!["a".to_string(), "b".to_string(), "c".to_string()];
    let b = vec!["a".to_string(), "c".to_string()];
    let (steps, _) = diff_columns(&a, &b);
    assert_eq!(
        ops_of(&DiffGrid::from_parts(steps, 1, false)),
        exp(&[("=", "a"), ("-", "b"), ("=", "c")])
    );
}

#[test]
fn diff_columns_empty_sides() {
    assert!(diff_columns(&[], &[]).0.is_empty());
    let (steps, _) = diff_columns(&[], &["x".to_string()]);
    assert_eq!(
        ops_of(&DiffGrid::from_parts(steps, 1, false)),
        exp(&[("+", "x")])
    );
    let (steps, _) = diff_columns(&["x".to_string()], &[]);
    assert_eq!(
        ops_of(&DiffGrid::from_parts(steps, 1, false)),
        exp(&[("-", "x")])
    );
}

#[test]
fn groups_merge_consecutive_same_kind_steps() {
    let grid = compute("foo\nbar baz\nquux\n", "foo\nbar qaz\nquux\n");
    assert_eq!(grid.groups, vec![0..4, 4..5, 5..6, 6..8]);
    assert!(!grid.degraded);
}

#[test]
fn compute_marks_column_change() {
    let grid = compute("foo\nbar baz\nquux\n", "foo\nbar qaz\nquux\n");
    // 7 columns (max line width); column 4 differs: old " b " vs new " q "
    assert_eq!(
        ops_of(&grid),
        exp(&[
            ("=", "fbq"),
            ("=", "oau"),
            ("=", "oru"),
            ("=", "  x"),
            ("-", " b "),
            ("+", " q "),
            ("=", " a "),
            ("=", " z "),
        ])
    );
    assert_eq!(grid.height, 3);
}

#[test]
fn compute_empty_vs_content() {
    let grid = compute("", "foo\nbar\n");
    assert_eq!(ops_of(&grid), exp(&[("+", "fb"), ("+", "oa"), ("+", "or")]));
}

#[test]
fn compute_empty_vs_empty() {
    let grid = compute("", "");
    assert!(grid.steps.is_empty());
    assert_eq!(grid.height, 0);
}

#[test]
fn compute_identical_inputs_are_all_match() {
    let grid = compute("foo\nbar\n", "foo\nbar\n");
    assert!(grid.steps.iter().all(|s| s.kind == StepKind::Match));
    assert!(!grid.degraded);
}

#[test]
fn compute_strips_crlf() {
    let grid = compute("a\r\nb\r\n", "a\r\nc\r\n");
    assert_eq!(ops_of(&grid), exp(&[("-", "ab"), ("+", "ac")]));
}

#[test]
fn compute_utf8_multibyte() {
    let grid = compute("héllo\n", "héxlo\n");
    // one column per char position; column 2 differs (l vs x)
    assert_eq!(
        ops_of(&grid),
        exp(&[
            ("=", "h"),
            ("=", "é"),
            ("-", "l"),
            ("+", "x"),
            ("=", "l"),
            ("=", "o")
        ])
    );
}

#[test]
fn compute_pads_multibyte_columns_by_chars() {
    // "é" is 2 bytes but 1 char — the pad loop must count chars,
    // or "é" vs "é " compares unequal and yields a spurious
    // Delete+Insert (the ASCII analog "a\n" vs "a\n \n" is a Match).
    let grid = compute("é\n", "é\n \n");
    assert_eq!(ops_of(&grid), exp(&[("=", "é ")]));
}

#[test]
fn degraded_skips_lcs_for_pathological_widths() {
    // diff_columns works on columns, not lines: a 5000-char single
    // line becomes 5000 one-char columns (see columns_padded).
    let a = vec!["a".to_string(); 5_000];
    let b = vec!["b".to_string(); 5_000];
    // 5000*5000 > 1_000_000 → degraded path: LCS skipped, so each
    // middle column is one Delete (from a) followed by one Insert (from b).
    let (steps, degraded) = diff_columns(&a, &b);
    assert!(degraded);
    assert_eq!(steps.len(), 10_000);
    assert_eq!(steps[0].kind, StepKind::Delete);
    assert_eq!(steps[4_999].kind, StepKind::Delete);
    assert_eq!(steps[5_000].kind, StepKind::Insert);
    assert_eq!(steps[9_999].kind, StepKind::Insert);
}

#[test]
fn render_text_marks_column_change() {
    assert_eq!(
        render_text(&compute("foo\nbar baz\nquux\n", "foo\nbar qaz\nquux\n")),
        "    |-|+|\nfoo | | |  \nbar |b|q|az\nquux| | |  \n",
    );
}

#[test]
fn render_text_identical_files_have_no_marker() {
    assert_eq!(
        render_text(&compute("foo\nbar baz\n", "foo\nbar baz\n")),
        "foo    \nbar baz\n",
    );
}

#[test]
fn render_text_empty_vs_content() {
    assert_eq!(render_text(&compute("", "foo\nbar\n")), "+++\nfoo\nbar\n");
}

#[test]
fn render_text_empty_vs_empty() {
    assert_eq!(render_text(&compute("", "")), "");
}

#[test]
fn render_text_strips_crlf() {
    assert_eq!(
        render_text(&compute("a\r\nb\r\n", "a\r\nc\r\n")),
        "-|+\na|a\nb|c\n"
    );
}

#[test]
fn render_text_utf8() {
    assert_eq!(
        render_text(&compute("héllo\n", "héxlo\n")),
        "  |-|+|\nhé|l|x|lo\n"
    );
}

#[test]
fn step_width_measures_wide_chars() {
    assert_eq!(
        step_width(&Step {
            kind: StepKind::Match,
            content: "a中".to_string()
        }),
        2
    );
    // All-zero-width column (bare combining mark) floors at 1.
    assert_eq!(
        step_width(&Step {
            kind: StepKind::Match,
            content: "\u{0301}".to_string()
        }),
        1
    );
}

#[test]
fn render_text_cjk_aligns_separators() {
    // 文→日 is width 2, so the marker's `-`/`+` and the content
    // cells are 2 cells wide; the `|`s line up at display 2, 5, 8.
    assert_eq!(
        render_text(&compute("中文abc\n", "中日abc\n")),
        "  |- |+ |\n中|文|日|abc\n",
    );
}

#[test]
fn render_text_cjk_pads_narrow_cells() {
    // Column 0 changes whole (中a → 中b): D+I steps carry width-2
    // cells, so the narrow `a`/`b` cells are padded to 2 cells and
    // the marker's `-`/`+` align with the content.
    assert_eq!(
        render_text(&compute("中文\na文\n", "中文\nb文\n")),
        "- |+ |\n中|中|文\na |b |文\n",
    );
}

#[test]
fn render_text_identical_wide_files_align_columns() {
    // Identical mixed-width files still display the column grid:
    // the narrow `x` is padded to its column's 2-cell width so it
    // sits under `中`, and the row spans the full grid width.
    assert_eq!(
        render_text(&compute("中中\n中x\n", "中中\n中x\n")),
        "中中\n中x \n"
    );
}

#[test]
fn render_text_wide_columns_align_halfwidth_chars() {
    // a.txt case: four full-width chars vs four half-width chars
    // on the same columns; each half-width char is padded to 2
    // cells so it sits at its column's start (a under 你, b under
    // 好, c under 啊, d under ！), trailing pad included.
    assert_eq!(
        render_text(&compute("你好啊！\nabcd\n", "你好啊！\nabcd\n")),
        "你好啊！\na b c d \n"
    );
}

#[test]
fn render_text_keeps_zero_width_clusters_intact() {
    // A ZWJ cell is width 0; padding it would insert a space into
    // the 👨‍👩 emoji cluster and break it into separate glyphs.
    let s = "👨\u{200D}👩\n";
    assert_eq!(render_text(&compute(s, s)), s);
}

#[test]
fn render_text_keeps_zwj_cluster_intact_in_wide_column() {
    // A wide char in the ZWJ's column widens it to 2 cells; the
    // ZWJ must still get no pad, or the family splits apart.
    let s = "👨\u{200D}👩\n中中\n";
    let rendered = render_text(&compute(s, s));
    assert!(
        rendered.contains("👨\u{200D}👩"),
        "cluster must stay glued: {rendered:?}"
    );
}

#[test]
fn render_text_cjk_pads_trailing_cells() {
    // The last change's cell is padded too, so the marker ends at
    // the grid width. `|`s at display 2 and 5; the padded `+` sits
    // over 日's cells 6-7, matching the content row's width.
    assert_eq!(
        render_text(&compute("中文\n", "中日\n")),
        "  |- |+ \n中|文|日\n"
    );
}

#[test]
fn render_text_keeps_trailing_empty_line() {
    assert_eq!(
        render_text(&compute("ab\ncd\n", "ab\ncd\n\n")),
        "ab\ncd\n  \n"
    );
}

#[test]
fn render_text_all_insert() {
    let grid = compute("", "foo\nbar\nquux\n");
    // "quux" is 4 chars wide, so there are 4 insert columns ("++++").
    assert_eq!(render_text(&grid), "++++\nfoo \nbar \nquux\n");
}

#[test]
fn render_transposed_stacks_steps() {
    let grid = compute("foo\nbar baz\nquux\n", "foo\nbar qaz\nquux\n");
    assert_eq!(
        render_transposed(&grid),
        "  fbq\n  oau\n  oru\n    x\n-  b \n+  q \n   a \n   z \n",
    );
}

#[test]
fn render_transposed_empty() {
    assert_eq!(render_transposed(&compute("", "")), "");
}
