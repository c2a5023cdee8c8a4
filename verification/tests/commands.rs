use clap::{Arg, ArgAction, ArgMatches};
use vdiff::app::{App, DiffSource};
use vdiff::cli::{Cli, CliError, Command, RawCli, RawCommand};
use vdiff::content::{disk_reads, DiskTexts};
use vdiff::fake_git::FakeGit;
use vdiff::git::GitError;
use vdiff::repo::{open_repo, OpenError};
use vdiff::report::{files_report, git_section, read_error};

/// The arguments as a parser hands them over.
fn parse(args: &[&str]) -> Result<Cli, CliError> {
    let matches = clap::Command::new("vdiff")
        .arg(Arg::new("file1"))
        .arg(Arg::new("file2"))
        .subcommand(
            clap::Command::new("git")
                .arg(Arg::new("cached").long("cached").action(ArgAction::SetTrue))
                .arg(Arg::new("revs").action(ArgAction::Append).num_args(0..).allow_hyphen_values(true)),
        )
        .get_matches_from(args);
    Cli::from_raw(raw(&matches))
}

fn raw(m: &ArgMatches) -> RawCli {
    let text = |name: &str| m.get_one::<String>(name).cloned();
    let command = m.subcommand().map(|(_, g)| RawCommand::Git {
        cached: g.get_flag("cached"),
        revs: g
            .get_many::<String>("revs")
            .map(|v| v.cloned().collect())
            .unwrap_or_default(),
    });
    RawCli { file1: text("file1"), file2: text("file2"), command }
}

#[test]
fn parses_files_mode() {
    let cli = parse(&["vdiff", "a.txt", "b.txt"]).unwrap();
    assert!(matches!(cli.command, Command::Files { .. }));
}

#[test]
fn parses_git_bare() {
    let cli = parse(&["vdiff", "git"]).unwrap();
    assert!(matches!(cli.command, Command::Git { cached: false, revs } if revs.is_empty()));
}

#[test]
fn parses_git_cached() {
    let cli = parse(&["vdiff", "git", "--cached"]).unwrap();
    assert!(matches!(cli.command, Command::Git { cached: true, .. }));
}

#[test]
fn parses_git_revs() {
    let cli = parse(&["vdiff", "git", "HEAD^"]).unwrap();
    assert!(matches!(cli.command, Command::Git { cached: false, revs } if revs == vec!["HEAD^"]));
    let cli = parse(&["vdiff", "git", "xx...xx"]).unwrap();
    assert!(matches!(cli.command, Command::Git { cached: false, revs } if revs == vec!["xx...xx"]));
}

#[test]
fn files_mode_prints_expected_format() {
    assert_eq!(
        files_report("foo\nbar baz\nquux\n", "foo\nbar qaz\nquux\n"),
        "    |-|+|\nfoo | | |  \nbar |b|q|az\nquux| | |  \n"
    );
}

#[test]
fn files_mode_cjk_aligns_separators() {
    // 文→日 cells are 2 display cells wide; the `|`s line up at
    // display 2, 5, 8 on both the marker row and the content row.
    assert_eq!(files_report("中文abc\n", "中日abc\n"), "  |- |+ |\n中|文|日|abc\n");
}

#[test]
fn files_mode_cjk_identical_aligns_columns() {
    // Identical mixed-width files still display the column grid: the
    // narrow `x` is padded to its column's 2-cell width.
    assert_eq!(files_report("中中\n中x\n", "中中\n中x\n"), "中中\n中x \n");
}

#[test]
fn files_mode_cjk_mixed_width_identical_aligns() {
    // Each half-width char is padded to its column's 2-cell width,
    // sitting at its column's start (a under 你, b under 好, c under
    // 啊, d under ！).
    assert_eq!(
        files_report("你好啊！\nabcd\n", "你好啊！\nabcd\n"),
        "你好啊！\na b c d \n"
    );
}

#[test]
fn files_mode_identical_files() {
    assert_eq!(files_report("x\ny\n", "x\ny\n"), "x\ny\n");
}

#[test]
fn files_mode_missing_file_fails() {
    let err = read_error("/nonexistent/vdiff-a", "No such file or directory (os error 2)");
    assert!(err.contains("vdiff-a"), "error should name the file: {err}");
    assert_eq!(err, "reading /nonexistent/vdiff-a: No such file or directory (os error 2)");
}

#[test]
fn files_with_git_subcommand_is_rejected() {
    let err = parse(&["vdiff", "a3.txt", "b3.txt", "git"]).unwrap_err();
    assert_eq!(err, CliError::FilesWithGit);
    assert!(err.message().contains("cannot be combined"));
    // One file is as wrong as two.
    assert_eq!(parse(&["vdiff", "a3.txt", "git"]), Err(CliError::FilesWithGit));
}

#[test]
fn bare_vdiff_shows_usage_hint() {
    // Files mode with empty paths: a usage hint instead of the cryptic
    // "No such file or directory".
    let hint = parse(&["vdiff"]).unwrap().usage_hint().unwrap();
    assert!(hint.contains("usage: vdiff <FILE1> <FILE2>"));
    // One missing file gets the same hint.
    let hint = parse(&["vdiff", "a.txt"]).unwrap().usage_hint().unwrap();
    assert!(hint.contains("usage: vdiff <FILE1> <FILE2>"));
    // With both files, or in repository mode, there is nothing to say.
    assert_eq!(parse(&["vdiff", "a.txt", "b.txt"]).unwrap().usage_hint(), None);
    assert_eq!(parse(&["vdiff", "git"]).unwrap().usage_hint(), None);
}

fn revs(args: &[&str]) -> Vec<String> {
    args.iter().map(|a| a.to_string()).collect()
}

/// A repository at /repo that holds a.txt = "foo\nbar baz\n" in its index and
/// in HEAD.
fn make_repo() -> FakeGit {
    let mut f = FakeGit::default();
    f.set(&["rev-parse", "--git-dir"], Some(".git\n".to_string()));
    f.set(&["rev-parse", "--show-toplevel"], Some("/repo\n".to_string()));
    f.set(&["cat-file", "-p", ":a.txt"], Some("foo\nbar baz\n".to_string()));
    f.set(&["cat-file", "-p", "HEAD:a.txt"], Some("foo\nbar baz\n".to_string()));
    f
}

/// The report on a repository whose worktree holds `disk` (path below the
/// root's parent, text).
fn report(g: &FakeGit, cached: bool, args: &[&str], disk: &[(&str, &str)]) -> Result<String, OpenError> {
    let repo = open_repo(g, cached, &revs(args))?;
    let mut out = String::new();
    for file in &repo.files {
        let read = |p: Option<vdiff::content::DiskPath>| {
            p.and_then(|p| {
                let full = format!("{}/{}", p.root, p.path);
                disk.iter().find(|(path, _)| *path == full).map(|(_, text)| text.to_string())
            })
        };
        let reads = disk_reads(&repo.spec, file);
        let texts = DiskTexts { old: read(reads.old), new: read(reads.new) };
        out.push_str(&git_section(g, &repo.spec, file, texts));
    }
    Ok(out)
}

#[test]
fn git_mode_clean_worktree_is_silent() {
    let mut g = make_repo();
    g.set(&["diff", "HEAD", "--name-status", "-z"], Some(String::new()));
    assert_eq!(report(&g, false, &["HEAD"], &[]), Ok(String::new()));
}

#[test]
fn git_mode_uncommitted_changes() {
    let mut g = make_repo();
    g.set(&["diff", "--name-status", "-z"], Some("M\0a.txt\0".to_string()));
    let stdout = report(&g, false, &[], &[("/repo/a.txt", "foo\nbar qaz\n")]).unwrap();
    assert!(stdout.starts_with("=== a.txt ===\n"));
    assert!(stdout.contains("-|+|\n"));
}

#[test]
fn git_mode_cached_shows_staged_only() {
    let mut g = make_repo();
    g.set(&["cat-file", "-p", ":a.txt"], Some("foo\nbar qaz\n".to_string()));
    // unstaged: nothing left between worktree and index
    g.set(&["diff", "--name-status", "-z"], Some(String::new()));
    assert_eq!(report(&g, false, &[], &[("/repo/a.txt", "foo\nbar qaz\n")]), Ok(String::new()));
    // staged: index vs HEAD
    g.set(&["diff", "--cached", "--name-status", "-z"], Some("M\0a.txt\0".to_string()));
    let stdout = report(&g, true, &[], &[]).unwrap();
    assert!(stdout.starts_with("=== a.txt ===\n"));
    assert!(stdout.contains("-|+|\n"));
}

#[test]
fn git_mode_three_dot_range() {
    let mut g = make_repo();
    g.set(&["merge-base", "one", "two"], Some("one\n".to_string()));
    g.set(&["diff", "one...two", "--name-status", "-z"], Some("M\0a.txt\0".to_string()));
    g.set(&["cat-file", "-p", "one:a.txt"], Some("foo\nbar baz\nquux\n".to_string()));
    g.set(&["cat-file", "-p", "two:a.txt"], Some("foo\nbar qaz\nquux\n".to_string()));
    let stdout = report(&g, false, &["one...two"], &[]).unwrap();
    assert!(stdout.starts_with("=== a.txt ===\n"));
    assert!(stdout.contains("    |-|+|\n"));
}

#[test]
fn git_mode_from_subdirectory_reads_worktree() {
    // `git diff --name-status` reports paths relative to the repo
    // root (here "sub/s.txt"); the worktree read must join them
    // against it, or a run from a subdirectory would show the new
    // content as missing.
    let mut g = make_repo();
    g.set(&["cat-file", "-p", ":sub/s.txt"], Some("foo\nbar baz\n".to_string()));
    g.set(&["diff", "--name-status", "-z"], Some("M\0sub/s.txt\0".to_string()));
    let stdout = report(&g, false, &[], &[("/repo/sub/s.txt", "foo\nbar qaz\n")]).unwrap();
    assert!(stdout.starts_with("=== sub/s.txt ===\n"), "got {stdout:?}");
    assert!(stdout.contains("-|+|\n"), "got {stdout:?}");
}

#[test]
fn git_mode_with_diff_relative_reads_cwd_paths() {
    // diff.relative makes --name-status emit cwd-relative paths, so
    // the worktree read and cat-file both need the cwd prefix, not a
    // bare join against the repo root.
    let mut g = make_repo();
    g.set(&["config", "--bool", "diff.relative"], Some("true\n".to_string()));
    g.set(&["rev-parse", "--show-prefix"], Some("sub/\n".to_string()));
    g.set(&["cat-file", "-p", ":sub/s.txt"], Some("foo\nbar baz\n".to_string()));
    g.set(&["diff", "--name-status", "-z"], Some("M\0s.txt\0".to_string()));
    let stdout = report(&g, false, &[], &[("/repo/sub/s.txt", "foo\nbar qaz\n")]).unwrap();
    assert!(stdout.contains("-|+|\n"), "got {stdout:?}");
}

#[test]
fn git_mode_shows_missing_trailing_newline() {
    // The worktree copy drops the trailing newline; the diff must
    // report it (a synthetic ↵ column), not pass as identical.
    let mut g = make_repo();
    g.set(&["diff", "--name-status", "-z"], Some("M\0a.txt\0".to_string()));
    let stdout = report(&g, false, &[], &[("/repo/a.txt", "foo\nbar baz")]).unwrap();
    assert!(stdout.contains('↵'), "got {stdout:?}");
}

#[test]
fn git_mode_outside_repo_fails() {
    let g = FakeGit::default();
    let err = report(&g, false, &[], &[]).unwrap_err();
    assert_eq!(err, OpenError::Git(GitError::NotARepo));
    assert!(err.message().contains("not a git repository"));
}

#[test]
fn a_command_line_opens_the_viewer() {
    let mut g = make_repo();
    g.set(&["diff", "--cached", "--name-status", "-z"], Some("M\0a.txt\0".to_string()));
    let cli = parse(&["vdiff", "git", "--cached"]).unwrap();
    let source = DiffSource::from_cli(&cli, Box::new(g)).unwrap_or_else(|e| panic!("{e:?}"));
    let app = App::new(source, DiskTexts::default());
    assert_eq!(app.labels, ("HEAD".to_string(), "index".to_string()));
    assert!(app.has_sidebar());
    assert_eq!(app.entries().len(), 1);
    assert!(app.grid.is_some());
}
