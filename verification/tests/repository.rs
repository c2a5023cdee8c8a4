use vdiff::changes::{changed_files, parse_name_status_z, ChangedFile, Status};
use vdiff::content::{disk_reads, load_content, DiskPath, DiskTexts};
use vdiff::fake_git::FakeGit;
use vdiff::git::{in_repo, GitError, GitRunError, GitShell};
use vdiff::revs::{resolve, worktree_layout, RevSpec, Source};

fn g() -> FakeGit {
    FakeGit::default()
}

#[test]
fn in_repo_checks_git_dir() {
    let mut f = g();
    assert!(!in_repo(&f).unwrap());
    f.set(&["rev-parse", "--git-dir"], Some(".git".to_string()));
    assert!(in_repo(&f).unwrap());
}

#[test]
fn resolve_bare() {
    let spec = resolve(&g(), false, &[]).unwrap();
    assert_eq!(spec.old, Source::Index);
    assert_eq!(spec.new, Source::Worktree);
    assert!(spec.diff_args.is_empty());
}

#[test]
fn resolve_cached() {
    let spec = resolve(&g(), true, &[]).unwrap();
    assert_eq!(spec.old, Source::Rev("HEAD".to_string()));
    assert_eq!(spec.new, Source::Index);
    assert_eq!(spec.diff_args, vec!["--cached"]);
}

#[test]
fn resolve_cached_with_rev() {
    let spec = resolve(&g(), true, &["R".to_string()]).unwrap();
    assert_eq!(spec.old, Source::Rev("R".to_string()));
    assert_eq!(spec.new, Source::Index);
    assert_eq!(spec.diff_args, vec!["--cached", "R"]);
}

#[test]
fn resolve_cached_with_two_revs_fails() {
    assert!(matches!(
        resolve(&g(), true, &["a".to_string(), "b".to_string()]),
        Err(GitError::InvalidRevSpec(_))
    ));
}

#[test]
fn resolve_single_rev_worktree() {
    let spec = resolve(&g(), false, &["HEAD^".to_string()]).unwrap();
    assert_eq!(spec.old, Source::Rev("HEAD^".to_string()));
    assert_eq!(spec.new, Source::Worktree);
}

#[test]
fn resolve_two_dot_range_single_arg() {
    let spec = resolve(&g(), false, &["HEAD^..HEAD".to_string()]).unwrap();
    assert_eq!(spec.old, Source::Rev("HEAD^".to_string()));
    assert_eq!(spec.new, Source::Rev("HEAD".to_string()));
}

#[test]
fn resolve_three_dot_uses_merge_base() {
    let mut f = g();
    f.set(&["merge-base", "a", "b"], Some("base123".to_string()));
    let spec = resolve(&f, false, &["a...b".to_string()]).unwrap();
    assert_eq!(spec.old, Source::Rev("base123".to_string()));
    assert_eq!(spec.new, Source::Rev("b".to_string()));
}

#[test]
fn resolve_leading_three_dot_defaults_to_head() {
    let mut f = g();
    f.set(&["merge-base", "HEAD", "HEAD^"], Some("base9".to_string()));
    let spec = resolve(&f, false, &["...HEAD^".to_string()]).unwrap();
    assert_eq!(spec.old, Source::Rev("base9".to_string()));
    assert_eq!(spec.new, Source::Rev("HEAD^".to_string()));
}

#[test]
fn resolve_two_plain_revs() {
    let spec = resolve(&g(), false, &["a".to_string(), "b".to_string()]).unwrap();
    assert_eq!(spec.old, Source::Rev("a".to_string()));
    assert_eq!(spec.new, Source::Rev("b".to_string()));
}

#[test]
fn resolve_more_than_two_revs_fails() {
    assert!(matches!(
        resolve(
            &g(),
            false,
            &["a".to_string(), "b".to_string(), "c".to_string()]
        ),
        Err(GitError::InvalidRevSpec(_))
    ));
}

#[test]
fn resolve_range_in_second_arg() {
    let mut f = g();
    f.set(&["merge-base", "b", "c"], Some("base5".to_string()));
    let spec = resolve(&f, false, &["a".to_string(), "b...c".to_string()]).unwrap();
    assert_eq!(spec.old, Source::Rev("base5".to_string()));
    assert_eq!(spec.new, Source::Rev("c".to_string()));
    assert_eq!(spec.diff_args, vec!["a", "b...c"]);
}

#[test]
fn resolve_merge_base_failure() {
    let f = g(); // no merge-base seeded
    assert!(matches!(
        resolve(&f, false, &["a...b".to_string()]),
        Err(GitError::MergeBaseFailed(_))
    ));
}

#[test]
fn labels() {
    assert_eq!(
        RevSpec {
            old: Source::Index,
            new: Source::Worktree,
            diff_args: vec![],
            toplevel: String::new(),
            prefix: String::new()
        }
        .old_label(),
        "index"
    );
    assert_eq!(
        RevSpec {
            old: Source::Index,
            new: Source::Worktree,
            diff_args: vec![],
            toplevel: String::new(),
            prefix: String::new()
        }
        .new_label(),
        "worktree"
    );
    assert_eq!(
        RevSpec {
            old: Source::Rev("HEAD".into()),
            new: Source::Index,
            diff_args: vec![],
            toplevel: String::new(),
            prefix: String::new()
        }
        .old_label(),
        "HEAD"
    );
}

#[test]
fn parse_name_status_z_basic() {
    let out = "M\0src/lib.rs\0A\0src/main.rs\0D\0old.cpp\0R100\0a.cpp\0b.cpp\0";
    let files = parse_name_status_z(out);
    assert_eq!(files.len(), 4);
    assert_eq!(files[0].status, Status::Modified);
    assert_eq!(files[0].old_path, "src/lib.rs");
    assert_eq!(files[0].new_path, "src/lib.rs");
    assert_eq!(files[1].status, Status::Added);
    assert_eq!(files[2].status, Status::Deleted);
    assert_eq!(files[3].status, Status::Renamed);
    assert_eq!(files[3].old_path, "a.cpp");
    assert_eq!(files[3].new_path, "b.cpp");
}

#[test]
fn parse_name_status_z_tab_in_filename() {
    // A literal tab inside a filename is data, not a separator;
    // splitting on it would cut the path and misalign every
    // following record.
    let out = "M\0tab\tname.txt\0A\0other.txt\0";
    let files = parse_name_status_z(out);
    assert_eq!(files.len(), 2);
    assert_eq!(files[0].status, Status::Modified);
    assert_eq!(files[0].new_path, "tab\tname.txt");
    assert_eq!(files[1].status, Status::Added);
    assert_eq!(files[1].new_path, "other.txt");
}

#[test]
fn parse_name_status_z_empty() {
    assert!(parse_name_status_z("").is_empty());
}

#[test]
fn parse_name_status_z_real_git_separators() {
    // Real `git diff --name-status -z` separates every field with NUL.
    let out = "M\0src/lib.rs\0R100\0a.cpp\0b.cpp\0";
    let files = parse_name_status_z(out);
    assert_eq!(files.len(), 2);
    assert_eq!(files[0].status, Status::Modified);
    assert_eq!(files[0].old_path, "src/lib.rs");
    assert_eq!(files[1].status, Status::Renamed);
    assert_eq!(files[1].old_path, "a.cpp");
    assert_eq!(files[1].new_path, "b.cpp");
}

#[test]
fn parse_name_status_z_single_letter_paths() {
    // A single-letter path ("a") must not be misread as a status.
    let out = "M\0a\0D\0x.rs\0";
    let files = parse_name_status_z(out);
    assert_eq!(files.len(), 2);
    assert_eq!(files[0].status, Status::Modified);
    assert_eq!(files[0].old_path, "a");
    assert_eq!(files[0].new_path, "a");
    assert_eq!(files[1].status, Status::Deleted);
    assert_eq!(files[1].old_path, "x.rs");
    assert_eq!(files[1].new_path, "x.rs");
}

#[test]
fn changed_files_builds_diff_args() {
    let mut f = FakeGit::default();
    f.set(
        &["diff", "--cached", "--name-status", "-z"],
        Some("M\0a.txt\0".to_string()),
    );
    let spec = RevSpec {
        old: Source::Rev("HEAD".into()),
        new: Source::Index,
        diff_args: vec!["--cached".into()],
        toplevel: String::new(),
        prefix: String::new(),
    };
    assert_eq!(changed_files(&f, &spec).unwrap().len(), 1);
}

#[test]
fn changed_files_git_failure_is_error() {
    // An unseeded FakeGit fails (non-zero exit, bad rev, ...), which
    // is not "no changes".
    let f = FakeGit::default();
    let spec = RevSpec {
        old: Source::Index,
        new: Source::Worktree,
        diff_args: vec![],
        toplevel: String::new(),
        prefix: String::new(),
    };
    assert!(matches!(
        changed_files(&f, &spec),
        Err(GitError::GitFailed(_))
    ));
}

#[test]
fn changed_files_empty_output_is_clean_tree() {
    let mut f = FakeGit::default();
    f.set(&["diff", "--name-status", "-z"], Some(String::new()));
    let spec = RevSpec {
        old: Source::Index,
        new: Source::Worktree,
        diff_args: vec![],
        toplevel: String::new(),
        prefix: String::new(),
    };
    assert_eq!(changed_files(&f, &spec).unwrap(), vec![]);
}

#[test]
fn load_content_rev_sides() {
    let mut f = FakeGit::default();
    f.set(&["cat-file", "-p", "HEAD:a.txt"], Some("foo\n".to_string()));
    f.set(
        &["cat-file", "-p", "HEAD~1:a.txt"],
        Some("bar\n".to_string()),
    );
    let spec = RevSpec {
        old: Source::Rev("HEAD~1".into()),
        new: Source::Rev("HEAD".into()),
        diff_args: vec![],
        toplevel: String::new(),
        prefix: String::new(),
    };
    let file = ChangedFile {
        status: Status::Modified,
        old_path: "a.txt".into(),
        new_path: "a.txt".into(),
    };
    assert_eq!(
        load_content(&f, &spec, &file, DiskTexts::default()),
        Ok(Some(("bar\n".to_string(), "foo\n".to_string())))
    );
}

#[test]
fn load_content_index_side() {
    let mut f = FakeGit::default();
    f.set(&["cat-file", "-p", ":a.txt"], Some("staged\n".to_string()));
    f.set(
        &["cat-file", "-p", "HEAD:a.txt"],
        Some("head\n".to_string()),
    );
    let spec = RevSpec {
        old: Source::Index,
        new: Source::Rev("HEAD".into()),
        diff_args: vec![],
        toplevel: String::new(),
        prefix: String::new(),
    };
    let file = ChangedFile {
        status: Status::Modified,
        old_path: "a.txt".into(),
        new_path: "a.txt".into(),
    };
    assert_eq!(
        load_content(&f, &spec, &file, DiskTexts::default()).unwrap().unwrap().0,
        "staged\n"
    );
}

/// The texts that a disk holding `files` (joined path, text) has for the sides
/// that `disk_reads` names.
fn read_all(files: &[(&str, &str)], spec: &RevSpec, file: &ChangedFile) -> DiskTexts {
    let look = |p: Option<DiskPath>| {
        p.and_then(|p| {
            let full = format!("{}/{}", p.root, p.path);
            files.iter().find(|(path, _)| *path == full).map(|(_, text)| text.to_string())
        })
    };
    let reads = disk_reads(spec, file);
    DiskTexts { old: look(reads.old), new: look(reads.new) }
}

#[test]
fn load_content_worktree_side_reads_disk() {
    let spec = RevSpec {
        old: Source::Index,
        new: Source::Worktree,
        diff_args: vec![],
        toplevel: "/tmp".to_string(),
        prefix: String::new(),
    };
    let file = ChangedFile {
        status: Status::Modified,
        old_path: "vdiff-wt".to_string(),
        new_path: "vdiff-wt".to_string(),
    };
    let mut f = FakeGit::default();
    f.set(
        &["cat-file", "-p", &format!(":{}", file.old_path)],
        Some("staged\n".to_string()),
    );
    let disk = read_all(&[("/tmp/vdiff-wt", "disk\n")], &spec, &file);
    assert_eq!(load_content(&f, &spec, &file, disk).unwrap().unwrap().1, "disk\n");
}

#[test]
fn load_content_added_and_deleted_sides_are_empty() {
    let mut f = FakeGit::default();
    f.set(
        &["cat-file", "-p", "HEAD:new.txt"],
        Some("text\n".to_string()),
    );
    f.set(
        &["cat-file", "-p", "HEAD:gone.txt"],
        Some("gone\n".to_string()),
    );
    let spec = RevSpec {
        old: Source::Rev("HEAD".into()),
        new: Source::Rev("HEAD".into()),
        diff_args: vec![],
        toplevel: String::new(),
        prefix: String::new(),
    };
    let added = ChangedFile {
        status: Status::Added,
        old_path: "new.txt".into(),
        new_path: "new.txt".into(),
    };
    assert_eq!(
        load_content(&f, &spec, &added, DiskTexts::default()),
        Ok(Some(("".to_string(), "text\n".to_string())))
    );
    let deleted = ChangedFile {
        status: Status::Deleted,
        old_path: "gone.txt".into(),
        new_path: "gone.txt".into(),
    };
    assert_eq!(
        load_content(&f, &spec, &deleted, DiskTexts::default()),
        Ok(Some(("gone\n".to_string(), "".to_string())))
    );
}

#[test]
fn load_content_binary_added_is_none_not_blank() {
    // A binary file added to the repo must read as "binary or
    // unreadable", not as an empty pair that renders a blank pane.
    let mut f = FakeGit::default();
    f.set_binary(&["cat-file", "-p", "HEAD:bin.dat"]);
    let spec = RevSpec {
        old: Source::Rev("HEAD".into()),
        new: Source::Rev("HEAD".into()),
        diff_args: vec![],
        toplevel: String::new(),
        prefix: String::new(),
    };
    let added = ChangedFile {
        status: Status::Added,
        old_path: "bin.dat".into(),
        new_path: "bin.dat".into(),
    };
    assert_eq!(load_content(&f, &spec, &added, DiskTexts::default()), Ok(None));
}

#[test]
fn load_content_git_failure_is_error() {
    // A failed fetch (submodule, missing blob) is not "binary";
    // the caller must be able to show git's message.
    let mut f = FakeGit::default();
    f.set_failure(
        &["cat-file", "-p", "HEAD:sm"],
        "fatal: Not a valid object name :sm",
    );
    let spec = RevSpec {
        old: Source::Rev("HEAD".into()),
        new: Source::Rev("HEAD".into()),
        diff_args: vec![],
        toplevel: String::new(),
        prefix: String::new(),
    };
    let file = ChangedFile {
        status: Status::Modified,
        old_path: "sm".into(),
        new_path: "sm".into(),
    };
    let err = load_content(&f, &spec, &file, DiskTexts::default()).unwrap_err();
    assert!(err.message().contains("Not a valid object name"));
}

#[test]
fn load_content_worktree_joins_repo_root() {
    // `git diff --name-status` reports paths relative to the repo
    // root; the worktree read must join them against it.
    let spec = RevSpec {
        old: Source::Rev("HEAD".into()),
        new: Source::Worktree,
        diff_args: vec![],
        toplevel: "/tmp/vdiff-root".to_string(),
        prefix: String::new(),
    };
    let file = ChangedFile {
        status: Status::Modified,
        old_path: "sub/a.txt".into(),
        new_path: "sub/a.txt".into(),
    };
    let mut f = FakeGit::default();
    f.set(
        &["cat-file", "-p", ":sub/a.txt"],
        Some("staged\n".to_string()),
    );
    f.set(
        &["cat-file", "-p", "HEAD:sub/a.txt"],
        Some("old\n".to_string()),
    );
    let disk = read_all(&[("/tmp/vdiff-root/sub/a.txt", "disk\n")], &spec, &file);
    assert_eq!(load_content(&f, &spec, &file, disk).unwrap().unwrap().1, "disk\n");
}

#[test]
fn load_content_binary_is_none() {
    let mut f = FakeGit::default();
    f.set_binary(&["cat-file", "-p", "HEAD:bin.dat"]);
    let spec = RevSpec {
        old: Source::Rev("HEAD".into()),
        new: Source::Rev("HEAD".into()),
        diff_args: vec![],
        toplevel: String::new(),
        prefix: String::new(),
    };
    let file = ChangedFile {
        status: Status::Modified,
        old_path: "bin.dat".into(),
        new_path: "bin.dat".into(),
    };
    assert_eq!(load_content(&f, &spec, &file, DiskTexts::default()), Ok(None));
}

#[test]
fn worktree_layout_reads_root_and_prefix() {
    let mut f = FakeGit::default();
    f.set(
        &["config", "--bool", "diff.relative"],
        Some("false\n".to_string()),
    );
    f.set(
        &["rev-parse", "--show-toplevel"],
        Some("/repo\n".to_string()),
    );
    assert_eq!(worktree_layout(&f), ("/repo".to_string(), String::new()));
}

#[test]
fn worktree_layout_prefixes_under_diff_relative() {
    let mut f = FakeGit::default();
    f.set(
        &["config", "--bool", "diff.relative"],
        Some("true\n".to_string()),
    );
    f.set(
        &["rev-parse", "--show-toplevel"],
        Some("/repo\n".to_string()),
    );
    f.set(&["rev-parse", "--show-prefix"], Some("sub/\n".to_string()));
    assert_eq!(
        worktree_layout(&f),
        ("/repo".to_string(), "sub/".to_string())
    );
}

#[test]
fn resolve_rejects_dash_range_components() {
    // "A..-B" passes the whole-arg check but would make git read
    // -B as a switch.
    assert!(matches!(
        resolve(&g(), false, &["A..-B".to_string()]),
        Err(GitError::InvalidRevSpec(_))
    ));
    assert!(matches!(
        resolve(&g(), false, &["A...-B".to_string()]),
        Err(GitError::InvalidRevSpec(_))
    ));
}

#[test]
fn resolve_rejects_dash_prefixed_revisions() {
    assert!(matches!(
        resolve(&g(), false, &["--output=/tmp/x".to_string()]),
        Err(GitError::InvalidRevSpec(_))
    ));
}

#[test]
fn an_undecodable_root_is_no_root() {
    let mut f = FakeGit::default();
    f.set(
        &["config", "--bool", "diff.relative"],
        Some("true\n".to_string()),
    );
    f.set_binary(&["rev-parse", "--show-toplevel"]);
    f.set(&["rev-parse", "--show-prefix"], Some("sub/\n".to_string()));
    assert_eq!(worktree_layout(&f), (String::new(), String::new()));
}

/// A shell whose output is never UTF-8: it replies only where it may decode
/// lossily.
struct Foreign;

impl GitShell for Foreign {
    fn output(&self, _args: &[&str]) -> Result<String, GitRunError> {
        Err(GitRunError::NonUtf8)
    }

    fn output_lossy(&self, args: &[&str]) -> Result<String, GitRunError> {
        assert_eq!(args, ["diff", "HEAD", "--name-status", "-z"]);
        Ok("M\0caf\u{fffd}.txt\0A\0b.txt\0".to_string())
    }
}

#[test]
fn a_foreign_file_name_does_not_kill_the_list() {
    let spec = RevSpec {
        old: Source::Rev("HEAD".into()),
        new: Source::Worktree,
        diff_args: vec!["HEAD".into()],
        toplevel: String::new(),
        prefix: String::new(),
    };
    let files = changed_files(&Foreign, &spec).unwrap();
    assert_eq!(files.len(), 2);
    assert_eq!(files[0].new_path, "caf\u{fffd}.txt");
    assert_eq!(files[1].status, Status::Added);
}
