//! From a command line to what the viewer shows.

use crate::app;
use crate::app::{App, DiffSource};
use crate::changes;
use crate::changes::ChangedFileView;
use crate::cli;
use crate::cli::{CliError, CommandView, RawCli, RawCommand};
use crate::content;
use crate::content::{DiskTexts, FetchErrorView, Texts};
use crate::diff;
use crate::git;
use crate::git::{GitError, GitErrorView, GitShell};
use crate::lcs;
use crate::repo;
use crate::repo::{Opened, OpenErrorView};
use crate::revs::SourceView;
use crate::rows;
use crate::width;
use vstd::prelude::*;

verus! {

/// Without the subcommand two files are compared, an empty path standing for
/// one that was left out; with it a repository, and then no file may be named.
pub proof fn law_arguments_name_a_command(raw: RawCli)
    ensures
        raw.command is None ==> (cli::command_of(raw) matches Ok(
            CommandView::Files { file1, file2 },
        ) && (match raw.file1 {
            Some(s) => file1 == s@,
            None => file1.len() == 0,
        }) && (match raw.file2 {
            Some(s) => file2 == s@,
            None => file2.len() == 0,
        })),
        raw.command matches Some(RawCommand::Git { cached, revs }) ==> if raw.file1 is None
            && raw.file2 is None {
            cli::command_of(raw) matches Ok(CommandView::Git { cached: c, revs: r }) && c == cached
                && r.len() == revs@.len() && forall|i: int|
                0 <= i < r.len() ==> #[trigger] r[i] == revs@[i]@
        } else {
            cli::command_of(raw) == Err::<CommandView, CliError>(CliError::FilesWithGit)
        },
        cli::cli_error_text(CliError::FilesWithGit)
            == "file arguments cannot be combined with the git subcommand"@,
        cli::usage_text() == "usage: vdiff <FILE1> <FILE2> | vdiff git [--cached] [REVS...]"@,
{
}

/// Two files that are named are compared; where a repository is asked for, what
/// opening it gave is compared, and a failure to open it comes through.
pub proof fn law_command_names_the_source<G: GitShell + ?Sized>(
    command: CommandView,
    git: Box<G>,
    r: Result<DiffSource<G>, GitError>,
)
    requires
        app::source_possible(command, git, r),
    ensures
        command matches CommandView::Files { file1, file2 } ==> (r matches Ok(
            DiffSource::Files { old, new },
        ) && old@ == file1 && new@ == file2),
        command matches CommandView::Git { cached, revs } ==> exists|opened: Opened| #[trigger]
            repo::open_possible(&*git, cached, revs, opened) && match opened {
                Ok(repo) => r matches Ok(DiffSource::Git { spec, files, git: g }) && spec@
                    == repo.spec && g == git && changes::file_views(files@) == repo.files,
                Err(OpenErrorView::Run(e)) => r matches Err(err) && err@
                    == GitErrorView::GitFailed(git::run_error_text(e)),
                Err(OpenErrorView::Git(e)) => r matches Err(err) && err@ == e,
            },
{
    if command is Git {
        let cached = command->cached;
        let revs = command->revs;
        let opened = choose|opened: Opened| #[trigger]
            repo::open_possible(&*git, cached, revs, opened) && app::source_of_opened(
                opened,
                git,
                r,
            );
        assert(repo::open_possible(&*git, cached, revs, opened));
    }
}

/// The sides are named after the two files, or after the two sides of the
/// comparison.
pub proof fn law_labels_follow_the_source<G: GitShell + ?Sized>(source: DiffSource<G>)
    ensures
        source matches DiffSource::Files { old, new } ==> app::labels_of(source) == (old@, new@),
        source matches DiffSource::Git { spec, files, git } ==> ({
            let name = |s: SourceView|
                match s {
                    SourceView::Index => "index"@,
                    SourceView::Worktree => "worktree"@,
                    SourceView::Rev(r) => r,
                };
            app::labels_of(source) == (name(spec@.old), name(spec@.new))
        }),
{
}

/// Whether the viewer shows the diff of `a` and `b`, and no message.
pub open spec fn shows_diff<G: GitShell + ?Sized>(v: App<G>, a: Seq<char>, b: Seq<char>) -> bool {
    &&& v.message is None
    &&& v.grid matches Some(grid) && grid.view_steps() == diff::grid_steps(a, b) && grid.height
        == diff::grid_height(a, b)
    &&& v.degraded == lcs::too_wide(diff::grid_columns(a, b), diff::grid_columns(b, a))
}

/// Whether the viewer shows a message, and no diff.
pub open spec fn shows_message<G: GitShell + ?Sized>(v: App<G>, m: Seq<char>) -> bool {
    v.grid is None && v.message is Some && v.message->0@ == m
}

/// Whether two viewers are alike but for what they show.
pub open spec fn alike<G: GitShell + ?Sized>(before: App<G>, after: App<G>) -> bool {
    &&& after.source == before.source
    &&& after.selection == before.selection
    &&& after.show_sidebar == before.show_sidebar
    &&& after.transposed == before.transposed
    &&& after.labels == before.labels
    &&& after.pane_width == before.pane_width
    &&& after.pane_height == before.pane_height
}

/// Two texts are shown as their diff, from its top left corner; where there is
/// none, the viewer says why, and says that nothing changed where no file did.
pub proof fn law_viewer_shows_what_it_is_given<G: GitShell + ?Sized>(
    before: App<G>,
    t: Texts,
    after: App<G>,
)
    requires
        app::now_shows(before, t, after),
    ensures
        alike(before, after),
        after.scroll_y == 0,
        after.scroll_x == 0,
        t matches Ok(Some((a, b))) ==> shows_diff(after, a, b),
        !(t matches Ok(Some((a, b)))) ==> after.degraded == before.degraded,
        t matches Ok(None) ==> shows_message(
            after,
            if before.source is Git && before.listed().len() == 0 {
                "no changes"@
            } else {
                "binary or unreadable"@
            },
        ),
        t matches Err(FetchErrorView::Binary) ==> shows_message(after, "binary or unreadable"@),
        t matches Err(FetchErrorView::GitFailed(e)) ==> shows_message(
            after,
            "git failed: "@ + git::run_error_text(e),
        ),
{
}

/// Two files on disk are shown as their diff; where one of them could not be
/// read, the viewer says so.
pub proof fn law_files_on_disk_are_compared<G: GitShell + ?Sized>(
    before: App<G>,
    disk: DiskTexts,
    after: App<G>,
)
    requires
        app::reloaded(before, disk, after),
        before.source is Files,
    ensures
        alike(before, after),
        disk.old is Some && disk.new is Some ==> shows_diff(after, disk.old->0@, disk.new->0@),
        disk.old is None || disk.new is None ==> shows_message(after, "binary or unreadable"@),
{
}

/// In repository mode the viewer shows the texts of the selected file, and those
/// of the last one where the selection lies past the list; without any file it
/// says that nothing changed.
pub proof fn law_selected_file_is_shown<G: GitShell + ?Sized>(
    before: App<G>,
    disk: DiskTexts,
    file: ChangedFileView,
    after: App<G>,
)
    requires
        app::reloaded(before, disk, after),
        before.source is Git,
        before.selection < before.listed().len() ==> file
            == before.listed()[before.selection as int],
        before.selection >= before.listed().len() > 0 ==> file == before.listed().last(),
    ensures
        alike(before, after),
        before.listed().len() == 0 ==> shows_message(after, "no changes"@),
        before.listed().len() > 0 ==> exists|t: Texts| #[trigger]
            content::load_possible(
                &*before.source->git,
                before.source->spec@,
                file,
                disk,
                t,
            ) && app::now_shows(before, t, after),
{
    let t = choose|t: Texts| #[trigger]
        app::texts_possible(before.source, before.selection as nat, disk, t) && app::now_shows(
            before,
            t,
            after,
        );
    if before.listed().len() > 0 {
        let files = before.source->files;
        let i = app::shown_index(before.selection as nat, files@.len());
        assert(before.listed()[i] == files@[i]@);
        assert(content::load_possible(
            &*before.source->git,
            before.source->spec@,
            file,
            disk,
            t,
        ));
    }
}

/// Two files are read from where they were named; of a repository the selected
/// file is read, or the last one where the selection lies past the list.
pub proof fn law_reads_follow_the_selection<G: GitShell + ?Sized>(
    source: DiffSource<G>,
    selection: nat,
)
    ensures
        source matches DiffSource::Files { old, new } ==> app::source_reads(source, selection) == (
            Some((Seq::<char>::empty(), old@)),
            Some((Seq::<char>::empty(), new@)),
        ),
        source matches DiffSource::Git { spec, files, git } ==> if files@.len() == 0 {
            &&& app::source_reads(source, selection).0 is None
            &&& app::source_reads(source, selection).1 is None
        } else if selection < files@.len() {
            app::source_reads(source, selection) == content::reads_of(
                spec@,
                files@[selection as int]@,
            )
        } else {
            app::source_reads(source, selection) == content::reads_of(spec@, files@.last()@)
        },
{
}

/// A viewer starts with its first entry, not transposed, with the sidebar open,
/// and with no pane drawn yet.
pub proof fn law_viewer_starts_afresh<G: GitShell + ?Sized>(
    source: DiffSource<G>,
    labels: (String, String),
)
    ensures
        ({
            let v = app::fresh(source, labels);
            &&& v.source == source
            &&& v.labels == labels
            &&& v.selection == 0
            &&& v.show_sidebar
            &&& !v.transposed
            &&& !v.degraded
            &&& v.pane_width == 0
            &&& v.pane_height == 0
        }),
{
}

/// A viewer without a diff has nothing to scroll. Otherwise it scrolls down as
/// far as there are more rows than the pane shows below the marker row and
/// between its borders, and right as far as the widest row goes past the pane.
pub proof fn law_scrolling_ends_with_the_diff<G: GitShell + ?Sized>(v: App<G>)
    ensures
        v.grid is None ==> v.limit_y() == 0 && v.limit_x() == 0,
        v.grid matches Some(grid) ==> ({
            let shown = if v.transposed {
                rows::step_rows(grid.view_steps())
            } else {
                rows::display_rows(grid.view_steps(), grid.height as nat)
            };
            let count = if v.transposed {
                grid.view_steps().len() as int
            } else {
                grid.height as int
            };
            let high: int = if v.pane_height > 3 {
                v.pane_height - 3
            } else {
                0
            };
            let wide: int = if v.pane_width > 2 {
                v.pane_width - 2
            } else {
                0
            };
            &&& v.limit_y() == if count > high {
                count - high
            } else {
                0
            }
            &&& v.limit_x() == if width::widest_row(shown) > wide {
                width::widest_row(shown) - wide
            } else {
                0
            }
        }),
{
}

} // verus!
