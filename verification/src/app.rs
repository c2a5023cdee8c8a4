//! The viewer's state: what is compared, what is shown of it, and how keys
//! change that.

use crate::changes;
use crate::changes::{ChangedFile, ChangedFileView};
use crate::cli::{Cli, Command, CommandView};
use crate::content;
use crate::content::{DiskPath, DiskReads, DiskTexts, FetchError, FetchErrorView, Texts};
use crate::diff;
use crate::diff::DiffGrid;
use crate::git::{GitError, GitShell};
use crate::lcs;
use crate::repo;
use crate::repo::{Opened, Repo};
use crate::revs;
use crate::revs::RevSpec;
use crate::rows;
use crate::text;
use crate::width;
use vstd::prelude::*;

verus! {

/// Where the texts that are compared come from.
pub enum DiffSource<G: GitShell + ?Sized> {
    Files { old: String, new: String },
    Git { spec: RevSpec, files: Vec<ChangedFile>, git: Box<G> },
}

/// Whether `r` is the source that opening a repository through `git` gave.
pub open spec fn source_of_opened<G: GitShell + ?Sized>(
    opened: Opened,
    git: Box<G>,
    r: Result<DiffSource<G>, GitError>,
) -> bool {
    match opened {
        Ok(repo) => r matches Ok(DiffSource::Git { spec, files, git: g }) && spec@ == repo.spec
            && changes::file_views(files@) == repo.files && g == git,
        Err(e) => r matches Err(err) && err@ == repo::as_git_error(e),
    }
}

/// Whether `r` may be the source that the `git` subcommand names.
pub open spec fn git_source_possible<G: GitShell + ?Sized>(
    cached: bool,
    revs: Seq<Seq<char>>,
    git: Box<G>,
    r: Result<DiffSource<G>, GitError>,
) -> bool {
    exists|opened: Opened| #[trigger]
        repo::open_possible(&*git, cached, revs, opened) && source_of_opened(opened, git, r)
}

/// Whether `r` may be the source that a command line names.
pub open spec fn source_possible<G: GitShell + ?Sized>(
    command: CommandView,
    git: Box<G>,
    r: Result<DiffSource<G>, GitError>,
) -> bool {
    match command {
        CommandView::Files { file1, file2 } => r matches Ok(DiffSource::Files { old, new })
            && old@ == file1 && new@ == file2,
        CommandView::Git { cached, revs } => git_source_possible(cached, revs, git, r),
    }
}

impl<G: GitShell + ?Sized> DiffSource<G> {
    /// The source that an opened repository makes.
    pub fn from_opened(
        opened: Result<Repo, repo::OpenError>,
        git: Box<G>,
    ) -> (r: Result<DiffSource<G>, GitError>)
        ensures
            source_of_opened(repo::opened_view(opened), git, r),
    {
        match opened {
            Ok(repo) => Ok(DiffSource::Git { spec: repo.spec, files: repo.files, git }),
            Err(e) => Err(e.into_git()),
        }
    }

    /// The source that a command line names; a repository is opened through
    /// `git`.
    pub fn from_cli(cli: &Cli, git: Box<G>) -> (r: Result<DiffSource<G>, GitError>)
        ensures
            source_possible(cli.command@, git, r),
    {
        match &cli.command {
            Command::Files { file1, file2 } => Ok(
                DiffSource::Files { old: file1.clone(), new: file2.clone() },
            ),
            Command::Git { cached, revs } => {
                let opened = repo::open_repo(&*git, *cached, revs.as_slice());
                let ghost answer = repo::opened_view(opened);
                assert(repo::open_possible(&*git, *cached, text::texts(revs@), answer));
                DiffSource::from_opened(opened, git)
            },
        }
    }

    /// The files on disk that showing the selected entry reads.
    pub fn disk_reads(&self, selection: usize) -> (r: DiskReads)
        ensures
            content::reads_view(r) == source_reads(*self, selection as nat),
    {
        match self {
            DiffSource::Files { old, new } => DiskReads {
                old: Some(DiskPath { root: String::new(), path: old.clone() }),
                new: Some(DiskPath { root: String::new(), path: new.clone() }),
            },
            DiffSource::Git { spec, files, git } => {
                if files.len() == 0 {
                    DiskReads { old: None, new: None }
                } else {
                    let i: usize = if selection < files.len() {
                        selection
                    } else {
                        files.len() - 1
                    };
                    content::disk_reads(spec, &files[i])
                }
            },
        }
    }
}

/// The file that is shown where `selection` is selected among `n` files.
pub open spec fn shown_index(selection: nat, n: nat) -> int {
    if selection < n {
        selection as int
    } else {
        n - 1
    }
}

/// The files on disk that showing the selected entry reads.
pub open spec fn source_reads<G: GitShell + ?Sized>(source: DiffSource<G>, selection: nat) -> (
    Option<(Seq<char>, Seq<char>)>,
    Option<(Seq<char>, Seq<char>)>,
) {
    match source {
        DiffSource::Files { old, new } => (
            Some((Seq::empty(), old@)),
            Some((Seq::empty(), new@)),
        ),
        DiffSource::Git { spec, files, git } => if files@.len() == 0 {
            (None, None)
        } else {
            content::reads_of(spec@, files@[shown_index(selection, files@.len())]@)
        },
    }
}

/// The texts of two files, where both could be read.
pub open spec fn both_texts(disk: DiskTexts) -> Texts {
    match (disk.old, disk.new) {
        (Some(a), Some(b)) => Ok(Some((a@, b@))),
        _ => Ok(None),
    }
}

/// Whether `t` may be the texts of the selected entry, where `disk` holds what
/// was read from disk for it.
pub open spec fn texts_possible<G: GitShell + ?Sized>(
    source: DiffSource<G>,
    selection: nat,
    disk: DiskTexts,
    t: Texts,
) -> bool {
    match source {
        DiffSource::Files { old, new } => t == both_texts(disk),
        DiffSource::Git { spec, files, git } => if files@.len() == 0 {
            t == Ok::<Option<(Seq<char>, Seq<char>)>, FetchErrorView>(None)
        } else {
            content::load_possible(
                &*git,
                spec@,
                files@[shown_index(selection, files@.len())]@,
                disk,
                t,
            )
        },
    }
}

/// Whether the source is a comparison in which nothing changed.
pub open spec fn nothing_changed<G: GitShell + ?Sized>(source: DiffSource<G>) -> bool {
    source matches DiffSource::Git { spec, files, git } && files@.len() == 0
}

/// How the two sides of a source are named to the user.
pub open spec fn labels_of<G: GitShell + ?Sized>(source: DiffSource<G>) -> (
    Seq<char>,
    Seq<char>,
) {
    match source {
        DiffSource::Files { old, new } => (old@, new@),
        DiffSource::Git { spec, files, git } => (
            revs::source_label(spec@.old),
            revs::source_label(spec@.new),
        ),
    }
}

/// Whether `grid` is the grid of two texts.
pub open spec fn is_grid_of(grid: DiffGrid, a: Seq<char>, b: Seq<char>) -> bool {
    &&& grid.wf()
    &&& grid.rectangular()
    &&& grid.view_steps() == diff::grid_steps(a, b)
    &&& grid.height == diff::grid_height(a, b)
    &&& grid.degraded == lcs::too_wide(diff::grid_columns(a, b), diff::grid_columns(b, a))
}

/// The viewer.
pub struct App<G: GitShell + ?Sized> {
    pub source: DiffSource<G>,
    pub selection: usize,
    pub show_sidebar: bool,
    pub transposed: bool,
    pub scroll_y: usize,
    pub scroll_x: usize,
    pub grid: Option<DiffGrid>,
    pub message: Option<String>,
    pub degraded: bool,
    pub labels: (String, String),
    /// Size of the diff pane when it was last drawn. Zero until then: that
    /// means "no clamp yet", so that keys can move before the first drawing.
    pub pane_width: usize,
    pub pane_height: usize,
}

/// A viewer that shows nothing yet.
pub open spec fn fresh<G: GitShell + ?Sized>(
    source: DiffSource<G>,
    labels: (String, String),
) -> App<G> {
    App {
        source,
        selection: 0,
        show_sidebar: true,
        transposed: false,
        scroll_y: 0,
        scroll_x: 0,
        grid: None,
        message: None,
        degraded: false,
        labels,
        pane_width: 0,
        pane_height: 0,
    }
}

/// Whether `after` is `before` with `t` shown from its top left corner.
pub open spec fn now_shows<G: GitShell + ?Sized>(before: App<G>, t: Texts, after: App<G>) -> bool {
    &&& after == App {
        scroll_y: 0,
        scroll_x: 0,
        grid: after.grid,
        message: after.message,
        degraded: after.degraded,
        ..before
    }
    &&& match t {
        Ok(Some((a, b))) => {
            &&& after.grid matches Some(grid) && is_grid_of(grid, a, b) && after.degraded
                == grid.degraded
            &&& after.message is None
        },
        Ok(None) => {
            &&& after.grid is None
            &&& after.degraded == before.degraded
            &&& after.message matches Some(m) && m@ == if nothing_changed(before.source) {
                "no changes"@
            } else {
                "binary or unreadable"@
            }
        },
        Err(e) => {
            &&& after.grid is None
            &&& after.degraded == before.degraded
            &&& after.message matches Some(m) && m@ == content::fetch_error_text(e)
        },
    }
}

/// Whether `after` may be `before` with the selected entry shown.
pub open spec fn reloaded<G: GitShell + ?Sized>(
    before: App<G>,
    disk: DiskTexts,
    after: App<G>,
) -> bool {
    exists|t: Texts| #[trigger]
        texts_possible(before.source, before.selection as nat, disk, t) && now_shows(
            before,
            t,
            after,
        )
}

/// The number of rows that the shown view has, and the width of the widest.
pub open spec fn dims_of(grid: Option<DiffGrid>, transposed: bool) -> (nat, nat) {
    match grid {
        None => (0, 0),
        Some(grid) => if transposed {
            (grid.view_steps().len(), width::widest_row(rows::step_rows(grid.view_steps())))
        } else {
            (
                grid.height as nat,
                width::widest_row(rows::display_rows(grid.view_steps(), grid.height as nat)),
            )
        },
    }
}

impl<G: GitShell + ?Sized> App<G> {
    /// Whether the grid, if there is one, is well formed and has one character
    /// per line in every column.
    pub open spec fn wf(&self) -> bool {
        self.grid matches Some(grid) ==> grid.wf() && grid.rectangular()
    }

    /// The files that the sidebar lists.
    pub open spec fn listed(&self) -> Seq<ChangedFileView> {
        match self.source {
            DiffSource::Git { spec, files, git } => changes::file_views(files@),
            DiffSource::Files { old, new } => Seq::empty(),
        }
    }

    /// The largest vertical scroll. The bordered pane shows `pane_height - 2`
    /// rows, one of them the pinned marker row.
    pub open spec fn limit_y(&self) -> nat {
        text::minus(
            dims_of(self.grid, self.transposed).0,
            text::minus(self.pane_height as nat, 3),
        )
    }

    /// The largest horizontal scroll. The bordered pane shows `pane_width - 2`
    /// cells of a row.
    pub open spec fn limit_x(&self) -> nat {
        text::minus(
            dims_of(self.grid, self.transposed).1,
            text::minus(self.pane_width as nat, 2),
        )
    }

    /// A viewer of `source` with its first entry shown; `disk` holds the texts
    /// of the files that `DiffSource::disk_reads` names for selection 0.
    pub fn new(source: DiffSource<G>, disk: DiskTexts) -> (r: App<G>)
        ensures
            r.wf(),
            r.source == source,
            (r.labels.0@, r.labels.1@) == labels_of(source),
            reloaded(fresh(source, r.labels), disk, r),
    {
        let labels = match &source {
            DiffSource::Files { old, new } => (old.clone(), new.clone()),
            DiffSource::Git { spec, files, git } => (spec.old_label(), spec.new_label()),
        };
        let mut app = App {
            source,
            selection: 0,
            show_sidebar: true,
            transposed: false,
            scroll_y: 0,
            scroll_x: 0,
            grid: None,
            message: None,
            degraded: false,
            labels,
            pane_width: 0,
            pane_height: 0,
        };
        app.reload(disk);
        app
    }

    /// Whether there is a list of files to show beside the diff.
    pub fn has_sidebar(&self) -> (r: bool)
        ensures
            r == (self.source is Git),
    {
        match &self.source {
            DiffSource::Git { spec, files, git } => true,
            DiffSource::Files { old, new } => false,
        }
    }

    /// The files that the sidebar lists.
    pub fn entries(&self) -> (r: Vec<ChangedFile>)
        ensures
            changes::file_views(r@) == self.listed(),
    {
        let mut r: Vec<ChangedFile> = Vec::new();
        match &self.source {
            DiffSource::Git { spec, files, git } => {
                let mut i: usize = 0;
                while i < files.len()
                    invariant
                        i <= files@.len(),
                        r@ == files@.take(i as int),
                    decreases files@.len() - i,
                {
                    r.push(files[i].clone());
                    i += 1;
                }
                assert(r@ =~= files@);
            },
            DiffSource::Files { old, new } => {},
        }
        assert(changes::file_views(r@) =~= self.listed());
        r
    }

    /// The files on disk whose texts `reload` needs.
    pub fn disk_reads(&self) -> (r: DiskReads)
        ensures
            content::reads_view(r) == source_reads(self.source, self.selection as nat),
    {
        self.source.disk_reads(self.selection)
    }

    /// Shows two texts, or says why there are none to show, from the top left
    /// corner.
    pub fn show(&mut self, texts: Result<Option<(String, String)>, FetchError>)
        ensures
            now_shows(*old(self), content::texts_view(texts), *final(self)),
    {
        self.scroll_y = 0;
        self.scroll_x = 0;
        match texts {
            Ok(Some((old, new))) => {
                let grid = diff::compute(old.as_str(), new.as_str());
                self.degraded = grid.degraded;
                self.grid = Some(grid);
                self.message = None;
            },
            Ok(None) => {
                self.grid = None;
                let clean = match &self.source {
                    DiffSource::Git { spec, files, git } => files.len() == 0,
                    DiffSource::Files { old, new } => false,
                };
                self.message = Some(
                    if clean {
                        "no changes".to_string()
                    } else {
                        "binary or unreadable".to_string()
                    },
                );
            },
            Err(e) => {
                self.grid = None;
                self.message = Some(e.message());
            },
        }
    }

    /// Shows the selected entry; `disk` holds the texts of the files that
    /// `disk_reads` names.
    pub fn reload(&mut self, disk: DiskTexts)
        ensures
            reloaded(*old(self), disk, *final(self)),
            final(self).wf(),
    {
        let texts = match &self.source {
            DiffSource::Files { old, new } => match (disk.old, disk.new) {
                (Some(a), Some(b)) => Ok(Some((a, b))),
                _ => Ok(None),
            },
            DiffSource::Git { spec, files, git } => {
                if files.len() == 0 {
                    Ok(None)
                } else {
                    let i: usize = if self.selection < files.len() {
                        self.selection
                    } else {
                        files.len() - 1
                    };
                    content::load_content(&**git, spec, &files[i], disk)
                }
            },
        };
        let ghost t = content::texts_view(texts);
        assert(texts_possible(self.source, self.selection as nat, disk, t));
        self.show(texts);
    }

    /// The number of rows of the shown view and the width of the widest.
    pub fn content_dims(&self) -> (r: (usize, usize))
        requires
            self.wf(),
        ensures
            r.0 == dims_of(self.grid, self.transposed).0,
            r.1 == dims_of(self.grid, self.transposed).1,
    {
        match &self.grid {
            None => (0, 0),
            Some(grid) => {
                if self.transposed {
                    let rows = rows::transposed_rows(grid);
                    (grid.steps.len(), width::width_of_rows(&rows))
                } else {
                    let rows = rows::build_rows(grid);
                    (grid.height, width::width_of_rows(&rows))
                }
            },
        }
    }

    /// The largest vertical scroll: the bottom rows of a tall diff are
    /// reachable, and no further.
    pub fn max_scroll_y(&self) -> (r: usize)
        requires
            self.wf(),
        ensures
            r == self.limit_y(),
    {
        let (h, _) = self.content_dims();
        h.saturating_sub(self.pane_height.saturating_sub(3))
    }

    /// The largest horizontal scroll.
    pub fn max_scroll_x(&self) -> (r: usize)
        requires
            self.wf(),
        ensures
            r == self.limit_x(),
    {
        let (_, w) = self.content_dims();
        w.saturating_sub(self.pane_width.saturating_sub(2))
    }
}

} // verus!
