//! The report that is printed where there is no terminal to draw on.

use crate::changes::{ChangedFile, ChangedFileView};
use crate::content;
use crate::content::{DiskTexts, FetchError, Texts};
use crate::diff;
use crate::diff::StepView;
use crate::git::GitShell;
use crate::render;
use crate::revs::{RevSpec, RevSpecView};
use crate::width;
use vstd::prelude::*;

verus! {

/// The widths of the columns of `steps`.
pub open spec fn widths_of(steps: Seq<StepView>) -> Seq<usize> {
    Seq::new(steps.len(), |i: int| width::column_width(steps[i].content) as usize)
}

/// The printed diff of two texts.
pub open spec fn plain_diff(a: Seq<char>, b: Seq<char>) -> Seq<char> {
    render::text_view(
        diff::grid_steps(a, b),
        diff::grid_height(a, b),
        widths_of(diff::grid_steps(a, b)),
    )
}

/// The printed diff of two texts.
pub fn files_report(old: &str, new: &str) -> (r: String)
    ensures
        r@ == plain_diff(old@, new@),
{
    let grid = diff::compute(old, new);
    assert(grid.widths@ =~= widths_of(grid.view_steps()));
    render::render_text(&grid)
}

/// The message for a file that could not be read.
pub fn read_error(path: &str, why: &str) -> (r: String)
    ensures
        r@ == "reading "@ + path@ + ": "@ + why@,
{
    let mut r = "reading ".to_string();
    r.append(path);
    r.append(": ");
    r.append(why);
    r
}

/// What is printed for one changed file, given its texts: a header with its
/// path, then the diff, or why there is none.
pub open spec fn section_of(file: ChangedFileView, t: Texts) -> Seq<char> {
    "=== "@ + file.new_path + " ===\n"@ + match t {
        Ok(Some((a, b))) => plain_diff(a, b),
        Ok(None) => "(binary or unreadable)\n"@,
        Err(e) => "(error: "@ + content::fetch_error_text(e) + ")\n"@,
    }
}

/// What is printed for one changed file, given its texts.
pub fn file_section(file: &ChangedFile, texts: Result<Option<(String, String)>, FetchError>) -> (r:
    String)
    ensures
        r@ == section_of(file@, content::texts_view(texts)),
{
    let mut r = "=== ".to_string();
    r.append(file.new_path.as_str());
    r.append(" ===\n");
    match texts {
        Ok(Some((old, new))) => {
            let body = files_report(old.as_str(), new.as_str());
            r.append(body.as_str());
        },
        Ok(None) => {
            r.append("(binary or unreadable)\n");
        },
        Err(e) => {
            let why = e.message();
            let mut line = "(error: ".to_string();
            line.append(why.as_str());
            line.append(")\n");
            r.append(line.as_str());
        },
    }
    r
}

/// Whether `r` may be what is printed for one changed file.
pub open spec fn section_possible<G: GitShell + ?Sized>(
    g: &G,
    spec: RevSpecView,
    file: ChangedFileView,
    disk: DiskTexts,
    r: Seq<char>,
) -> bool {
    exists|t: Texts| #[trigger]
        content::load_possible(g, spec, file, disk, t) && r == section_of(file, t)
}

/// What is printed for one changed file; `disk` holds the texts of the files
/// that `content::disk_reads` names.
pub fn git_section<G: GitShell + ?Sized>(
    g: &G,
    spec: &RevSpec,
    file: &ChangedFile,
    disk: DiskTexts,
) -> (r: String)
    ensures
        section_possible(g, spec@, file@, disk, r@),
{
    let texts = content::load_content(g, spec, file, disk);
    let ghost t = content::texts_view(texts);
    assert(content::load_possible(g, spec@, file@, disk, t));
    file_section(file, texts)
}

} // verus!
