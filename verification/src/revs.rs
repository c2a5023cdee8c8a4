//! Revision arguments: what `git diff` compares for them.

use crate::git;
use crate::git::{GitError, GitErrorView, GitRunError, GitShell, Reply};
use crate::text;
use crate::text::CharSet;
use vstd::prelude::*;

verus! {

/// Where a diff side's content comes from.
#[derive(Debug, PartialEq, Eq)]
pub enum Source {
    /// The index (`git cat-file -p :path`).
    Index,
    /// The file on disk.
    Worktree,
    /// A revision (`git cat-file -p <rev>:path`).
    Rev(String),
}

/// What a `Source` says.
pub enum SourceView {
    Index,
    Worktree,
    Rev(Seq<char>),
}

impl View for Source {
    type V = SourceView;

    open spec fn view(&self) -> SourceView {
        match *self {
            Source::Index => SourceView::Index,
            Source::Worktree => SourceView::Worktree,
            Source::Rev(r) => SourceView::Rev(r@),
        }
    }
}

impl Clone for Source {
    fn clone(&self) -> (r: Self)
        ensures
            r == *self,
    {
        match self {
            Source::Index => Source::Index,
            Source::Worktree => Source::Worktree,
            Source::Rev(r) => Source::Rev(r.clone()),
        }
    }
}

/// Resolved diff sides plus the arguments passed through to `git diff` for the
/// file list.
#[derive(Debug, Clone, PartialEq, Eq)]
pub struct RevSpec {
    pub old: Source,
    pub new: Source,
    pub diff_args: Vec<String>,
    /// Repository root (absolute, no trailing slash) that worktree and index
    /// paths from `git diff --name-status` are relative to. Empty when the
    /// root cannot be decoded.
    pub toplevel: String,
    /// Current directory relative to the root, with trailing slash ("sub/").
    /// Under `diff.relative` git reports paths relative to it, so
    /// `prefix + path` gives the root-relative one that every side needs.
    pub prefix: String,
}

/// What a `RevSpec` says.
#[verifier::ext_equal]
pub struct RevSpecView {
    pub old: SourceView,
    pub new: SourceView,
    pub diff_args: Seq<Seq<char>>,
    pub toplevel: Seq<char>,
    pub prefix: Seq<char>,
}

impl View for RevSpec {
    type V = RevSpecView;

    open spec fn view(&self) -> RevSpecView {
        RevSpecView {
            old: self.old@,
            new: self.new@,
            diff_args: text::texts(self.diff_args@),
            toplevel: self.toplevel@,
            prefix: self.prefix@,
        }
    }
}

/// How a side is named to the user.
pub open spec fn source_label(s: SourceView) -> Seq<char> {
    match s {
        SourceView::Index => "index"@,
        SourceView::Worktree => "worktree"@,
        SourceView::Rev(r) => r,
    }
}

/// How a side is named to the user.
fn label_of(s: &Source) -> (r: String)
    ensures
        r@ == source_label(s@),
{
    match s {
        Source::Index => "index".to_string(),
        Source::Worktree => "worktree".to_string(),
        Source::Rev(r) => r.clone(),
    }
}

impl RevSpec {
    /// How the old side is named to the user.
    pub fn old_label(&self) -> (r: String)
        ensures
            r@ == source_label(self.old@),
    {
        label_of(&self.old)
    }

    /// How the new side is named to the user.
    pub fn new_label(&self) -> (r: String)
        ensures
            r@ == source_label(self.new@),
    {
        label_of(&self.new)
    }
}

/// How a revision argument's range separators split it.
#[derive(Debug, Clone, Copy, PartialEq, Eq, Structural)]
pub enum RangeKind {
    /// `A...B`: compare merge-base(A, B) with B.
    MergeBase,
    /// `A..B`: compare A with B directly.
    Plain,
}

/// The length of the separator of a range.
pub open spec fn separator_len(kind: RangeKind) -> nat {
    match kind {
        RangeKind::MergeBase => 3,
        RangeKind::Plain => 2,
    }
}

/// The length of the separator of a range.
pub fn kind_len(kind: RangeKind) -> (r: usize)
    ensures
        r == separator_len(kind),
{
    match kind {
        RangeKind::MergeBase => 3,
        RangeKind::Plain => 2,
    }
}

/// Whether `n` dots stand at place `i`.
pub open spec fn dots_at(s: Seq<char>, i: int, n: nat) -> bool {
    &&& 0 <= i
    &&& i + n <= s.len()
    &&& forall|k: int| i <= k < i + n ==> #[trigger] s[k] == '.'
}

/// The first place at or after `i` where `n` dots stand.
pub open spec fn find_dots(s: Seq<char>, n: nat, i: int) -> Option<int>
    decreases s.len() - i,
{
    if i + n > s.len() || i >= s.len() {
        None
    } else if dots_at(s, i, n) {
        Some(i)
    } else {
        find_dots(s, n, i + 1)
    }
}

/// A side of a range, `HEAD` where it is left out.
pub open spec fn or_head(s: Seq<char>) -> Seq<char> {
    if s.len() == 0 {
        "HEAD"@
    } else {
        s
    }
}

/// The two sides of `s` around a separator of the given kind at place `i`.
pub open spec fn range_sides(s: Seq<char>, kind: RangeKind, i: int) -> (
    RangeKind,
    Seq<char>,
    Seq<char>,
) {
    (kind, or_head(s.take(i)), or_head(s.skip(i + separator_len(kind))))
}

/// The range that `s` denotes: split at the first `...`, or else at the first
/// `..`; `None` without either.
pub open spec fn range_of(s: Seq<char>) -> Option<(RangeKind, Seq<char>, Seq<char>)> {
    match find_dots(s, 3, 0) {
        Some(i) => Some(range_sides(s, RangeKind::MergeBase, i)),
        None => match find_dots(s, 2, 0) {
            Some(i) => Some(range_sides(s, RangeKind::Plain, i)),
            None => None,
        },
    }
}

/// What an answer of `split_range` says.
pub open spec fn range_view(r: Option<(RangeKind, String, String)>) -> Option<
    (RangeKind, Seq<char>, Seq<char>),
> {
    match r {
        Some((kind, a, b)) => Some((kind, a@, b@)),
        None => None,
    }
}

/// The first place where `n` dots stand.
fn first_dots(chars: &Vec<char>, n: usize) -> (r: Option<usize>)
    requires
        1 <= n <= 3,
    ensures
        r matches Some(i) ==> find_dots(chars@, n as nat, 0) == Some(i as int) && i + n
            <= chars@.len(),
        r is None ==> find_dots(chars@, n as nat, 0) is None,
{
    let mut i: usize = 0;
    while i < chars.len() && n <= chars.len() - i
        invariant
            1 <= n <= 3,
            i <= chars@.len(),
            find_dots(chars@, n as nat, 0) == find_dots(chars@, n as nat, i as int),
        decreases chars@.len() - i,
    {
        let mut k: usize = 0;
        while k < n && chars[i + k] == '.'
            invariant
                k <= n,
                i + n <= chars.len(),
                forall|x: int| i <= x < i + k ==> #[trigger] chars@[x] == '.',
            decreases n - k,
        {
            k += 1;
        }
        if k == n {
            assert(dots_at(chars@, i as int, n as nat));
            return Some(i);
        }
        assert(chars@[i + k] != '.');
        assert(!dots_at(chars@, i as int, n as nat));
        i += 1;
    }
    None
}

/// `chars[from..to]`, `HEAD` where that is empty.
fn side_text(chars: &Vec<char>, from: usize, to: usize) -> (r: String)
    requires
        from <= to <= chars@.len(),
    ensures
        r@ == or_head(chars@.subrange(from as int, to as int)),
{
    if from == to {
        "HEAD".to_string()
    } else {
        text::text_of(chars, from, to)
    }
}

/// Splits a revision argument on range separators (`...` first, then `..`).
/// Empty sides default to "HEAD". `None` when neither separator is present.
pub fn split_range(r: &str) -> (res: Option<(RangeKind, String, String)>)
    ensures
        range_view(res) == range_of(r@),
{
    let chars = text::chars_of(r);
    let (kind, pos) = match first_dots(&chars, 3) {
        Some(pos) => (RangeKind::MergeBase, pos),
        None => match first_dots(&chars, 2) {
            Some(pos) => (RangeKind::Plain, pos),
            None => {
                return None;
            },
        },
    };
    let cut: usize = pos + kind_len(kind);
    proof {
        assert(chars@.subrange(0, pos as int) =~= r@.take(pos as int));
        assert(chars@.subrange(cut as int, chars@.len() as int) =~= r@.skip(cut as int));
    }
    Some((kind, side_text(&chars, 0, pos), side_text(&chars, cut, chars.len())))
}

/// Whether `s` looks like an option.
pub open spec fn dashed(s: Seq<char>) -> bool {
    s.len() > 0 && s.first() == '-'
}

/// Whether `s` looks like an option.
fn starts_with_dash(s: &str) -> (r: bool)
    ensures
        r == dashed(s@),
{
    !s.is_empty() && {
        let chars = text::chars_of(s);
        chars[0] == '-'
    }
}

/// The first of `revs` that looks like an option.
pub open spec fn first_dashed(revs: Seq<Seq<char>>) -> Option<Seq<char>>
    decreases revs.len(),
{
    if revs.len() == 0 {
        None
    } else if dashed(revs.first()) {
        Some(revs.first())
    } else {
        first_dashed(revs.drop_first())
    }
}

/// What is to be compared, before git is asked anything.
#[derive(Debug, PartialEq, Eq)]
pub enum RevPlan {
    /// Both sides are known.
    Sides { old: Source, new: Source },
    /// The new side is the worktree, whose layout git knows.
    Worktree { old: Source },
    /// The old side is the merge base of two revisions, the new side the
    /// second of them.
    MergeBase { a: String, b: String },
}

/// What a `RevPlan` says.
pub enum RevPlanView {
    Sides { old: SourceView, new: SourceView },
    Worktree { old: SourceView },
    MergeBase { a: Seq<char>, b: Seq<char> },
}

impl View for RevPlan {
    type V = RevPlanView;

    open spec fn view(&self) -> RevPlanView {
        match *self {
            RevPlan::Sides { old, new } => RevPlanView::Sides { old: old@, new: new@ },
            RevPlan::Worktree { old } => RevPlanView::Worktree { old: old@ },
            RevPlan::MergeBase { a, b } => RevPlanView::MergeBase { a: a@, b: b@ },
        }
    }
}

/// What a range compares. Its sides must not look like options: git reads
/// "A..-B" as a range plus a switch.
pub open spec fn plan_of_range(kind: RangeKind, a: Seq<char>, b: Seq<char>) -> Result<
    RevPlanView,
    Seq<char>,
> {
    if dashed(a) || dashed(b) {
        Err("range sides must not start with '-'"@)
    } else {
        match kind {
            RangeKind::MergeBase => Ok(RevPlanView::MergeBase { a, b }),
            RangeKind::Plain => Ok(
                RevPlanView::Sides { old: SourceView::Rev(a), new: SourceView::Rev(b) },
            ),
        }
    }
}

/// What revision arguments compare, following `git diff`; the error is the
/// reason why they are invalid.
pub open spec fn plan_of(cached: bool, revs: Seq<Seq<char>>) -> Result<RevPlanView, Seq<char>> {
    match first_dashed(revs) {
        Some(bad) => Err("revision arguments must not start with '-': "@ + bad),
        None => if cached {
            if revs.len() > 1 {
                Err("--cached takes at most one revision"@)
            } else if revs.len() == 1 {
                Ok(RevPlanView::Sides { old: SourceView::Rev(revs[0]), new: SourceView::Index })
            } else {
                Ok(RevPlanView::Sides { old: SourceView::Rev("HEAD"@), new: SourceView::Index })
            }
        } else if revs.len() == 0 {
            Ok(RevPlanView::Worktree { old: SourceView::Index })
        } else if revs.len() > 2 {
            Err("expected at most two revisions, got "@ + text::decimal(revs.len()))
        } else {
            match range_of(revs.last()) {
                Some((kind, a, b)) => plan_of_range(kind, a, b),
                None => if revs.len() == 1 {
                    Ok(RevPlanView::Worktree { old: SourceView::Rev(revs[0]) })
                } else {
                    Ok(
                        RevPlanView::Sides {
                            old: SourceView::Rev(revs[0]),
                            new: SourceView::Rev(revs[1]),
                        },
                    )
                },
            }
        },
    }
}

/// The arguments that `git diff` is to be given for the file list.
pub open spec fn diff_args_of(cached: bool, revs: Seq<Seq<char>>) -> Seq<Seq<char>> {
    if cached {
        seq!["--cached"@] + revs
    } else {
        revs
    }
}

/// What an answer of `plan_revs` says.
pub open spec fn plan_view(r: Result<RevPlan, GitError>) -> Result<RevPlanView, GitErrorView> {
    match r {
        Ok(p) => Ok(p@),
        Err(e) => Err(e@),
    }
}

/// `plan_of` with its reason as an error.
pub open spec fn plan_or_error(cached: bool, revs: Seq<Seq<char>>) -> Result<
    RevPlanView,
    GitErrorView,
> {
    match plan_of(cached, revs) {
        Ok(p) => Ok(p),
        Err(m) => Err(GitErrorView::InvalidRevSpec(m)),
    }
}

/// Both sides of a range must not look like options: git reads "A..-B" as a
/// range plus a switch.
pub fn check_components(a: &str, b: &str) -> (r: Result<(), GitError>)
    ensures
        r is Err <==> dashed(a@) || dashed(b@),
        r matches Err(e) ==> e@ == GitErrorView::InvalidRevSpec(
            "range sides must not start with '-'"@,
        ),
{
    if starts_with_dash(a) || starts_with_dash(b) {
        return Err(
            GitError::InvalidRevSpec("range sides must not start with '-'".to_string()),
        );
    }
    Ok(())
}

/// The index of the first of `revs` that looks like an option.
fn find_dashed(revs: &[String]) -> (r: Option<usize>)
    ensures
        r matches Some(i) ==> i < revs@.len() && first_dashed(text::texts(revs@)) == Some(
            revs@[i as int]@,
        ),
        r is None ==> first_dashed(text::texts(revs@)) is None,
{
    let ghost t = text::texts(revs@);
    let mut i: usize = 0;
    assert(t.skip(0) =~= t);
    while i < revs.len()
        invariant
            i <= revs@.len(),
            t == text::texts(revs@),
            first_dashed(t) == first_dashed(t.skip(i as int)),
        decreases revs@.len() - i,
    {
        proof {
            assert(t.skip(i as int).first() == revs@[i as int]@);
            assert(t.skip(i as int).drop_first() =~= t.skip(i + 1));
        }
        if starts_with_dash(revs[i].as_str()) {
            return Some(i);
        }
        i += 1;
    }
    None
}

/// What revision arguments compare, following `git diff`.
pub fn plan_revs(cached: bool, revs: &[String]) -> (r: Result<RevPlan, GitError>)
    ensures
        plan_view(r) == plan_or_error(cached, text::texts(revs@)),
{
    let ghost t = text::texts(revs@);
    // A revision that looks like an option would be read by git as one (e.g.
    // --output=<file> writes a diff file).
    if let Some(i) = find_dashed(revs) {
        let m = "revision arguments must not start with '-': ".to_string().concat(
            revs[i].as_str(),
        );
        return Err(GitError::InvalidRevSpec(m));
    }
    let n: usize = revs.len();
    if cached {
        if n > 1 {
            return Err(
                GitError::InvalidRevSpec("--cached takes at most one revision".to_string()),
            );
        }
        let old = if n == 1 {
            Source::Rev(revs[0].clone())
        } else {
            Source::Rev("HEAD".to_string())
        };
        return Ok(RevPlan::Sides { old, new: Source::Index });
    }
    if n == 0 {
        return Ok(RevPlan::Worktree { old: Source::Index });
    }
    if n > 2 {
        let count = text::decimal_text(n as u64);
        let m = "expected at most two revisions, got ".to_string().concat(count.as_str());
        return Err(GitError::InvalidRevSpec(m));
    }
    assert(t.last() == revs@[n - 1]@);
    match split_range(revs[n - 1].as_str()) {
        Some((kind, a, b)) => {
            match check_components(a.as_str(), b.as_str()) {
                Ok(_) => {},
                Err(e) => {
                    return Err(e);
                },
            }
            match kind {
                RangeKind::MergeBase => Ok(RevPlan::MergeBase { a, b }),
                RangeKind::Plain => Ok(
                    RevPlan::Sides { old: Source::Rev(a), new: Source::Rev(b) },
                ),
            }
        },
        None => if n == 1 {
            Ok(RevPlan::Worktree { old: Source::Rev(revs[0].clone()) })
        } else {
            Ok(
                RevPlan::Sides {
                    old: Source::Rev(revs[0].clone()),
                    new: Source::Rev(revs[1].clone()),
                },
            )
        },
    }
}

/// The arguments that `git diff` is to be given for the file list.
fn diff_args(cached: bool, revs: &[String]) -> (r: Vec<String>)
    ensures
        text::texts(r@) == diff_args_of(cached, text::texts(revs@)),
{
    let mut r: Vec<String> = Vec::new();
    if cached {
        r.push("--cached".to_string());
    }
    let ghost head = text::texts(r@);
    assert(head =~= if cached {
        seq!["--cached"@]
    } else {
        Seq::empty()
    });
    let mut i: usize = 0;
    assert(text::texts(r@) =~= head + text::texts(revs@).take(0));
    while i < revs.len()
        invariant
            i <= revs@.len(),
            text::texts(r@) == head + text::texts(revs@).take(i as int),
        decreases revs@.len() - i,
    {
        let ghost before = text::texts(r@);
        r.push(revs[i].clone());
        proof {
            assert(text::texts(r@) =~= before.push(revs@[i as int]@));
            assert(text::texts(r@) =~= head + text::texts(revs@).take(i + 1));
        }
        i += 1;
    }
    assert(text::texts(r@) =~= diff_args_of(cached, text::texts(revs@)));
    r
}

/// The arguments that ask for the merge base of two revisions.
pub open spec fn merge_base_args(a: Seq<char>, b: Seq<char>) -> Seq<Seq<char>> {
    seq!["merge-base"@, a, b]
}

/// The merge base that a reply to `merge_base_args` names.
pub open spec fn merge_base_of(a: Seq<char>, b: Seq<char>, reply: Reply) -> Result<
    Seq<char>,
    GitErrorView,
> {
    match reply {
        Ok(hash) => Ok(
            text::trim_end(text::trim_start(hash, CharSet::WhiteSpace), CharSet::WhiteSpace),
        ),
        Err(e) => Err(
            GitErrorView::MergeBaseFailed(a + "..."@ + b + ": "@ + git::run_error_text(e)),
        ),
    }
}

/// What an answer of `merge_base` says.
pub open spec fn merge_base_view(r: Result<String, GitError>) -> Result<Seq<char>, GitErrorView> {
    match r {
        Ok(s) => Ok(s@),
        Err(e) => Err(e@),
    }
}

/// The merge base that a reply to `merge-base <a> <b>` names.
pub fn merge_base_reply(a: &str, b: &str, reply: Result<String, GitRunError>) -> (r: Result<
    String,
    GitError,
>)
    ensures
        merge_base_view(r) == merge_base_of(a@, b@, git::reply_view(reply)),
{
    match reply {
        Ok(hash) => Ok(text::trimmed(hash.as_str(), CharSet::WhiteSpace)),
        Err(e) => {
            let mut m = a.to_string();
            m.append("...");
            m.append(b);
            m.append(": ");
            let why = e.message();
            m.append(why.as_str());
            Err(GitError::MergeBaseFailed(m))
        },
    }
}

/// Asks git for the merge base of two revisions.
pub fn merge_base<G: GitShell + ?Sized>(g: &G, a: &str, b: &str) -> (r: Result<String, GitError>)
    ensures
        exists|reply: Reply| #[trigger]
            g.answers(merge_base_args(a@, b@), false, reply) && merge_base_view(r)
                == merge_base_of(a@, b@, reply),
{
    let args: [&str; 3] = ["merge-base", a, b];
    let reply = g.output(&args);
    assert(text::str_texts(args@) =~= merge_base_args(a@, b@));
    merge_base_reply(a, b, reply)
}

/// The arguments that ask whether git reports paths relative to the current
/// directory.
pub open spec fn relative_args() -> Seq<Seq<char>> {
    seq!["config"@, "--bool"@, "diff.relative"@]
}

/// The arguments that ask for the repository root.
pub open spec fn toplevel_args() -> Seq<Seq<char>> {
    seq!["rev-parse"@, "--show-toplevel"@]
}

/// The arguments that ask for the current directory inside the repository.
pub open spec fn prefix_args() -> Seq<Seq<char>> {
    seq!["rev-parse"@, "--show-prefix"@]
}

/// Whether a reply to `relative_args` says yes; a failure says no.
pub open spec fn says_true(reply: Reply) -> bool {
    match reply {
        Ok(s) => text::trim_end(
            text::trim_start(s, CharSet::WhiteSpace),
            CharSet::WhiteSpace,
        ) == "true"@,
        Err(_) => false,
    }
}

/// The path in a reply, without line breaks at its end; empty on failure.
pub open spec fn path_of(reply: Reply) -> Seq<char> {
    match reply {
        Ok(s) => text::trim_end(s, CharSet::LineBreaks),
        Err(_) => Seq::empty(),
    }
}

/// Whether a reply to `config --bool diff.relative` says yes.
pub fn relative_reply(reply: Result<String, GitRunError>) -> (r: bool)
    ensures
        r == says_true(git::reply_view(reply)),
{
    match reply {
        Ok(s) => {
            let t = text::trimmed(s.as_str(), CharSet::WhiteSpace);
            text::same_text(t.as_str(), "true")
        },
        Err(_) => false,
    }
}

/// The path in a reply, without line breaks at its end; empty on failure.
pub fn path_reply(reply: Result<String, GitRunError>) -> (r: String)
    ensures
        r@ == path_of(git::reply_view(reply)),
{
    match reply {
        Ok(s) => text::trimmed_end(s.as_str(), CharSet::LineBreaks),
        Err(_) => String::new(),
    }
}

/// Whether `prefix` may be what git reports for a root `toplevel`: the current
/// directory where paths are relative to it and the root is known, or else
/// nothing.
pub open spec fn prefix_possible<G: GitShell + ?Sized>(
    g: &G,
    relative: bool,
    toplevel: Seq<char>,
    prefix: Seq<char>,
) -> bool {
    if relative && toplevel.len() > 0 {
        exists|reply: Reply| #[trigger]
            g.answers(prefix_args(), true, reply) && prefix == path_of(reply)
    } else {
        prefix.len() == 0
    }
}

/// Whether git may report this repository layout.
pub open spec fn layout_possible<G: GitShell + ?Sized>(
    g: &G,
    toplevel: Seq<char>,
    prefix: Seq<char>,
) -> bool {
    exists|relative: Reply, top: Reply| #[trigger]
        g.answers(relative_args(), false, relative) && #[trigger] g.answers(
            toplevel_args(),
            false,
            top,
        ) && toplevel == path_of(top) && prefix_possible(
            g,
            says_true(relative),
            toplevel,
            prefix,
        )
}

/// The current directory inside the repository, where paths are relative to it.
fn ask_prefix<G: GitShell + ?Sized>(g: &G, relative: bool, toplevel: &str) -> (r: String)
    ensures
        prefix_possible(g, relative, toplevel@, r@),
{
    if relative && !toplevel.is_empty() {
        let args: [&str; 2] = ["rev-parse", "--show-prefix"];
        let reply = g.output_lossy(&args);
        proof {
            assert(text::str_texts(args@) =~= prefix_args());
            assert(g.answers(prefix_args(), true, git::reply_view(reply)));
        }
        path_reply(reply)
    } else {
        String::new()
    }
}

/// Repository layout for resolving diff paths: the root that paths are
/// relative to, and the current directory's prefix inside it. Under
/// `diff.relative` git reports paths relative to the current directory, so the
/// prefix must be prepended to make them root-relative for every side. An
/// empty root (undecodable, e.g. not UTF-8) falls back to reads relative to the
/// current directory, which is right when running from the root.
pub fn worktree_layout<G: GitShell + ?Sized>(g: &G) -> (r: (String, String))
    ensures
        layout_possible(g, r.0@, r.1@),
{
    let args: [&str; 3] = ["config", "--bool", "diff.relative"];
    let relative_answer = g.output(&args);
    assert(text::str_texts(args@) =~= relative_args());
    let ghost rel = git::reply_view(relative_answer);
    let relative = relative_reply(relative_answer);
    let args: [&str; 2] = ["rev-parse", "--show-toplevel"];
    let top_answer = g.output(&args);
    assert(text::str_texts(args@) =~= toplevel_args());
    let ghost top = git::reply_view(top_answer);
    let toplevel = path_reply(top_answer);
    let prefix = ask_prefix(g, relative, toplevel.as_str());
    proof {
        assert(g.answers(relative_args(), false, rel));
        assert(g.answers(toplevel_args(), false, top));
        assert(prefix_possible(g, says_true(rel), toplevel@, prefix@));
    }
    (toplevel, prefix)
}

/// A comparison that does not read the worktree.
pub open spec fn spec_of_sides(
    old: SourceView,
    new: SourceView,
    diff_args: Seq<Seq<char>>,
) -> RevSpecView {
    RevSpecView { old, new, diff_args, toplevel: Seq::empty(), prefix: Seq::empty() }
}

/// What an answer of `resolve` says.
pub open spec fn resolve_view(r: Result<RevSpec, GitError>) -> Result<RevSpecView, GitErrorView> {
    match r {
        Ok(s) => Ok(s@),
        Err(e) => Err(e@),
    }
}

/// Whether `r` may be the outcome of a plan, given what git may reply.
pub open spec fn outcome_possible<G: GitShell + ?Sized>(
    g: &G,
    plan: RevPlanView,
    diff_args: Seq<Seq<char>>,
    r: Result<RevSpecView, GitErrorView>,
) -> bool {
    match plan {
        RevPlanView::Sides { old, new } => r == Ok::<RevSpecView, GitErrorView>(
            spec_of_sides(old, new, diff_args),
        ),
        RevPlanView::Worktree { old } => r matches Ok(spec) && spec.old == old && spec.new
            == SourceView::Worktree && spec.diff_args == diff_args && layout_possible(
            g,
            spec.toplevel,
            spec.prefix,
        ),
        RevPlanView::MergeBase { a, b } => exists|reply: Reply| #[trigger]
            g.answers(merge_base_args(a, b), false, reply) && r == match merge_base_of(
                a,
                b,
                reply,
            ) {
                Ok(base) => Ok::<RevSpecView, GitErrorView>(
                    spec_of_sides(SourceView::Rev(base), SourceView::Rev(b), diff_args),
                ),
                Err(e) => Err(e),
            },
    }
}

/// Whether `r` may be what resolving revision arguments gives.
pub open spec fn resolve_possible<G: GitShell + ?Sized>(
    g: &G,
    cached: bool,
    revs: Seq<Seq<char>>,
    r: Result<RevSpecView, GitErrorView>,
) -> bool {
    match plan_of(cached, revs) {
        Err(m) => r == Err::<RevSpecView, GitErrorView>(GitErrorView::InvalidRevSpec(m)),
        Ok(plan) => outcome_possible(g, plan, diff_args_of(cached, revs), r),
    }
}

/// Resolves revision arguments into diff sides, following `git diff`
/// semantics. `revs` is passed through to git unchanged for the file list (in
/// `diff_args`).
pub fn resolve<G: GitShell + ?Sized>(g: &G, cached: bool, revs: &[String]) -> (r: Result<
    RevSpec,
    GitError,
>)
    ensures
        resolve_possible(g, cached, text::texts(revs@), resolve_view(r)),
{
    let plan = match plan_revs(cached, revs) {
        Ok(plan) => plan,
        Err(e) => {
            return Err(e);
        },
    };
    let diff_args = diff_args(cached, revs);
    match plan {
        RevPlan::Sides { old, new } => Ok(
            RevSpec { old, new, diff_args, toplevel: String::new(), prefix: String::new() },
        ),
        RevPlan::Worktree { old } => {
            let (toplevel, prefix) = worktree_layout(g);
            Ok(RevSpec { old, new: Source::Worktree, diff_args, toplevel, prefix })
        },
        RevPlan::MergeBase { a, b } => {
            let base = merge_base(g, a.as_str(), b.as_str());
            match base {
                Ok(base) => Ok(
                    RevSpec {
                        old: Source::Rev(base),
                        new: Source::Rev(b),
                        diff_args,
                        toplevel: String::new(),
                        prefix: String::new(),
                    },
                ),
                Err(e) => Err(e),
            }
        },
    }
}

} // verus!
