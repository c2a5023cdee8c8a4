//! What holds of reading git's output and of what git is asked.

use crate::changes;
use crate::changes::{ChangedFileView, Status};
use crate::content;
use crate::content::{DiskTexts, FetchErrorView, SideText};
use crate::fake_git;
use crate::fake_git::FakeGit;
use crate::git::{GitShell, Reply};
use crate::revs;
use crate::revs::{RangeKind, RevPlanView, RevSpecView, SourceView};
use crate::text;
use crate::text_laws;
use vstd::prelude::*;

verus! {

/// The fields, each with a NUL after it.
pub open spec fn terminated(fields: Seq<Seq<char>>) -> Seq<char>
    decreases fields.len(),
{
    if fields.len() == 0 {
        Seq::empty()
    } else {
        terminated(fields.drop_last()) + fields.last() + seq!['\0']
    }
}

/// The letter that stands for a status.
pub open spec fn letter_of(status: Status) -> char {
    match status {
        Status::Modified => 'M',
        Status::Added => 'A',
        Status::Deleted => 'D',
        Status::Renamed => 'R',
    }
}

/// The fields that list a file: its status letter with a similarity score
/// behind it, then its path, or both paths of a renamed file.
pub open spec fn record_of(file: ChangedFileView, score: Seq<char>) -> Seq<Seq<char>> {
    let status = seq![letter_of(file.status)] + score;
    if file.status == Status::Renamed {
        seq![status, file.old_path, file.new_path]
    } else {
        seq![status, file.new_path]
    }
}

/// The fields that list files.
pub open spec fn all_records(files: Seq<ChangedFileView>, scores: Seq<Seq<char>>) -> Seq<Seq<char>>
    decreases files.len(),
{
    if files.len() == 0 {
        Seq::empty()
    } else {
        all_records(files.drop_last(), scores) + record_of(
            files.last(),
            scores[files.len() - 1],
        )
    }
}

/// Whether git can list the file: its paths are not empty and hold no NUL, and
/// only a renamed file has two of them.
pub open spec fn listable(file: ChangedFileView) -> bool {
    &&& file.old_path.len() > 0
    &&& file.new_path.len() > 0
    &&& text_laws::free_of(file.old_path, '\0')
    &&& text_laws::free_of(file.new_path, '\0')
    &&& file.status != Status::Renamed ==> file.old_path == file.new_path
}

/// Whether every field is one that output can hold: not empty, and no NUL.
pub open spec fn clean(fields: Seq<Seq<char>>) -> bool {
    forall|i: int|
        0 <= i < fields.len() ==> (#[trigger] fields[i]).len() > 0 && text_laws::free_of(
            fields[i],
            '\0',
        )
}

proof fn lemma_split_terminated(fields: Seq<Seq<char>>)
    requires
        clean(fields),
    ensures
        text::split_on(terminated(fields), '\0') == fields.push(Seq::empty()),
    decreases fields.len(),
{
    let empty = Seq::<char>::empty();
    if fields.len() == 0 {
        assert(text::split_on(terminated(fields), '\0') =~= fields.push(empty));
    } else {
        let rest = fields.drop_last();
        assert forall|i: int| 0 <= i < rest.len() implies (#[trigger] rest[i]).len() > 0
            && text_laws::free_of(rest[i], '\0') by {
            assert(rest[i] == fields[i]);
        }
        lemma_split_terminated(rest);
        assert(text_laws::free_of(fields[fields.len() - 1], '\0'));
        text_laws::lemma_split_more(terminated(rest), fields.last(), '\0');
        let joined = terminated(rest) + fields.last();
        assert(rest.push(empty).drop_last() =~= rest);
        assert(empty + fields.last() =~= fields.last());
        assert(text::split_on(joined, '\0') =~= fields);
        assert(terminated(fields).drop_last() =~= joined);
        assert(terminated(fields).last() == '\0');
    }
}

proof fn lemma_nothing_empty(fields: Seq<Seq<char>>)
    requires
        clean(fields),
    ensures
        changes::non_empty(fields) == fields,
    decreases fields.len(),
{
    if fields.len() > 0 {
        let rest = fields.drop_last();
        assert forall|i: int| 0 <= i < rest.len() implies (#[trigger] rest[i]).len() > 0
            && text_laws::free_of(rest[i], '\0') by {
            assert(rest[i] == fields[i]);
        }
        lemma_nothing_empty(rest);
        assert(fields[fields.len() - 1].len() > 0);
        assert(rest.push(fields.last()) =~= fields);
    } else {
        assert(changes::non_empty(fields) =~= fields);
    }
}

/// Output made of clean fields has just these fields.
pub proof fn lemma_fields_read_back(fields: Seq<Seq<char>>)
    requires
        clean(fields),
    ensures
        changes::fields_of(terminated(fields)) == fields,
{
    lemma_split_terminated(fields);
    lemma_nothing_empty(fields);
    let all = fields.push(Seq::<char>::empty());
    assert(all.drop_last() =~= fields);
}

proof fn lemma_records_clean(files: Seq<ChangedFileView>, scores: Seq<Seq<char>>)
    requires
        files.len() <= scores.len(),
        forall|i: int| 0 <= i < files.len() ==> listable(#[trigger] files[i]),
        forall|i: int| 0 <= i < scores.len() ==> text_laws::free_of(#[trigger] scores[i], '\0'),
    ensures
        clean(all_records(files, scores)),
    decreases files.len(),
{
    if files.len() > 0 {
        let rest = files.drop_last();
        assert forall|i: int| 0 <= i < rest.len() implies listable(#[trigger] rest[i]) by {
            assert(rest[i] == files[i]);
        }
        lemma_records_clean(rest, scores);
        let last = files.last();
        let score = scores[files.len() - 1];
        assert(listable(files[files.len() - 1]));
        assert(text_laws::free_of(score, '\0'));
        let record = record_of(last, score);
        let status = seq![letter_of(last.status)] + score;
        assert forall|j: int| 0 <= j < status.len() implies #[trigger] status[j] != '\0' by {
            if j > 0 {
                assert(status[j] == score[j - 1]);
            }
        }
        assert(clean(record));
        let head = all_records(rest, scores);
        let all = all_records(files, scores);
        assert forall|i: int| 0 <= i < all.len() implies (#[trigger] all[i]).len() > 0
            && text_laws::free_of(all[i], '\0') by {
            if i < head.len() {
                assert(all[i] == head[i]);
            } else {
                assert(all[i] == record[i - head.len()]);
            }
        }
    }
}

/// Read from where the record of file `i` starts, the records give the files
/// from file `i` on.
proof fn lemma_records_from(files: Seq<ChangedFileView>, scores: Seq<Seq<char>>, i: int)
    requires
        0 <= i <= files.len() <= scores.len(),
        forall|k: int| 0 <= k < files.len() ==> listable(#[trigger] files[k]),
    ensures
        changes::records_from(
            all_records(files, scores),
            all_records(files.take(i), scores).len() as int,
        ) == files.skip(i),
    decreases files.len() - i,
{
    let fields = all_records(files, scores);
    if i == files.len() {
        assert(files.take(i) =~= files);
        assert(changes::records_from(fields, fields.len() as int) =~= files.skip(i));
    } else {
        lemma_records_from(files, scores, i + 1);
        let at = all_records(files.take(i), scores).len() as int;
        let record = record_of(files[i], scores[i]);
        assert(files.take(i + 1).drop_last() =~= files.take(i));
        assert(files.take(i + 1).last() == files[i]);
        let upto = all_records(files.take(i + 1), scores);
        assert(upto == all_records(files.take(i), scores) + record);
        lemma_records_prefix(files, scores, i + 1);
        assert forall|j: int| 0 <= j < record.len() implies #[trigger] record[j] == fields[at
            + j] by {
            assert(upto[at + j] == record[j]);
            assert(fields[at + j] == upto[at + j]);
        }
        assert(listable(files[i]));
        assert(record[0] == fields[at]);
        assert(record[1] == fields[at + 1]);
        assert(record[0].first() == letter_of(files[i].status));
        if files[i].status == Status::Renamed {
            assert(record[2] == fields[at + 2]);
        }
        assert(changes::record_at(fields, at) == files[i]);
        assert(changes::record_len(fields, at) == record.len());
        assert(at + record.len() == upto.len());
        assert(changes::records_from(fields, at) == seq![files[i]] + changes::records_from(
            fields,
            upto.len() as int,
        ));
        assert(seq![files[i]] + files.skip(i + 1) =~= files.skip(i));
    }
}

/// The records of the first files stand first.
proof fn lemma_records_prefix(files: Seq<ChangedFileView>, scores: Seq<Seq<char>>, i: int)
    requires
        0 <= i <= files.len() <= scores.len(),
    ensures
        all_records(files.take(i), scores).len() <= all_records(files, scores).len(),
        forall|j: int|
            0 <= j < all_records(files.take(i), scores).len() ==> #[trigger] all_records(
                files,
                scores,
            )[j] == all_records(files.take(i), scores)[j],
    decreases files.len() - i,
{
    if i == files.len() {
        assert(files.take(i) =~= files);
    } else {
        lemma_records_prefix(files, scores, i + 1);
        assert(files.take(i + 1).drop_last() =~= files.take(i));
        let x = all_records(files.take(i), scores);
        let y = all_records(files.take(i + 1), scores);
        assert(y == x + record_of(files.take(i + 1).last(), scores[i]));
        assert forall|j: int| 0 <= j < x.len() implies #[trigger] all_records(files, scores)[j]
            == x[j] by {
            assert(y[j] == x[j]);
        }
    }
}

/// What git lists is read back: files, written the way git writes them, come
/// out of the parser as they went in.
pub proof fn law_listed_files_read_back(files: Seq<ChangedFileView>, scores: Seq<Seq<char>>)
    requires
        files.len() <= scores.len(),
        forall|i: int| 0 <= i < files.len() ==> listable(#[trigger] files[i]),
        forall|i: int| 0 <= i < scores.len() ==> text_laws::free_of(#[trigger] scores[i], '\0'),
    ensures
        changes::listed_files(terminated(all_records(files, scores))) == files,
{
    let fields = all_records(files, scores);
    lemma_records_clean(files, scores);
    lemma_fields_read_back(fields);
    lemma_records_from(files, scores, 0);
    assert(files.take(0) =~= Seq::<ChangedFileView>::empty());
    assert(files.skip(0) =~= files);
}

/// Whether a side is named by a revision that looks like an option.
pub open spec fn dashed_source(s: SourceView) -> bool {
    s matches SourceView::Rev(r) && revs::dashed(r)
}

/// Whether no revision of a plan looks like an option.
pub open spec fn plan_is_safe(plan: RevPlanView) -> bool {
    match plan {
        RevPlanView::Sides { old, new } => !dashed_source(old) && !dashed_source(new),
        RevPlanView::Worktree { old } => !dashed_source(old),
        RevPlanView::MergeBase { a, b } => !revs::dashed(a) && !revs::dashed(b),
    }
}

proof fn lemma_none_dashed(revs: Seq<Seq<char>>, i: int)
    requires
        revs::first_dashed(revs) is None,
        0 <= i < revs.len(),
    ensures
        !revs::dashed(revs[i]),
    decreases revs.len(),
{
    if i > 0 {
        lemma_none_dashed(revs.drop_first(), i - 1);
        assert(revs.drop_first()[i - 1] == revs[i]);
    }
}

/// Whatever revision arguments are accepted, none that looks like an option is
/// handed to git, neither as an argument nor as a side of a range.
pub proof fn law_no_option_reaches_git(cached: bool, revs: Seq<Seq<char>>)
    ensures
        revs::plan_of(cached, revs) matches Ok(plan) ==> plan_is_safe(plan) && forall|i: int|
            0 <= i < revs.len() ==> !revs::dashed(#[trigger] revs[i]),
{
    if revs::plan_of(cached, revs) is Ok {
        assert forall|i: int| 0 <= i < revs.len() implies !revs::dashed(#[trigger] revs[i]) by {
            lemma_none_dashed(revs, i);
        }
        reveal_strlit("HEAD");
        if revs.len() > 0 {
            assert(!revs::dashed(revs[0]));
            assert(!revs::dashed(revs[revs.len() - 1]));
        }
    }
}

/// Whether two dots never stand side by side.
pub open spec fn single_dots(s: Seq<char>) -> bool {
    forall|i: int| 0 <= i && i + 1 < s.len() ==> !(#[trigger] s[i] == '.' && s[i + 1] == '.')
}

/// `n` dots.
pub open spec fn dots(n: nat) -> Seq<char> {
    Seq::new(n, |i: int| '.')
}

proof fn lemma_no_dots_before(s: Seq<char>, n: nat, i: int, at: int)
    requires
        0 <= i <= at,
        at + n <= s.len(),
        n >= 1,
        revs::dots_at(s, at, n),
        forall|j: int| i <= j < at ==> !revs::dots_at(s, j, n),
    ensures
        revs::find_dots(s, n, i) == Some(at),
    decreases at - i,
{
    if i < at {
        lemma_no_dots_before(s, n, i + 1, at);
    }
}

proof fn lemma_no_dots_at_all(s: Seq<char>, n: nat, i: int)
    requires
        0 <= i,
        forall|j: int| i <= j < s.len() ==> !revs::dots_at(s, j, n),
    ensures
        revs::find_dots(s, n, i) is None,
    decreases s.len() - i,
{
    if i < s.len() {
        lemma_no_dots_at_all(s, n, i + 1);
    }
}

/// A range is read back: two revisions with three dots between them are a merge
/// base range of the two, with two dots a plain range, `HEAD` standing in for
/// one that is left out. The revisions may hold single dots, but none where the
/// separator touches them.
pub proof fn law_range_reads_back(a: Seq<char>, b: Seq<char>, kind: RangeKind)
    requires
        single_dots(a),
        single_dots(b),
        a.len() > 0 ==> a.last() != '.',
        b.len() > 0 ==> b.first() != '.',
    ensures
        revs::range_of(a + dots(revs::separator_len(kind)) + b) == Some(
            (kind, revs::or_head(a), revs::or_head(b)),
        ),
{
    let n = revs::separator_len(kind);
    let s = a + dots(n) + b;
    let at = a.len() as int;
    assert(revs::dots_at(s, at, n));
    assert(s.take(at) =~= a);
    assert(s.skip(at + n) =~= b);
    assert forall|j: int, m: nat| 0 <= j < at && m >= 2 implies !revs::dots_at(s, j, m) by {
        if j + 1 < at {
            assert(s[j] == a[j] && s[j + 1] == a[j + 1]);
            assert(!(a[j] == '.' && a[j + 1] == '.'));
        } else {
            assert(s[j] == a.last());
        }
    }
    match kind {
        RangeKind::MergeBase => {
            lemma_no_dots_before(s, 3, 0, at);
        },
        RangeKind::Plain => {
            assert forall|j: int| 0 <= j < s.len() implies !revs::dots_at(s, j, 3) by {
                if revs::dots_at(s, j, 3) {
                    if j >= at {
                        assert(s[j + 2] == b[j - at]);
                        if j > at {
                            assert(s[j + 1] == b[j - at - 1]);
                            assert(b[j - at - 1] == '.' && b[j - at - 1 + 1] == '.');
                        }
                    }
                }
            }
            lemma_no_dots_at_all(s, 3, 0);
            lemma_no_dots_before(s, 2, 0, at);
        },
    }
}

/// An added file has no old text, a deleted file no new one.
pub proof fn law_added_and_deleted_sides_are_empty<G: GitShell + ?Sized>(
    g: &G,
    spec: RevSpecView,
    file: ChangedFileView,
    disk: DiskTexts,
    a: Seq<char>,
    b: Seq<char>,
)
    requires
        content::load_possible(
            g,
            spec,
            file,
            disk,
            Ok::<Option<(Seq<char>, Seq<char>)>, FetchErrorView>(Some((a, b))),
        ),
    ensures
        file.status == Status::Added ==> a.len() == 0,
        file.status == Status::Deleted ==> b.len() == 0,
{
}

/// A side that is not text never passes as an empty one: both texts are shown
/// only where both sides are text, and a failure of git is never taken for a
/// file without text.
pub proof fn law_only_text_is_shown(old: SideText, new: SideText)
    ensures
        content::texts_of(old, new) matches Ok(Some((a, b))) <==> old is Ok && new is Ok,
        content::texts_of(old, new) matches Ok(Some((a, b))) ==> old == Ok::<
            Seq<char>,
            FetchErrorView,
        >(a) && new == Ok::<Seq<char>, FetchErrorView>(b),
        content::texts_of(old, new) is Err <==> (old matches Err(FetchErrorView::GitFailed(_)))
            || (new matches Err(FetchErrorView::GitFailed(_))),
{
}

/// A seeded shell replies what was seeded last for the arguments, and to other
/// arguments what it replied before.
pub proof fn law_seeded_reply_is_given(
    before: FakeGit,
    after: FakeGit,
    args: Seq<Seq<char>>,
    reply: Reply,
    other: Seq<Seq<char>>,
)
    requires
        after@ == before@.insert(fake_git::key_of(args), reply),
    ensures
        after.reply_to(args) == reply,
        fake_git::key_of(other) != fake_git::key_of(args) ==> after.reply_to(other)
            == before.reply_to(other),
{
}

} // verus!
