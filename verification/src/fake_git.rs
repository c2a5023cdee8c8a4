//! A git shell with canned replies.

use crate::git;
use crate::git::{GitRunError, GitShell, Reply, RunErrorView};
use crate::text;
use vstd::prelude::*;

verus! {

/// A git shell that answers from memory: what was seeded for the arguments, or
/// a non-zero exit.
#[derive(Debug)]
pub struct FakeGit {
    entries: Vec<(String, Result<String, GitRunError>)>,
}

/// The replies that a list of entries holds, a later one hiding an earlier one
/// for the same arguments.
pub open spec fn replies(entries: Seq<(String, Result<String, GitRunError>)>) -> Map<
    Seq<char>,
    Reply,
>
    decreases entries.len(),
{
    if entries.len() == 0 {
        Map::empty()
    } else {
        replies(entries.drop_last()).insert(
            entries.last().0@,
            git::reply_view(entries.last().1),
        )
    }
}

/// A failing run with the given exit status and error text.
pub open spec fn failure(code: i32, stderr: Seq<char>) -> Reply {
    Err(RunErrorView::NonZero { code: Some(code), stderr })
}

/// The arguments as one text, with spaces between.
pub open spec fn key_of(args: Seq<Seq<char>>) -> Seq<char> {
    text::join_with(args, " "@)
}

impl View for FakeGit {
    type V = Map<Seq<char>, Reply>;

    closed spec fn view(&self) -> Map<Seq<char>, Reply> {
        replies(self.entries@)
    }
}

impl Default for FakeGit {
    /// A shell without any seeded reply.
    fn default() -> (r: FakeGit)
        ensures
            r@ == Map::<Seq<char>, Reply>::empty(),
    {
        FakeGit { entries: Vec::new() }
    }
}

/// The arguments as one text, with spaces between.
fn joined(args: &[&str]) -> (r: String)
    ensures
        r@ == key_of(text::str_texts(args@)),
{
    let mut parts: Vec<String> = Vec::new();
    let mut i: usize = 0;
    while i < args.len()
        invariant
            i <= args@.len(),
            text::texts(parts@) == text::str_texts(args@).take(i as int),
        decreases args@.len() - i,
    {
        let ghost before = text::texts(parts@);
        parts.push(args[i].to_string());
        proof {
            assert(text::texts(parts@) =~= before.push(args@[i as int]@));
            assert(text::texts(parts@) =~= text::str_texts(args@).take(i + 1));
        }
        i += 1;
    }
    assert(text::texts(parts@) =~= text::str_texts(args@));
    text::join_texts(&parts, " ")
}

/// A copy of a reply.
fn copy_reply(r: &Result<String, GitRunError>) -> (c: Result<String, GitRunError>)
    ensures
        git::reply_view(c) == git::reply_view(*r),
{
    match r {
        Ok(s) => Ok(s.clone()),
        Err(e) => Err(e.clone()),
    }
}

impl FakeGit {
    /// Seeds one reply.
    fn seed(&mut self, args: &[&str], reply: Result<String, GitRunError>)
        ensures
            final(self)@ == old(self)@.insert(
                key_of(text::str_texts(args@)),
                git::reply_view(reply),
            ),
    {
        let ghost before = self.entries@;
        self.entries.push((joined(args), reply));
        assert(self.entries@.drop_last() =~= before);
    }

    /// Seeds a successful answer; `None` seeds a non-zero exit.
    pub fn set(&mut self, args: &[&str], out: Option<String>)
        ensures
            final(self)@ == old(self)@.insert(
                key_of(text::str_texts(args@)),
                match out {
                    Some(s) => Ok(s@),
                    None => failure(1, "fake failure"@),
                },
            ),
    {
        let reply = match out {
            Some(s) => Ok(s),
            None => Err(
                GitRunError::NonZero { code: Some(1), stderr: "fake failure".to_string() },
            ),
        };
        self.seed(args, reply)
    }

    /// Seeds a non-zero exit with the given error text.
    pub fn set_failure(&mut self, args: &[&str], stderr: &str)
        ensures
            final(self)@ == old(self)@.insert(
                key_of(text::str_texts(args@)),
                failure(128, stderr@),
            ),
    {
        self.seed(
            args,
            Err(GitRunError::NonZero { code: Some(128), stderr: stderr.to_string() }),
        )
    }

    /// Seeds non-UTF-8 output (what git emits for binary blobs).
    pub fn set_binary(&mut self, args: &[&str])
        ensures
            final(self)@ == old(self)@.insert(
                key_of(text::str_texts(args@)),
                Err(RunErrorView::NonUtf8),
            ),
    {
        self.seed(args, Err(GitRunError::NonUtf8))
    }

    /// The reply that the shell gives to `args`.
    pub open spec fn reply_to(&self, args: Seq<Seq<char>>) -> Reply {
        if self@.dom().contains(key_of(args)) {
            self@[key_of(args)]
        } else {
            failure(1, "fake failure"@)
        }
    }

    /// The reply that the shell gives to `args`.
    fn look_up(&self, args: &[&str]) -> (r: Result<String, GitRunError>)
        ensures
            git::reply_view(r) == self.reply_to(text::str_texts(args@)),
    {
        let key = joined(args);
        let mut n: usize = self.entries.len();
        let ghost es = self.entries@;
        assert(es.take(n as int) =~= es);
        while n > 0
            invariant
                n <= self.entries.len(),
                es == self.entries@,
                key@ == key_of(text::str_texts(args@)),
                self@.dom().contains(key@) <==> replies(es.take(n as int)).dom().contains(key@),
                self@.dom().contains(key@) ==> self@[key@] == replies(es.take(n as int))[key@],
            decreases n,
        {
            assert(es.take(n as int).drop_last() =~= es.take(n - 1));
            assert(es.take(n as int).last() == es[n - 1]);
            if self.entries[n - 1].0 == key {
                return copy_reply(&self.entries[n - 1].1);
            }
            n -= 1;
        }
        assert(es.take(0) =~= Seq::empty());
        Err(GitRunError::NonZero { code: Some(1), stderr: "fake failure".to_string() })
    }
}

impl GitShell for FakeGit {
    open spec fn answers(&self, args: Seq<Seq<char>>, lossy: bool, reply: Reply) -> bool {
        reply == self.reply_to(args)
    }

    fn output(&self, args: &[&str]) -> (r: Result<String, GitRunError>) {
        self.look_up(args)
    }

    fn output_lossy(&self, args: &[&str]) -> (r: Result<String, GitRunError>) {
        self.look_up(args)
    }
}

} // verus!
