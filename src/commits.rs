//! Commit records, and the walk of a release window: the commits of a reverse
//! walk from the window's start, up to its end.
use vstd::prelude::*;

use crate::error::ErrorKind;
use crate::range::CommitRange;
use crate::text::{first_line, first_line_of, trim, trimmed};

verus! {

/// A commit as the history walk reads it; the message is absent when it could
/// not be decoded.
pub struct RawCommit {
    pub id: String,
    pub message: Option<String>,
    pub author: Option<String>,
    pub seconds: i64,
}

/// A commit of a release window.
pub struct Commit {
    message: String,
    hash: String,
    author: Option<String>,
    datetime: i64,
}

pub open spec fn opt_view(o: Option<String>) -> Option<Seq<char>> {
    match o {
        Some(s) => Some(s@),
        None => None,
    }
}

/// A commit's message, hash, author and time (seconds since the Unix epoch).
pub struct CommitView {
    pub message: Seq<char>,
    pub hash: Seq<char>,
    pub author: Option<Seq<char>>,
    pub datetime: i64,
}

impl View for Commit {
    type V = CommitView;

    closed spec fn view(&self) -> CommitView {
        CommitView {
            message: self.message@,
            hash: self.hash@,
            author: opt_view(self.author),
            datetime: self.datetime,
        }
    }
}

fn clone_opt(o: &Option<String>) -> (r: Option<String>)
    ensures
        opt_view(r) == opt_view(*o),
{
    match o {
        Some(s) => Some(s.clone()),
        None => None,
    }
}

impl Commit {
    /// A commit with the given message, hash, author and time.
    pub fn new(message: String, hash: String, author: Option<String>, datetime: i64) -> (r: Commit)
        ensures
            r@ == (CommitView {
                message: message@,
                hash: hash@,
                author: opt_view(author),
                datetime,
            }),
    {
        Commit { message, hash, author, datetime }
    }

    /// The commit message.
    pub fn message(&self) -> (r: &str)
        ensures
            r@ == self@.message,
    {
        self.message.as_str()
    }

    /// The commit hash.
    pub fn hash(&self) -> (r: &str)
        ensures
            r@ == self@.hash,
    {
        self.hash.as_str()
    }

    /// The commit author, when the commit names one.
    pub fn author(&self) -> (r: &Option<String>)
        ensures
            opt_view(*r) == self@.author,
    {
        &self.author
    }

    /// The commit time, in seconds since the Unix epoch.
    pub fn datetime(&self) -> (r: i64)
        ensures
            r == self@.datetime,
    {
        self.datetime
    }

    pub fn clone(&self) -> (r: Commit)
        ensures
            r@ == self@,
    {
        Commit {
            message: self.message.clone(),
            hash: self.hash.clone(),
            author: clone_opt(&self.author),
            datetime: self.datetime,
        }
    }
}

pub open spec fn commit_views(v: Seq<Commit>) -> Seq<CommitView> {
    v.map_values(|c: Commit| c@)
}

/// The record that a walked commit becomes, once its message is known: the
/// message is kept as its first line, trimmed.
pub open spec fn record_of(c: RawCommit) -> CommitView {
    CommitView {
        message: trimmed(first_line(c.message->0@)),
        hash: c.id@,
        author: opt_view(c.author),
        datetime: c.seconds,
    }
}

/// How many commits of the walk a window keeps: those up to the first one
/// that is the end commit, which is left out when it has a parent and kept as
/// the last one when it has none; the whole walk when the end does not occur.
pub open spec fn kept_len(walk: Seq<RawCommit>, end: Seq<char>, end_is_root: bool, from: int) -> int
    decreases walk.len() - from,
{
    if from >= walk.len() {
        walk.len() as int
    } else if walk[from].id@ == end {
        if end_is_root {
            from + 1
        } else {
            from
        }
    } else {
        kept_len(walk, end, end_is_root, from + 1)
    }
}

pub proof fn lemma_kept_len_bounds(walk: Seq<RawCommit>, end: Seq<char>, end_is_root: bool, from: int)
    requires
        0 <= from <= walk.len(),
    ensures
        from <= kept_len(walk, end, end_is_root, from) <= walk.len(),
        forall|k: int|
            from <= k < kept_len(walk, end, end_is_root, from) && (#[trigger] walk[k]).id@ == end
                ==> end_is_root && k == kept_len(walk, end, end_is_root, from) - 1,
        end_is_root && (exists|k: int| from <= k < walk.len() && (#[trigger] walk[k]).id@ == end)
            ==> kept_len(walk, end, end_is_root, from) > from && walk[kept_len(
            walk,
            end,
            end_is_root,
            from,
        ) - 1].id@ == end,
    decreases walk.len() - from,
{
    if from < walk.len() && walk[from].id@ != end {
        lemma_kept_len_bounds(walk, end, end_is_root, from + 1);
        if exists|k: int| from <= k < walk.len() && (#[trigger] walk[k]).id@ == end {
            let k = choose|k: int| from <= k < walk.len() && (#[trigger] walk[k]).id@ == end;
            assert(from + 1 <= k);
        }
    }
}

/// The window's commits, or `Git` when one of the kept commits has a message
/// that could not be decoded.
pub open spec fn walk_result(walk: Seq<RawCommit>, end: Seq<char>, end_is_root: bool) -> Result<
    Seq<CommitView>,
    ErrorKind,
> {
    let n = kept_len(walk, end, end_is_root, 0);
    if exists|k: int| 0 <= k < n && (#[trigger] walk[k]).message is None {
        Err(ErrorKind::Git)
    } else {
        Ok(Seq::new(n as nat, |k: int| record_of(walk[k])))
    }
}

/// The commits of `range`, taken from `walk`, the reverse walk of the history
/// from the range's start: they run up to the end commit and leave it out,
/// unless it has no parent, when the whole walk is kept. Fails with `Git`,
/// and nothing else is returned, when a kept commit has no decoded message.
pub fn get_commit_list_by_commit_range(walk: &Vec<RawCommit>, commit_range: &CommitRange) -> (r:
    Result<Vec<Commit>, ErrorKind>)
    ensures
        r is Ok <==> walk_result(walk@, commit_range.end@, commit_range.end_is_root) is Ok,
        r is Err ==> r->Err_0 == ErrorKind::Git,
        r is Ok ==> commit_views(r->Ok_0@) == walk_result(
            walk@,
            commit_range.end@,
            commit_range.end_is_root,
        )->Ok_0,
{
    let ghost n = kept_len(walk@, commit_range.end@, commit_range.end_is_root, 0);
    proof {
        lemma_kept_len_bounds(walk@, commit_range.end@, commit_range.end_is_root, 0);
    }
    let mut commits: Vec<Commit> = Vec::new();
    let mut i: usize = 0;
    while i < walk.len()
        invariant_except_break
            0 <= i <= n,
            n == kept_len(walk@, commit_range.end@, commit_range.end_is_root, i as int),
        invariant
            n == kept_len(walk@, commit_range.end@, commit_range.end_is_root, 0),
            n <= walk@.len(),
            i <= n,
            commits@.len() == i,
            forall|k: int| 0 <= k < i ==> (#[trigger] walk@[k]).message is Some,
            forall|k: int| 0 <= k < i ==> #[trigger] commits@[k]@ == record_of(walk@[k]),
        ensures
            i == n,
        decreases walk@.len() - i,
    {
        let c = &walk[i];
        let at_end = c.id == commit_range.end;
        if at_end && !commit_range.end_is_root {
            break;
        }
        proof {
            if !at_end {
                lemma_kept_len_bounds(walk@, commit_range.end@, commit_range.end_is_root, i + 1);
                assert(kept_len(walk@, commit_range.end@, commit_range.end_is_root, i as int)
                    == kept_len(walk@, commit_range.end@, commit_range.end_is_root, i + 1));
            }
        }
        match &c.message {
            Some(m) => {
                let ghost old_c = commits@;
                let line = trim(first_line_of(m.as_str()));
                commits.push(
                    Commit {
                        message: String::from_str(line),
                        hash: c.id.clone(),
                        author: clone_opt(&c.author),
                        datetime: c.seconds,
                    },
                );
                assert forall|k: int| 0 <= k < i + 1 implies #[trigger] commits@[k]@ == record_of(
                    walk@[k],
                ) by {
                    if k < i {
                        assert(commits@[k] == old_c[k]);
                    }
                }
            },
            None => {
                assert(walk@[i as int].message is None);
                return Err(ErrorKind::Git);
            },
        }
        i = i + 1;
        if at_end {
            break;
        }
    }
    assert(commit_views(commits@) =~= walk_result(
        walk@,
        commit_range.end@,
        commit_range.end_is_root,
    )->Ok_0);
    Ok(commits)
}

} // verus!

verus! {

/// Unless the end commit has no parent, no commit of a window is the end
/// commit.
pub proof fn walk_excludes_end(walk: Seq<RawCommit>, end: Seq<char>, end_is_root: bool)
    requires
        !end_is_root,
        walk_result(walk, end, end_is_root) is Ok,
    ensures
        forall|k: int|
            0 <= k < walk_result(walk, end, end_is_root)->Ok_0.len() ==> (#[trigger] walk_result(
                walk,
                end,
                end_is_root,
            )->Ok_0[k]).hash != end,
{
    lemma_kept_len_bounds(walk, end, end_is_root, 0);
}

/// Walking the same history between the same boundaries twice gives the same
/// commits in the same order.
pub proof fn walk_is_deterministic(
    walk: Seq<RawCommit>,
    commit_range: CommitRange,
    first: Seq<CommitView>,
    second: Seq<CommitView>,
)
    requires
        walk_result(walk, commit_range.end@, commit_range.end_is_root) == Ok::<
            Seq<CommitView>,
            ErrorKind,
        >(first),
        walk_result(walk, commit_range.end@, commit_range.end_is_root) == Ok::<
            Seq<CommitView>,
            ErrorKind,
        >(second),
    ensures
        first == second,
{
}

/// When the end commit has no parent and the walk reaches it, it is the last
/// commit of the window, and no earlier commit of the window is the end.
pub proof fn walk_ends_at_root(walk: Seq<RawCommit>, end: Seq<char>, k: int)
    requires
        0 <= k < walk.len(),
        walk[k].id@ == end,
        walk_result(walk, end, true) is Ok,
    ensures
        walk_result(walk, end, true)->Ok_0.len() > 0,
        walk_result(walk, end, true)->Ok_0.last().hash == end,
        forall|j: int|
            0 <= j < walk_result(walk, end, true)->Ok_0.len() - 1 ==> (#[trigger] walk_result(
                walk,
                end,
                true,
            )->Ok_0[j]).hash != end,
{
    lemma_kept_len_bounds(walk, end, true, 0);
    let n = kept_len(walk, end, true, 0);
    assert forall|j: int|
        0 <= j < walk_result(walk, end, true)->Ok_0.len() - 1 implies (#[trigger] walk_result(
        walk,
        end,
        true,
    )->Ok_0[j]).hash != end by {
        if walk[j].id@ == end {
            assert(j == n - 1);
        }
    }
}

} // verus!
