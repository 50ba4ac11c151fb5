//! Release windows: which tags bound each release of a package, and the
//! commit range that a window resolves to.
use vstd::prelude::*;

use crate::error::ErrorKind;
use crate::tags::string_views;

verus! {

/// A release tag and the day (`YYYY-MM-DD`, UTC) of the commit it names.
pub struct Tag {
    pub name: String,
    pub date_time: String,
}

impl Tag {
    /// The tag name.
    pub fn name(&self) -> (r: &String)
        ensures
            r@ == self.name@,
    {
        &self.name
    }
}

/// The older boundary of a release window.
pub enum WindowEnd {
    /// The commit that the next-older tag names.
    Tag(String),
    /// The first parent of the window's start commit (the start itself when
    /// it has none); used when no older tag exists.
    FirstParent,
}

/// A release window in terms of tags: its tag (the newer boundary) and its
/// older boundary.
pub struct TagWindow {
    pub start: String,
    pub end: WindowEnd,
}

pub open spec fn end_view(e: WindowEnd) -> Option<Seq<char>> {
    match e {
        WindowEnd::Tag(t) => Some(t@),
        WindowEnd::FirstParent => None,
    }
}

/// The window of the newest release among `tags` (given in ascending version
/// order): the last tag against the one before it, or against the first
/// parent of its commit when it is the only tag.
pub fn get_commit_latest_range(tags: &Vec<String>) -> (r: Result<TagWindow, ErrorKind>)
    ensures
        tags@.len() == 0 <==> r == Err::<TagWindow, ErrorKind>(ErrorKind::NoTags),
        tags@.len() > 0 ==> r is Ok,
        r is Ok ==> r->Ok_0.start@ == tags@[tags@.len() - 1]@,
        r is Ok && tags@.len() == 1 ==> r->Ok_0.end is FirstParent,
        r is Ok && tags@.len() >= 2 ==> end_view(r->Ok_0.end) == Some(
            tags@[tags@.len() - 2]@,
        ),
{
    let n = tags.len();
    if n == 0 {
        return Err(ErrorKind::NoTags);
    }
    let start = tags[n - 1].clone();
    let end = if n == 1 {
        WindowEnd::FirstParent
    } else {
        WindowEnd::Tag(tags[n - 2].clone())
    };
    Ok(TagWindow { start, end })
}

/// Window `c` of the full history of `tags` (ascending): the tag `c` places
/// from the newest against the tag just older than it.
pub open spec fn history_window(tags: Seq<Seq<char>>, c: int) -> (Seq<char>, Seq<char>) {
    (tags[tags.len() - 1 - c], tags[tags.len() - 2 - c])
}

pub open spec fn window_views(w: Seq<TagWindow>) -> Seq<(Seq<char>, Option<Seq<char>>)> {
    w.map_values(|x: TagWindow| (x.start@, end_view(x.end)))
}

/// The windows of every release among `tags` (ascending), newest first: each
/// tag against the next-older one, so the oldest tag closes the last window.
/// A single tag gives one window, against the first parent of its commit.
pub fn get_all_tag_range(tags: &Vec<String>) -> (r: Result<Vec<TagWindow>, ErrorKind>)
    ensures
        tags@.len() == 0 <==> r == Err::<Vec<TagWindow>, ErrorKind>(ErrorKind::NoTags),
        tags@.len() > 0 ==> r is Ok,
        r is Ok && tags@.len() == 1 ==> r->Ok_0@.len() == 1 && r->Ok_0@[0].start@
            == tags@[0]@ && r->Ok_0@[0].end is FirstParent,
        r is Ok && tags@.len() >= 2 ==> r->Ok_0@.len() == tags@.len() - 1,
        r is Ok && tags@.len() >= 2 ==> forall|c: int|
            0 <= c < r->Ok_0@.len() ==> #[trigger] window_views(r->Ok_0@)[c] == (
                history_window(string_views(tags@), c).0,
                Some(history_window(string_views(tags@), c).1),
            ),
{
    let n = tags.len();
    if n == 0 {
        return Err(ErrorKind::NoTags);
    }
    let mut windows: Vec<TagWindow> = Vec::new();
    if n == 1 {
        windows.push(TagWindow { start: tags[0].clone(), end: WindowEnd::FirstParent });
        return Ok(windows);
    }
    let mut c: usize = 0;
    while c < n - 1
        invariant
            n == tags@.len(),
            n > 0,
            0 <= c <= n - 1,
            windows@.len() == c,
            forall|d: int|
                0 <= d < c ==> #[trigger] window_views(windows@)[d] == (
                    history_window(string_views(tags@), d).0,
                    Some(history_window(string_views(tags@), d).1),
                ),
        decreases n - 1 - c,
    {
        let start = tags[n - 1 - c].clone();
        let end = tags[n - 2 - c].clone();
        let ghost old_w = windows@;
        windows.push(TagWindow { start, end: WindowEnd::Tag(end) });
        proof {
            assert forall|d: int| 0 <= d < c + 1 implies #[trigger] window_views(windows@)[d] == (
                history_window(string_views(tags@), d).0,
                Some(history_window(string_views(tags@), d).1),
            ) by {
                if d < c {
                    assert(windows@[d] == old_w[d]);
                    assert(window_views(old_w)[d] == window_views(windows@)[d]);
                }
            }
        }
        c = c + 1;
    }
    Ok(windows)
}

/// The UTC day, written `YYYY-MM-DD`, of a time given in seconds since the
/// Unix epoch; none when the time is out of chrono's range.
pub uninterp spec fn utc_day(seconds: int) -> Option<Seq<char>>;

/// Relies on chrono's DateTime::from_timestamp and its `%Y-%m-%d` format:
/// the result depends on the seconds alone.
#[verifier::external_body]
fn format_day(seconds: i64) -> (r: Option<String>)
    ensures
        r is Some <==> utc_day(seconds as int) is Some,
        r is Some ==> r->0@ == utc_day(seconds as int)->0,
{
    match chrono::DateTime::from_timestamp(seconds, 0) {
        Some(d) => Some(d.format("%Y-%m-%d").to_string()),
        None => None,
    }
}

/// A release window resolved to commits: the tag, the hash of the commit it
/// names (`start`), and the hash of the older boundary (`end`), with whether
/// that commit has no parent.
pub struct CommitRange {
    pub latest_tag: Tag,
    pub start: String,
    pub end: String,
    pub end_is_root: bool,
}

impl CommitRange {
    /// Builds the range of the tag `tag_name`, whose commit `start` was made
    /// on the UTC day `day`; fails with `Git` when there is no such day.
    pub fn from_day(
        tag_name: &str,
        start: &str,
        day: Option<String>,
        end: &str,
        end_is_root: bool,
    ) -> (r: Result<CommitRange, ErrorKind>)
        ensures
            r is Ok <==> day is Some,
            r is Err ==> r->Err_0 == ErrorKind::Git,
            r is Ok ==> r->Ok_0.latest_tag.name@ == tag_name@,
            r is Ok ==> r->Ok_0.latest_tag.date_time@ == day->0@,
            r is Ok ==> r->Ok_0.start@ == start@ && r->Ok_0.end@ == end@,
            r is Ok ==> r->Ok_0.end_is_root == end_is_root,
    {
        match day {
            Some(day) => Ok(
                CommitRange {
                    latest_tag: Tag { name: String::from_str(tag_name), date_time: day },
                    start: String::from_str(start),
                    end: String::from_str(end),
                    end_is_root,
                },
            ),
            None => Err(ErrorKind::Git),
        }
    }

    /// Builds the range of the tag `tag_name`, whose commit `start` was made
    /// at `start_seconds`; the tag's day is that commit's UTC day. Fails with
    /// `Git` when that time has no day.
    pub fn new(
        tag_name: &str,
        start: &str,
        start_seconds: i64,
        end: &str,
        end_is_root: bool,
    ) -> (r: Result<CommitRange, ErrorKind>)
        ensures
            r is Ok <==> utc_day(start_seconds as int) is Some,
            r is Err ==> r->Err_0 == ErrorKind::Git,
            r is Ok ==> r->Ok_0.latest_tag.name@ == tag_name@,
            r is Ok ==> r->Ok_0.latest_tag.date_time@ == utc_day(start_seconds as int)->0,
            r is Ok ==> r->Ok_0.start@ == start@ && r->Ok_0.end@ == end@,
            r is Ok ==> r->Ok_0.end_is_root == end_is_root,
    {
        CommitRange::from_day(tag_name, start, format_day(start_seconds), end, end_is_root)
    }

    /// Whether a walk of this range needs nothing after the commit `id`: it
    /// is the end commit.
    pub fn stops_at(&self, id: &String) -> (r: bool)
        ensures
            r == (id@ == self.end@),
    {
        *id == self.end
    }
}

} // verus!
