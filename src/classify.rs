//! Recognising the commits of one package: a first message line with a
//! scoped header whose scope is the package, each commit hash kept once.
use vstd::prelude::*;

use crate::commits::{commit_views, opt_view, Commit, CommitView};
use crate::tags::string_views;
use crate::text::{first_line, first_line_of, index_of_from};

verus! {

/// The characters of the bracket class `[fix|feat]`.
pub open spec fn in_header_class(c: char) -> bool {
    c == 'f' || c == 'i' || c == 'x' || c == '|' || c == 'e' || c == 'a' || c == 't'
}

/// The scope pattern matches at `i`: a class character, `(`, any text
/// without `)`, then `)`.
pub open spec fn scope_match_at(s: Seq<char>, i: int) -> bool {
    &&& 0 <= i
    &&& i + 1 < s.len()
    &&& in_header_class(s[i])
    &&& s[i + 1] == '('
    &&& index_of_from(s, ')', i + 2) < s.len()
}

/// The leftmost start at or after `from` where the scope pattern matches.
pub open spec fn first_scope_match(s: Seq<char>, from: int) -> Option<int>
    decreases s.len() - from,
{
    if from < 0 || from >= s.len() {
        None
    } else if scope_match_at(s, from) {
        Some(from)
    } else {
        first_scope_match(s, from + 1)
    }
}

/// The scope captured by the leftmost match of the scope pattern.
pub open spec fn scope_capture(s: Seq<char>) -> Option<Seq<char>> {
    match first_scope_match(s, 0) {
        Some(i) => Some(s.subrange(i + 2, index_of_from(s, ')', i + 2))),
        None => None,
    }
}

/// Relies on regex's Regex::captures for the pattern
/// `[fix|feat]\(([^)]*)\)`: its first group in the leftmost match.
#[verifier::external_body]
fn capture_scope(line: &str) -> (r: Option<String>)
    ensures
        opt_view(r) == scope_capture(line@),
{
    regex::Regex::new(r"[fix|feat]\(([^)]*)\)").unwrap().captures(line).map(
        |c| c[1].to_string(),
    )
}

/// The code of `c` lower-cased, when it is an ASCII capital.
pub open spec fn lower_code(c: char) -> u32 {
    if 'A' <= c && c <= 'Z' {
        (c as u32 + 32) as u32
    } else {
        c as u32
    }
}

/// `scope` and `package` are equal once ASCII capitals are lower-cased.
pub open spec fn scope_is(scope: Seq<char>, package: Seq<char>) -> bool {
    scope.len() == package.len() && forall|i: int|
        0 <= i < scope.len() ==> lower_code(#[trigger] scope[i]) == lower_code(package[i])
}

fn lower(c: char) -> (r: u32)
    ensures
        r == lower_code(c),
{
    if 'A' <= c && c <= 'Z' {
        c as u32 + 32
    } else {
        c as u32
    }
}

fn scope_equals(scope: &str, package: &str) -> (r: bool)
    ensures
        r == scope_is(scope@, package@),
{
    let n = scope.unicode_len();
    if n != package.unicode_len() {
        return false;
    }
    let mut i: usize = 0;
    while i < n
        invariant
            n == scope@.len(),
            n == package@.len(),
            0 <= i <= n,
            forall|k: int| 0 <= k < i ==> lower_code(#[trigger] scope@[k]) == lower_code(package@[k]),
        decreases n - i,
    {
        if lower(scope.get_char(i)) != lower(package.get_char(i)) {
            return false;
        }
        i = i + 1;
    }
    true
}

/// A commit belongs to `package` when the first line of its message holds a
/// scoped header whose scope is the package name, ASCII case aside.
pub open spec fn belongs_to(message: Seq<char>, package: Seq<char>) -> bool {
    match scope_capture(first_line(message)) {
        Some(scope) => scope_is(scope, package),
        None => false,
    }
}

/// Whether the message's header names `package` as its scope.
pub fn is_package_commit(message: &str, package: &str) -> (r: bool)
    ensures
        r == belongs_to(message@, package@),
{
    let line = first_line_of(message);
    match capture_scope(line) {
        Some(scope) => scope_equals(scope.as_str(), package),
        None => false,
    }
}

pub open spec fn hashes(v: Seq<CommitView>) -> Seq<Seq<char>> {
    v.map_values(|c: CommitView| c.hash)
}

/// The commits among the first `n` that belong to `package`, in their order,
/// each hash taken at its first occurrence only.
pub open spec fn classified(cs: Seq<CommitView>, package: Seq<char>, n: int) -> Seq<CommitView>
    decreases n,
{
    if n <= 0 {
        seq![]
    } else {
        let prev = classified(cs, package, n - 1);
        let c = cs[n - 1];
        if belongs_to(c.message, package) && !hashes(prev).contains(c.hash) {
            prev.push(c)
        } else {
            prev
        }
    }
}

fn contains_string(v: &Vec<String>, s: &String) -> (r: bool)
    ensures
        r == string_views(v@).contains(s@),
{
    let mut i: usize = 0;
    while i < v.len()
        invariant
            0 <= i <= v@.len(),
            forall|k: int| 0 <= k < i ==> (#[trigger] v@[k])@ != s@,
        decreases v@.len() - i,
    {
        if v[i] == *s {
            assert(string_views(v@)[i as int] == s@);
            return true;
        }
        i = i + 1;
    }
    assert forall|k: int| 0 <= k < v@.len() implies #[trigger] string_views(v@)[k] != s@ by {
        assert(v@[k]@ != s@);
    }
    false
}

/// The commits of `commit_list` that belong to `package`, in input order; a
/// hash that was already taken is not taken again.
pub fn classify_commits(commit_list: &Vec<Commit>, package: &str) -> (r: Vec<Commit>)
    ensures
        commit_views(r@) == classified(
            commit_views(commit_list@),
            package@,
            commit_list@.len() as int,
        ),
{
    let mut out: Vec<Commit> = Vec::new();
    let mut seen: Vec<String> = Vec::new();
    let mut i: usize = 0;
    while i < commit_list.len()
        invariant
            0 <= i <= commit_list@.len(),
            commit_views(out@) == classified(commit_views(commit_list@), package@, i as int),
            string_views(seen@) == hashes(commit_views(out@)),
        decreases commit_list@.len() - i,
    {
        let c = &commit_list[i];
        assert(commit_views(commit_list@)[i as int] == c@);
        let h = String::from_str(c.hash());
        if is_package_commit(c.message(), package) && !contains_string(&seen, &h) {
            let ghost old_out = out@;
            let ghost old_seen = seen@;
            out.push(c.clone());
            seen.push(h);
            assert(commit_views(out@) =~= commit_views(old_out).push(c@));
            assert(string_views(seen@) =~= string_views(old_seen).push(c@.hash));
            assert(hashes(commit_views(out@)) =~= hashes(commit_views(old_out)).push(c@.hash));
        }
        i = i + 1;
    }
    out
}

} // verus!

verus! {

/// No two classified commits share a hash, however often a hash occurs in
/// the input (as where release windows overlap).
pub proof fn classified_hashes_distinct(cs: Seq<CommitView>, package: Seq<char>, n: int)
    requires
        0 <= n <= cs.len(),
    ensures
        forall|i: int, j: int|
            0 <= i < j < classified(cs, package, n).len() ==> (#[trigger] classified(
                cs,
                package,
                n,
            )[i]).hash != (#[trigger] classified(cs, package, n)[j]).hash,
    decreases n,
{
    if n > 0 {
        classified_hashes_distinct(cs, package, n - 1);
        let prev = classified(cs, package, n - 1);
        let c = cs[n - 1];
        if belongs_to(c.message, package) && !hashes(prev).contains(c.hash) {
            let cur = classified(cs, package, n);
            assert(cur == prev.push(c));
            assert forall|i: int, j: int| 0 <= i < j < cur.len() implies (#[trigger] cur[i]).hash
                != (#[trigger] cur[j]).hash by {
                if j == prev.len() {
                    assert(hashes(prev)[i] == prev[i].hash);
                } else {
                    assert(cur[i] == prev[i] && cur[j] == prev[j]);
                }
            }
        }
    }
}

/// Every input commit that belongs to the package has its hash among the
/// classified commits.
pub proof fn classified_keeps_package_commits(
    cs: Seq<CommitView>,
    package: Seq<char>,
    n: int,
    k: int,
)
    requires
        0 <= k < n <= cs.len(),
        belongs_to(cs[k].message, package),
    ensures
        hashes(classified(cs, package, n)).contains(cs[k].hash),
    decreases n,
{
    let prev = classified(cs, package, n - 1);
    let c = cs[n - 1];
    if k < n - 1 {
        classified_keeps_package_commits(cs, package, n - 1, k);
    }
    if belongs_to(c.message, package) && !hashes(prev).contains(c.hash) {
        let cur = classified(cs, package, n);
        assert(hashes(cur) =~= hashes(prev).push(c.hash));
        if k < n - 1 {
            let w = choose|w: int| 0 <= w < hashes(prev).len() && hashes(prev)[w] == cs[k].hash;
            assert(hashes(cur)[w] == cs[k].hash);
        } else {
            assert(hashes(cur)[prev.len() as int] == c.hash);
        }
    }
}

} // verus!
