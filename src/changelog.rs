//! Attribution and markdown: the entry line of each commit with its links,
//! the author cache, and the sections of a package's changelog.
use vstd::prelude::*;

use crate::commits::{opt_view, Commit, CommitView};
use crate::range::Tag;
use crate::tags::string_views;
use crate::text::{
    concat, contains_text, find_char, first_line, first_line_of, index_of_from, lemma_index_of_from_bounds, trim,
    trimmed,
};

verus! {

pub open spec fn is_digit(c: char) -> bool {
    '0' <= c && c <= '9'
}

/// The first index at or after `k` that does not hold a digit, or the length.
pub open spec fn digit_end(s: Seq<char>, k: int) -> int
    decreases s.len() - k,
{
    if k >= s.len() || !is_digit(s[k]) {
        k
    } else {
        digit_end(s, k + 1)
    }
}

pub proof fn lemma_digit_end(s: Seq<char>, k: int)
    requires
        0 <= k <= s.len(),
    ensures
        k <= digit_end(s, k) <= s.len(),
    decreases s.len() - k,
{
    if k < s.len() && is_digit(s[k]) {
        lemma_digit_end(s, k + 1);
    }
}

/// A pull-request reference starts at `i`: `(#`, digits, `)`.
pub open spec fn pr_match_at(s: Seq<char>, i: int) -> bool {
    &&& 0 <= i
    &&& i + 1 < s.len()
    &&& s[i] == '('
    &&& s[i + 1] == '#'
    &&& digit_end(s, i + 2) < s.len()
    &&& s[digit_end(s, i + 2)] == ')'
}

/// The leftmost start at or after `from` of a pull-request reference.
pub open spec fn first_pr_match(s: Seq<char>, from: int) -> Option<int>
    decreases s.len() - from,
{
    if from < 0 || from >= s.len() {
        None
    } else if pr_match_at(s, from) {
        Some(from)
    } else {
        first_pr_match(s, from + 1)
    }
}

pub proof fn lemma_first_pr_match(s: Seq<char>, from: int)
    requires
        0 <= from,
    ensures
        first_pr_match(s, from) is Some ==> pr_match_at(s, first_pr_match(s, from)->0),
    decreases s.len() - from,
{
    if from < s.len() && !pr_match_at(s, from) {
        lemma_first_pr_match(s, from + 1);
    }
}

/// The leftmost pull-request reference of `s`, such as `(#42)`.
pub open spec fn pr_reference(s: Seq<char>) -> Option<Seq<char>> {
    match first_pr_match(s, 0) {
        Some(i) => Some(s.subrange(i, digit_end(s, i + 2) + 1)),
        None => None,
    }
}

/// `#42` of the reference `(#42)`.
pub open spec fn pr_label(r: Seq<char>) -> Seq<char> {
    r.subrange(1, r.len() - 1)
}

/// `42` of the reference `(#42)`.
pub open spec fn pr_number(r: Seq<char>) -> Seq<char> {
    r.subrange(2, r.len() - 1)
}

pub proof fn lemma_pr_reference_shape(s: Seq<char>)
    ensures
        pr_reference(s) is Some ==> pr_reference(s)->0.len() >= 3,
{
    lemma_first_pr_match(s, 0);
    if let Some(i) = first_pr_match(s, 0) {
        lemma_digit_end(s, i + 2);
    }
}

/// Relies on regex's Regex::find for the pattern `\(#[0-9]*\)`: the text of
/// the leftmost match.
#[verifier::external_body]
fn find_pr_reference(line: &str) -> (r: Option<String>)
    ensures
        opt_view(r) == pr_reference(line@),
{
    regex::Regex::new(r"\(#[0-9]*\)").unwrap().find(line).map(|m| m.as_str().to_string())
}

/// The text a commit's entry starts with: its first line, trimmed.
pub open spec fn entry_line(c: CommitView) -> Seq<char> {
    trimmed(first_line(c.message))
}

/// The first seven characters of a commit hash (all of it when shorter).
pub open spec fn short_hash(h: Seq<char>) -> Seq<char> {
    if h.len() < 7 {
        h
    } else {
        h.subrange(0, 7)
    }
}

/// The credit of a handle: a link to its profile.
pub open spec fn credit(handle: Option<Seq<char>>) -> Seq<char> {
    match handle {
        Some(h) => " [@"@ + h + "](https://github.com/"@ + h + ")"@,
        None => seq![],
    }
}

/// An entry with a pull-request reference `r`: the line, a link to the pull
/// request, and the credit of the handle.
pub open spec fn pr_entry(line: Seq<char>, r: Seq<char>, url: Seq<char>, handle: Option<Seq<char>>) -> Seq<char> {
    line + ". ["@ + pr_label(r) + "]("@ + url + "/pull/"@ + pr_number(r) + ")"@ + credit(handle)
}

/// An entry without a pull-request reference: the line and a link to the
/// commit.
pub open spec fn commit_entry(line: Seq<char>, hash: Seq<char>, url: Seq<char>) -> Seq<char> {
    line + ". ["@ + short_hash(hash) + "]("@ + url + "/commit/"@ + short_hash(hash) + ")"@
}

/// The handle cached for `author` among the first `n` entries (the first
/// entry for it wins).
pub open spec fn cached_in(entries: Seq<(Seq<char>, Seq<char>)>, author: Seq<char>, n: int) -> Option<Seq<char>>
    decreases n,
{
    if n <= 0 {
        None
    } else {
        let prev = cached_in(entries, author, n - 1);
        if prev is Some {
            prev
        } else if entries[n - 1].0 == author {
            Some(entries[n - 1].1)
        } else {
            None
        }
    }
}

pub open spec fn cached(entries: Seq<(Seq<char>, Seq<char>)>, author: Seq<char>) -> Option<Seq<char>> {
    cached_in(entries, author, entries.len() as int)
}

/// The displayed handle of a commit's author: the cached handle, else the
/// raw author string; none when the commit names no author.
pub open spec fn handle_for(entries: Seq<(Seq<char>, Seq<char>)>, c: CommitView) -> Option<Seq<char>> {
    match c.author {
        Some(a) => Some(
            match cached(entries, a) {
                Some(h) => h,
                None => a,
            },
        ),
        None => None,
    }
}

/// The entry of commit `c` under the author cache `entries`, linking to the
/// repository at `url`.
pub open spec fn md_message(entries: Seq<(Seq<char>, Seq<char>)>, url: Seq<char>, c: CommitView) -> Seq<char> {
    let line = entry_line(c);
    match pr_reference(line) {
        Some(r) => pr_entry(line, r, url, handle_for(entries, c)),
        None => commit_entry(line, c.hash, url),
    }
}

/// The author cache, the repository's web address and its `owner/name`.
pub struct ChangelogsView {
    pub authors: Seq<(Seq<char>, Seq<char>)>,
    pub html_url: Seq<char>,
    pub repo_name: Seq<char>,
}

/// The pull-request number to look up for commit `c`: asked when its entry
/// line holds a reference and its author has no cached handle yet.
pub open spec fn lookup_request(st: ChangelogsView, c: CommitView) -> Option<Seq<char>> {
    match pr_reference(entry_line(c)) {
        Some(r) => match c.author {
            Some(a) => if cached(st.authors, a) is None {
                Some(pr_number(r))
            } else {
                None
            },
            None => None,
        },
        None => None,
    }
}

/// The cache after commit `c`, given what the lookup for it returned: the
/// login found is cached under the raw author string; a failed lookup, or
/// none asked, leaves the cache as it is.
pub open spec fn authors_after(st: ChangelogsView, c: CommitView, fetched: Option<Seq<char>>) -> Seq<
    (Seq<char>, Seq<char>),
> {
    if lookup_request(st, c) is Some && fetched is Some {
        st.authors.push((c.author->0, fetched->0))
    } else {
        st.authors
    }
}

/// The changelog builder of one repository, with its process-wide cache of
/// GitHub handles keyed by raw commit-author strings.
pub struct Changelogs {
    author_github_map: Vec<(String, String)>,
    github_html_url: String,
    repo_name: String,
}

pub open spec fn pair_views(v: Seq<(String, String)>) -> Seq<(Seq<char>, Seq<char>)> {
    v.map_values(|p: (String, String)| (p.0@, p.1@))
}

impl View for Changelogs {
    type V = ChangelogsView;

    closed spec fn view(&self) -> ChangelogsView {
        ChangelogsView {
            authors: pair_views(self.author_github_map@),
            html_url: self.github_html_url@,
            repo_name: self.repo_name@,
        }
    }
}

impl Changelogs {
    /// A builder for the repository `repo_name` (`owner/name`) whose web
    /// address is `github_html_url`, with an empty author cache.
    pub fn new(repo_name: String, github_html_url: String) -> (r: Changelogs)
        ensures
            r@.authors == Seq::<(Seq<char>, Seq<char>)>::empty(),
            r@.html_url == github_html_url@,
            r@.repo_name == repo_name@,
    {
        let r = Changelogs { author_github_map: Vec::new(), github_html_url, repo_name };
        assert(r@.authors =~= Seq::<(Seq<char>, Seq<char>)>::empty());
        r
    }

    /// The repository's `owner/name`.
    pub fn repo_name(&self) -> (r: &str)
        ensures
            r@ == self@.repo_name,
    {
        self.repo_name.as_str()
    }

    /// The repository's web address.
    pub fn html_url(&self) -> (r: &str)
        ensures
            r@ == self@.html_url,
    {
        self.github_html_url.as_str()
    }

    /// The handle cached for `author`.
    pub fn cached_handle(&self, author: &String) -> (r: Option<String>)
        ensures
            opt_view(r) == cached(self@.authors, author@),
    {
        let ghost e = self@.authors;
        let mut i: usize = 0;
        while i < self.author_github_map.len()
            invariant
                e == pair_views(self.author_github_map@),
                0 <= i <= e.len(),
                cached_in(e, author@, i as int) is None,
            decreases e.len() - i,
        {
            if self.author_github_map[i].0 == *author {
                let h = self.author_github_map[i].1.clone();
                proof {
                    lemma_cached_found(e, author@, i as int);
                }
                return Some(h);
            }
            i = i + 1;
        }
        None
    }

    /// The number of the pull request whose submitter is to be looked up
    /// before the entry of `commit` is written, if any.
    pub fn pending_lookup(&self, commit: &Commit) -> (r: Option<String>)
        ensures
            opt_view(r) == lookup_request(self@, commit@),
    {
        let line = trim(first_line_of(commit.message()));
        match find_pr_reference(line) {
            Some(r) => match commit.author() {
                Some(a) => {
                    if self.cached_handle(a).is_none() {
                        proof {
                            lemma_pr_reference_shape(line@);
                        }
                        let n = r.unicode_len();
                        Some(String::from_str(r.as_str().substring_char(2, n - 1)))
                    } else {
                        None
                    }
                },
                None => None,
            },
            None => None,
        }
    }

    /// The entry of `commit`. `fetched` is what the lookup that
    /// `pending_lookup` asked for returned (the pull request's submitter, or
    /// none when it failed); a login found is cached first.
    pub fn get_md_message(&mut self, commit: &Commit, fetched: Option<String>) -> (r: String)
        ensures
            final(self)@.authors == authors_after(old(self)@, commit@, opt_view(fetched)),
            final(self)@.html_url == old(self)@.html_url,
            final(self)@.repo_name == old(self)@.repo_name,
            r@ == md_message(final(self)@.authors, final(self)@.html_url, commit@),
    {
        let line = trim(first_line_of(commit.message()));
        match find_pr_reference(line) {
            Some(reference) => {
                proof {
                    lemma_pr_reference_shape(line@);
                }
                let handle: Option<String> = match commit.author() {
                    Some(a) => {
                        if self.cached_handle(a).is_none() {
                            match fetched {
                                Some(login) => {
                                    let ghost before = self@.authors;
                                    self.author_github_map.push((a.clone(), login));
                                    proof {
                                        assert(self@.authors =~= before.push(
                                            (a@, opt_view(fetched)->0),
                                        ));
                                    }
                                },
                                None => {},
                            }
                        }
                        match self.cached_handle(a) {
                            Some(h) => Some(h),
                            None => Some(a.clone()),
                        }
                    },
                    None => None,
                };
                let n = reference.unicode_len();
                let mut s = String::from_str(line);
                s.append(". [");
                s.append(reference.as_str().substring_char(1, n - 1));
                s.append("](");
                s.append(self.github_html_url.as_str());
                s.append("/pull/");
                s.append(reference.as_str().substring_char(2, n - 1));
                s.append(")");
                match &handle {
                    Some(h) => {
                        s.append(" [@");
                        s.append(h.as_str());
                        s.append("](https://github.com/");
                        s.append(h.as_str());
                        s.append(")");
                    },
                    None => {},
                }
                s
            },
            None => {
                let h = commit.hash();
                let hn = h.unicode_len();
                let short = if hn < 7 {
                    h
                } else {
                    h.substring_char(0, 7)
                };
                let mut s = String::from_str(line);
                s.append(". [");
                s.append(short);
                s.append("](");
                s.append(self.github_html_url.as_str());
                s.append("/commit/");
                s.append(short);
                s.append(")");
                s
            },
        }
    }
}

proof fn lemma_cached_found(e: Seq<(Seq<char>, Seq<char>)>, author: Seq<char>, i: int)
    requires
        0 <= i < e.len(),
        cached_in(e, author, i) is None,
        e[i].0 == author,
    ensures
        cached(e, author) == Some(e[i].1),
    decreases e.len() - i,
{
    lemma_cached_stays(e, author, i + 1, e.len() as int);
}

proof fn lemma_cached_stays(e: Seq<(Seq<char>, Seq<char>)>, author: Seq<char>, m: int, n: int)
    requires
        0 < m <= n <= e.len(),
        cached_in(e, author, m) is Some,
    ensures
        cached_in(e, author, n) == cached_in(e, author, m),
    decreases n - m,
{
    if n > m {
        lemma_cached_stays(e, author, m, n - 1);
    }
}

} // verus!

verus! {

proof fn lemma_cached_in_push(
    e: Seq<(Seq<char>, Seq<char>)>,
    x: (Seq<char>, Seq<char>),
    author: Seq<char>,
    n: int,
)
    requires
        0 <= n <= e.len(),
    ensures
        cached_in(e.push(x), author, n) == cached_in(e, author, n),
    decreases n,
{
    if n > 0 {
        lemma_cached_in_push(e, x, author, n - 1);
        assert(e.push(x)[n - 1] == e[n - 1]);
    }
}

/// The entry of a commit whose line holds a pull-request reference, written
/// for an author with no cached handle, links to `/pull/` and the request's
/// number, and credits `@` and the login that the lookup found, or, when the
/// lookup failed, `@` and the raw author string.
pub proof fn pull_request_entry_attribution(
    st: ChangelogsView,
    c: CommitView,
    fetched: Option<Seq<char>>,
)
    requires
        pr_reference(entry_line(c)) is Some,
        c.author is Some,
        cached(st.authors, c.author->0) is None,
    ensures
        contains_text(
            md_message(authors_after(st, c, fetched), st.html_url, c),
            "/pull/"@ + pr_number(pr_reference(entry_line(c))->0),
        ),
        contains_text(
            md_message(authors_after(st, c, fetched), st.html_url, c),
            "[@"@ + match fetched {
                Some(login) => login,
                None => c.author->0,
            },
        ),
{
    reveal_strlit(" [@");
    reveal_strlit("[@");
    let line = entry_line(c);
    let r = pr_reference(line)->0;
    let a = c.author->0;
    let e = authors_after(st, c, fetched);
    let h = match fetched {
        Some(login) => login,
        None => a,
    };
    match fetched {
        Some(login) => {
            lemma_cached_in_push(st.authors, (a, login), a, st.authors.len() as int);
            assert(e == st.authors.push((a, login)));
            assert(cached(e, a) == Some(login));
        },
        None => {},
    }
    assert(handle_for(e, c) == Some(h));
    let out = md_message(e, st.html_url, c);
    let p = line + ". ["@ + pr_label(r) + "]("@ + st.html_url;
    let t1 = "/pull/"@ + pr_number(r);
    let q = p + "/pull/"@ + pr_number(r) + ")"@;
    let t2 = "[@"@ + h;
    assert(out == q + credit(Some(h)));
    assert(out.subrange(p.len() as int, (p.len() + t1.len()) as int) =~= t1);
    assert(out.subrange((q.len() + 1) as int, (q.len() + 1 + t2.len()) as int) =~= t2);
}

/// The bullet list of the first `n` entries.
pub open spec fn bullets(entries: Seq<Seq<char>>, n: int) -> Seq<char>
    decreases n,
{
    if n <= 0 {
        seq![]
    } else {
        bullets(entries, n - 1) + "* "@ + entries[n - 1] + "\n"@
    }
}

/// The single bullet that stands for a release with no entries of its own.
pub open spec fn placeholder() -> Seq<char> {
    "* Dependency updates only.\n"@
}

/// The body of a release section: one bullet per entry, or the placeholder.
pub open spec fn entry_list(entries: Seq<Seq<char>>) -> Seq<char> {
    if entries.len() == 0 {
        placeholder()
    } else {
        bullets(entries, entries.len() as int)
    }
}

/// A release section: the tag as a heading, its day, then the entries.
pub open spec fn section(name: Seq<char>, day: Seq<char>, entries: Seq<Seq<char>>) -> Seq<char> {
    "## "@ + name + "\n\n`"@ + day + "`\n\n"@ + entry_list(entries)
}

/// The first `n` sections, separated by blank lines.
pub open spec fn joined(sections: Seq<Seq<char>>, n: int) -> Seq<char>
    decreases n,
{
    if n <= 0 {
        seq![]
    } else if n == 1 {
        sections[0]
    } else {
        joined(sections, n - 1) + "\n"@ + sections[n - 1]
    }
}

impl Changelogs {
    /// The markdown list of a release's entries, one `* ` bullet per line; a
    /// release without entries gets the placeholder bullet.
    pub fn gen_change_log_to_md(&self, change_logs: Vec<String>) -> (r: String)
        ensures
            r@ == entry_list(string_views(change_logs@)),
    {
        if change_logs.len() == 0 {
            return String::from_str("* Dependency updates only.\n");
        }
        let ghost e = string_views(change_logs@);
        let mut s = String::new();
        let mut i: usize = 0;
        while i < change_logs.len()
            invariant
                e == string_views(change_logs@),
                0 <= i <= e.len(),
                s@ == bullets(e, i as int),
            decreases e.len() - i,
        {
            s.append("* ");
            s.append(change_logs[i].as_str());
            s.append("\n");
            i = i + 1;
        }
        s
    }

    /// The section of release `tag` with its entries.
    pub fn render_section(&self, tag: &Tag, change_logs: Vec<String>) -> (r: String)
        ensures
            r@ == section(tag.name@, tag.date_time@, string_views(change_logs@)),
    {
        let mut s = String::from_str("## ");
        s.append(tag.name.as_str());
        s.append("\n\n`");
        s.append(tag.date_time.as_str());
        s.append("`\n\n");
        let body = self.gen_change_log_to_md(change_logs);
        s.append(body.as_str());
        s
    }
}

/// The sections of a package's releases, newest first, separated by blank
/// lines.
pub fn join_sections(sections: &Vec<String>) -> (r: String)
    ensures
        r@ == joined(string_views(sections@), sections@.len() as int),
{
    let ghost e = string_views(sections@);
    let mut s = String::new();
    let mut i: usize = 0;
    while i < sections.len()
        invariant
            e == string_views(sections@),
            0 <= i <= e.len(),
            s@ == joined(e, i as int),
        decreases e.len() - i,
    {
        if i > 0 {
            s.append("\n");
        }
        s.append(sections[i].as_str());
        i = i + 1;
    }
    s
}

/// The changelog document of one package.
#[allow(non_camel_case_types)]
pub struct MARKDOWN {
    pub package: String,
    pub content: String,
}

} // verus!

verus! {

/// The `owner/name` of a remote address such as
/// `git@github.com:owner/name.git`: the text after the first `:` (up to the
/// next one), cut at its first `.`; none without a `:`.
pub open spec fn remote_repo_name(url: Seq<char>) -> Option<Seq<char>> {
    let a = index_of_from(url, ':', 0);
    if a >= url.len() {
        None
    } else {
        let seg = url.subrange(a + 1, index_of_from(url, ':', a + 1));
        Some(seg.subrange(0, index_of_from(seg, '.', 0)))
    }
}

/// The `owner/name` of the repository behind a remote address.
pub fn repo_name_from_remote(url: &str) -> (r: Option<String>)
    ensures
        opt_view(r) == remote_repo_name(url@),
{
    let n = url.unicode_len();
    let a = find_char(url, ':', 0);
    proof {
        lemma_index_of_from_bounds(url@, ':', 0);
    }
    if a >= n {
        return None;
    }
    let b = find_char(url, ':', a + 1);
    proof {
        lemma_index_of_from_bounds(url@, ':', a + 1);
    }
    let seg = url.substring_char(a + 1, b);
    let d = find_char(seg, '.', 0);
    proof {
        lemma_index_of_from_bounds(seg@, '.', 0);
    }
    Some(String::from_str(seg.substring_char(0, d)))
}

/// The tag scope of one of the repository's packages.
pub open spec fn scope_of(package: Seq<char>) -> Seq<char> {
    "@ant-design/pro-"@ + package
}

/// The prefix of the tags of `package`.
pub fn package_scope(package: &str) -> (r: String)
    ensures
        r@ == scope_of(package@),
{
    concat("@ant-design/pro-", package)
}

/// The packages whose changelogs are written, in order.
pub open spec fn packages() -> Seq<Seq<char>> {
    seq![
        "components"@,
        "utils"@,
        "layout"@,
        "form"@,
        "list"@,
        "table"@,
        "field"@,
        "card"@,
        "descriptions"@,
    ]
}

/// The packages whose changelogs are written.
pub fn package_list() -> (r: Vec<String>)
    ensures
        string_views(r@) == packages(),
{
    let r = vec![
        String::from_str("components"),
        String::from_str("utils"),
        String::from_str("layout"),
        String::from_str("form"),
        String::from_str("list"),
        String::from_str("table"),
        String::from_str("field"),
        String::from_str("card"),
        String::from_str("descriptions"),
    ];
    assert(string_views(r@) =~= packages());
    r
}

} // verus!

verus! {

/// Once the lookup asked for a commit has found a login, no lookup is asked
/// again for a commit by the same author: the cached handle is reused.
pub proof fn found_login_is_reused(
    st: ChangelogsView,
    c: CommitView,
    login: Seq<char>,
    later: CommitView,
)
    requires
        lookup_request(st, c) is Some,
        later.author == c.author,
    ensures
        lookup_request(
            ChangelogsView { authors: authors_after(st, c, Some(login)), ..st },
            later,
        ) is None,
        cached(authors_after(st, c, Some(login)), c.author->0) == Some(login),
{
    let a = c.author->0;
    lemma_cached_in_push(st.authors, (a, login), a, st.authors.len() as int);
    assert(authors_after(st, c, Some(login)) == st.authors.push((a, login)));
}

} // verus!
