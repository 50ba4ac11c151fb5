//! Tag names of the form `<scope>@<version>`: splitting them, and ordering a
//! package's tags by semantic version.
use std::cmp::Ordering;
use vstd::prelude::*;
use vstd::seq_lib::*;

use crate::text::{is_prefix, starts_with};

verus! {

/// The scope and version text of a tag name.
pub struct TagAndVersion {
    pub package: String,
    pub version: String,
}

/// The last index before `to` that holds `c`, or -1.
pub open spec fn last_index_before(s: Seq<char>, c: char, to: int) -> int
    decreases to,
{
    if to <= 0 {
        -1
    } else if s[to - 1] == c {
        to - 1
    } else {
        last_index_before(s, c, to - 1)
    }
}

pub proof fn lemma_last_index_before_bounds(s: Seq<char>, c: char, to: int)
    requires
        0 <= to <= s.len(),
    ensures
        -1 <= last_index_before(s, c, to) < to,
        last_index_before(s, c, to) >= 0 ==> s[last_index_before(s, c, to)] == c,
    decreases to,
{
    if to > 0 && s[to - 1] != c {
        lemma_last_index_before_bounds(s, c, to - 1);
    }
}

/// A tag name holds a scope mark when it contains an `@`.
pub open spec fn has_scope_mark(t: Seq<char>) -> bool {
    last_index_before(t, '@', t.len() as int) >= 0
}

/// The scope of a tag name `<scope>@<version>`: the text before the last `@`.
pub open spec fn scope_text(t: Seq<char>) -> Seq<char> {
    t.subrange(0, last_index_before(t, '@', t.len() as int))
}

/// The text after the last `@`.
pub open spec fn version_text(t: Seq<char>) -> Seq<char> {
    t.subrange(last_index_before(t, '@', t.len() as int) + 1, t.len() as int)
}

/// Whether `s` is a semantic version, as semver's parser decides.
pub uninterp spec fn semver_parses(s: Seq<char>) -> bool;

/// How the semantic versions written `a` and `b` compare.
pub uninterp spec fn semver_order(a: Seq<char>, b: Seq<char>) -> Ordering;

pub open spec fn flip(o: Ordering) -> Ordering {
    match o {
        Ordering::Less => Ordering::Greater,
        Ordering::Equal => Ordering::Equal,
        Ordering::Greater => Ordering::Less,
    }
}

/// A tag takes part in ordering when its version text is a semantic version.
pub open spec fn is_versioned(t: Seq<char>) -> bool {
    has_scope_mark(t) && semver_parses(version_text(t))
}

pub open spec fn string_views(v: Seq<String>) -> Seq<Seq<char>> {
    v.map_values(|s: String| s@)
}

/// The versioned tags among the first `n`, in their order.
pub open spec fn versioned_tags(tags: Seq<Seq<char>>, n: int) -> Seq<Seq<char>>
    decreases n,
{
    if n <= 0 {
        seq![]
    } else if is_versioned(tags[n - 1]) {
        versioned_tags(tags, n - 1).push(tags[n - 1])
    } else {
        versioned_tags(tags, n - 1)
    }
}

/// Each tag's version is at most the version of every later tag.
pub open spec fn sorted_by_version(tags: Seq<Seq<char>>) -> bool {
    forall|i: int, j: int|
        0 <= i < j < tags.len() ==> #[trigger] semver_order(
            version_text(tags[i]),
            version_text(tags[j]),
        ) != Ordering::Greater
}

/// A parsed semantic version together with the text it was parsed from.
/// Only `parse_semver` builds one, so `parsed` is always the parse of `text`.
pub struct SemVersion {
    text: String,
    parsed: semver::Version,
}

impl View for SemVersion {
    type V = Seq<char>;

    closed spec fn view(&self) -> Seq<char> {
        self.text@
    }
}

#[verifier::external_type_specification]
#[verifier::external_body]
pub struct ExVersion(semver::Version);

/// Relies on semver::Version::parse: it accepts exactly the semantic versions.
#[verifier::external_body]
fn parse_semver(s: &str) -> (r: Option<SemVersion>)
    ensures
        r is Some <==> semver_parses(s@),
        r is Some ==> r->0@ == s@,
{
    semver::Version::parse(s).ok().map(|v| SemVersion { text: s.to_string(), parsed: v })
}

/// Relies on the `Ord` of semver::Version, a total order: the order of the two
/// versions, its reverse when they are swapped, and transitivity (a version at
/// most `a` is at most `b` when `a` is at most `b`).
#[verifier::external_body]
fn compare_semver(a: &SemVersion, b: &SemVersion) -> (r: Ordering)
    ensures
        r == semver_order(a@, b@),
        semver_order(b@, a@) == flip(r),
        r != Ordering::Greater ==> forall|c: Seq<char>|
            semver_parses(c) && #[trigger] semver_order(c, a@) != Ordering::Greater
                ==> semver_order(c, b@) != Ordering::Greater,
{
    a.parsed.cmp(&b.parsed)
}

/// Splits a tag name `<scope>@<version>` at its last `@`: the scope is the
/// text before it, the version the text after it. A name without `@` has
/// neither.
pub fn get_version(tag: &str) -> (r: Option<TagAndVersion>)
    ensures
        r is Some <==> has_scope_mark(tag@),
        r is Some ==> r->0.package@ == scope_text(tag@),
        r is Some ==> r->0.version@ == version_text(tag@),
{
    let n = tag.unicode_len();
    let mut found = false;
    let mut last: usize = 0;
    let mut i: usize = 0;
    while i < n
        invariant
            n == tag@.len(),
            0 <= i <= n,
            found <==> last_index_before(tag@, '@', i as int) >= 0,
            found ==> last as int == last_index_before(tag@, '@', i as int),
        decreases n - i,
    {
        if tag.get_char(i) == '@' {
            found = true;
            last = i;
        }
        i = i + 1;
    }
    proof {
        lemma_last_index_before_bounds(tag@, '@', n as int);
    }
    if !found {
        return None;
    }
    let package = String::from_str(tag.substring_char(0, last));
    let version = String::from_str(tag.substring_char(last + 1, n));
    Some(TagAndVersion { package, version })
}

} // verus!

verus! {

pub open spec fn pair_tags(v: Seq<(String, SemVersion)>) -> Seq<Seq<char>> {
    v.map_values(|p: (String, SemVersion)| p.0@)
}

pub open spec fn pair_versions(v: Seq<(String, SemVersion)>) -> Seq<Seq<char>> {
    v.map_values(|p: (String, SemVersion)| p.1@)
}

/// Each version is at most every later one.
pub open spec fn versions_ascend(v: Seq<Seq<char>>) -> bool {
    forall|i: int, j: int|
        0 <= i < j < v.len() ==> #[trigger] semver_order(v[i], v[j]) != Ordering::Greater
}

proof fn lemma_insert_keeps_order(v: Seq<Seq<char>>, k: int, x: Seq<char>)
    requires
        0 <= k <= v.len(),
        versions_ascend(v),
        forall|i: int| 0 <= i < k ==> #[trigger] semver_order(v[i], x) != Ordering::Greater,
        forall|j: int| k <= j < v.len() ==> #[trigger] semver_order(x, v[j]) != Ordering::Greater,
    ensures
        versions_ascend(v.insert(k, x)),
{
    let w = v.insert(k, x);
    assert forall|i: int, j: int| 0 <= i < j < w.len() implies #[trigger] semver_order(
        w[i],
        w[j],
    ) != Ordering::Greater by {
        let a = if i < k { i } else { i - 1 };
        let b = if j < k { j } else { j - 1 };
        if i == k {
            assert(w[i] == x && w[j] == v[b]);
        } else if j == k {
            assert(w[i] == v[a] && w[j] == x);
        } else {
            assert(w[i] == v[a] && w[j] == v[b]);
            assert(semver_order(v[a], v[b]) != Ordering::Greater);
        }
    }
}

/// The versioned tags of `tags`, ordered by version.
pub fn sort_tags(tags: &Vec<String>) -> (r: Vec<String>)
    ensures
        string_views(r@).to_multiset() == versioned_tags(
            string_views(tags@),
            tags@.len() as int,
        ).to_multiset(),
        sorted_by_version(string_views(r@)),
        forall|i: int| 0 <= i < r@.len() ==> is_versioned(#[trigger] r@[i]@),
{
    broadcast use to_multiset_insert, to_multiset_build;

    let mut out: Vec<(String, SemVersion)> = Vec::new();
    let mut i: usize = 0;
    assert(pair_tags(out@) =~= versioned_tags(string_views(tags@), 0));
    while i < tags.len()
        invariant
            0 <= i <= tags@.len(),
            forall|j: int|
                0 <= j < out@.len() ==> (#[trigger] out@[j]).1@ == version_text(out@[j].0@)
                    && is_versioned(out@[j].0@) && semver_parses(out@[j].1@),
            pair_tags(out@).to_multiset() == versioned_tags(
                string_views(tags@),
                i as int,
            ).to_multiset(),
            versions_ascend(pair_versions(out@)),
        decreases tags@.len() - i,
    {
        let t = &tags[i];
        let ghost before = out@;
        assert(string_views(tags@)[i as int] == t@);
        match get_version(t.as_str()) {
            Some(tv) => match parse_semver(tv.version.as_str()) {
                Some(sv) => {
                    let mut k: usize = out.len();
                    let mut done = false;
                    while k > 0 && !done
                        invariant
                            out@ == before,
                            0 <= k <= out@.len(),
                            forall|j: int|
                                0 <= j < out@.len() ==> semver_parses((#[trigger] out@[j]).1@),
                            versions_ascend(pair_versions(out@)),
                            done ==> forall|j: int|
                                0 <= j < k ==> #[trigger] semver_order(out@[j].1@, sv@)
                                    != Ordering::Greater,
                            forall|j: int|
                                k <= j < out@.len() ==> #[trigger] semver_order(
                                    sv@,
                                    out@[j].1@,
                                ) == Ordering::Less,
                        decreases (if done { 0int } else { 1int }) + k,
                    {
                        match compare_semver(&out[k - 1].1, &sv) {
                            Ordering::Greater => {
                                k = k - 1;
                            },
                            _ => {
                                proof {
                                    let vs = pair_versions(out@);
                                    assert forall|j: int| 0 <= j < k implies #[trigger] semver_order(
                                        out@[j].1@,
                                        sv@,
                                    ) != Ordering::Greater by {
                                        if j < k - 1 {
                                            assert(vs[j] == out@[j].1@);
                                            assert(vs[k - 1] == out@[k - 1].1@);
                                            assert(semver_order(vs[j], vs[k - 1])
                                                != Ordering::Greater);
                                        }
                                    }
                                }
                                done = true;
                            },
                        }
                    }
                    let ghost x = (t@, sv@);
                    let ghost vs = pair_versions(out@);
                    proof {
                        assert forall|j: int| 0 <= j < k implies #[trigger] semver_order(
                            vs[j],
                            sv@,
                        ) != Ordering::Greater by {
                            assert(vs[j] == out@[j].1@);
                        }
                        assert forall|j: int| k <= j < vs.len() implies #[trigger] semver_order(
                            sv@,
                            vs[j],
                        ) != Ordering::Greater by {
                            assert(vs[j] == out@[j].1@);
                        }
                        lemma_insert_keeps_order(vs, k as int, sv@);
                    }
                    out.insert(k, (t.clone(), sv));
                    proof {
                        assert(pair_versions(out@) =~= vs.insert(k as int, sv@));
                        assert(pair_tags(out@) =~= pair_tags(before).insert(k as int, t@));
                        assert(versioned_tags(string_views(tags@), i + 1) == versioned_tags(
                            string_views(tags@),
                            i as int,
                        ).push(t@));
                        to_multiset_insert(pair_tags(before), k as int, t@);
                        to_multiset_build(versioned_tags(string_views(tags@), i as int), t@);
                        assert(versioned_tags(string_views(tags@), i as int).push(
                            t@,
                        ).to_multiset() == versioned_tags(
                            string_views(tags@),
                            i as int,
                        ).to_multiset().insert(t@));
                        assert forall|j: int| 0 <= j < out@.len() implies (
                        #[trigger] out@[j]).1@ == version_text(out@[j].0@) && is_versioned(
                            out@[j].0@,
                        ) && semver_parses(out@[j].1@) by {
                            if j < k {
                                assert(out@[j] == before[j]);
                            } else if j > k {
                                assert(out@[j] == before[j - 1]);
                            }
                        }
                    }
                },
                None => {
                    assert(versioned_tags(string_views(tags@), i + 1) == versioned_tags(
                        string_views(tags@),
                        i as int,
                    ));
                },
            },
            None => {
                assert(versioned_tags(string_views(tags@), i + 1) == versioned_tags(
                    string_views(tags@),
                    i as int,
                ));
            },
        }
        i = i + 1;
    }
    let mut r: Vec<String> = Vec::new();
    let mut j: usize = 0;
    while j < out.len()
        invariant
            0 <= j <= out@.len(),
            string_views(r@) =~= pair_tags(out@).subrange(0, j as int),
        decreases out@.len() - j,
    {
        let c = out[j].0.clone();
        assert(c@ == pair_tags(out@)[j as int]);
        let ghost old_r = r@;
        assert(string_views(old_r).len() == j);
        r.push(c);
        proof {
            assert(r@ == old_r.push(c));
            assert forall|q: int| 0 <= q < r@.len() implies #[trigger] string_views(r@)[q]
                == pair_tags(out@).subrange(0, j + 1)[q] by {
                if q < j {
                    assert(r@[q] == old_r[q]);
                    assert(string_views(old_r)[q] == pair_tags(out@).subrange(0, j as int)[q]);
                }
            }
        }
        j = j + 1;
    }
    proof {
        assert(string_views(r@) =~= pair_tags(out@));
        assert(r@.len() == out@.len());
        assert forall|a: int, b: int| 0 <= a < b < r@.len() implies #[trigger] semver_order(
            version_text(string_views(r@)[a]),
            version_text(string_views(r@)[b]),
        ) != Ordering::Greater by {
            assert(pair_versions(out@)[a] == out@[a].1@);
            assert(pair_versions(out@)[b] == out@[b].1@);
            assert(semver_order(pair_versions(out@)[a], pair_versions(out@)[b])
                != Ordering::Greater);
        }
        assert forall|a: int| 0 <= a < r@.len() implies is_versioned(#[trigger] r@[a]@) by {
            assert(string_views(r@)[a] == out@[a].0@);
        }
    }
    r
}

} // verus!

verus! {

/// The tags among the first `n` whose names begin with `p`, in their order.
pub open spec fn prefixed_tags(tags: Seq<Seq<char>>, p: Seq<char>, n: int) -> Seq<Seq<char>>
    decreases n,
{
    if n <= 0 {
        seq![]
    } else if is_prefix(p, tags[n - 1]) {
        prefixed_tags(tags, p, n - 1).push(tags[n - 1])
    } else {
        prefixed_tags(tags, p, n - 1)
    }
}

/// The tags of one package: those whose names begin with `p` and carry a
/// semantic version, in their order.
pub open spec fn package_tags(tags: Seq<Seq<char>>, p: Seq<char>) -> Seq<Seq<char>> {
    let q = prefixed_tags(tags, p, tags.len() as int);
    versioned_tags(q, q.len() as int)
}

/// The tags of the package `package_name` (those whose names begin with it),
/// ordered by semantic version; tags without one are left out.
pub fn get_tag_list(tag_names: &Vec<String>, package_name: &str) -> (r: Vec<String>)
    ensures
        string_views(r@).to_multiset() == package_tags(
            string_views(tag_names@),
            package_name@,
        ).to_multiset(),
        sorted_by_version(string_views(r@)),
        forall|i: int| 0 <= i < r@.len() ==> is_versioned(#[trigger] r@[i]@),
{
    let mut matching: Vec<String> = Vec::new();
    let mut i: usize = 0;
    while i < tag_names.len()
        invariant
            0 <= i <= tag_names@.len(),
            string_views(matching@) =~= prefixed_tags(
                string_views(tag_names@),
                package_name@,
                i as int,
            ),
        decreases tag_names@.len() - i,
    {
        let t = &tag_names[i];
        assert(string_views(tag_names@)[i as int] == t@);
        if starts_with(t.as_str(), package_name) {
            let c = t.clone();
            let ghost old_m = matching@;
            matching.push(c);
            assert(string_views(matching@) =~= string_views(old_m).push(t@));
        }
        i = i + 1;
    }
    sort_tags(&matching)
}

} // verus!

verus! {

proof fn lemma_sorted_drop_first(s: Seq<Seq<char>>)
    requires
        s.len() > 0,
        sorted_by_version(s),
    ensures
        sorted_by_version(s.drop_first()),
{
    let t = s.drop_first();
    assert forall|i: int, j: int| 0 <= i < j < t.len() implies #[trigger] semver_order(
        version_text(t[i]),
        version_text(t[j]),
    ) != Ordering::Greater by {
        assert(t[i] == s[i + 1] && t[j] == s[j + 1]);
        assert(semver_order(version_text(s[i + 1]), version_text(s[j + 1])) != Ordering::Greater);
    }
}

/// Two orderings of the same tags that are both sorted by version are the
/// same when no two different tags have equal versions: the order of the
/// tags depends on the set of tags alone, not on the order they came in.
pub proof fn sorted_tags_are_unique(s1: Seq<Seq<char>>, s2: Seq<Seq<char>>)
    requires
        s1.to_multiset() == s2.to_multiset(),
        sorted_by_version(s1),
        sorted_by_version(s2),
        forall|x: Seq<char>, y: Seq<char>|
            s1.contains(x) && s1.contains(y) && x != y ==> #[trigger] semver_order(
                version_text(x),
                version_text(y),
            ) != Ordering::Equal && semver_order(version_text(x), version_text(y)) == flip(
                semver_order(version_text(y), version_text(x)),
            ),
    ensures
        s1 == s2,
    decreases s1.len(),
{
    broadcast use to_multiset_contains, to_multiset_len;

    to_multiset_len(s1);
    to_multiset_len(s2);
    if s1.len() == 0 {
        assert(s2.len() == 0);
        assert(s1 =~= s2);
    } else {
        assert(s2.len() == s1.len());
        let x = s1[0];
        let y = s2[0];
        if x != y {
            assert(s1.contains(x));
            assert(s2.contains(y));
            assert(s1.to_multiset().count(y) > 0);
            assert(s1.contains(y));
            assert(s1.to_multiset().count(x) > 0);
            assert(s2.to_multiset().count(x) > 0);
            assert(s2.contains(x));
            let j = choose|j: int| 0 <= j < s1.len() && s1[j] == y;
            let i = choose|i: int| 0 <= i < s2.len() && s2[i] == x;
            assert(semver_order(version_text(s1[0]), version_text(s1[j])) != Ordering::Greater);
            assert(semver_order(version_text(s2[0]), version_text(s2[i])) != Ordering::Greater);
            assert(semver_order(version_text(x), version_text(y)) != Ordering::Equal);
            assert(false);
        }
        to_multiset_remove(s1, 0);
        to_multiset_remove(s2, 0);
        assert(s1.remove(0) =~= s1.drop_first());
        assert(s2.remove(0) =~= s2.drop_first());
        lemma_sorted_drop_first(s1);
        lemma_sorted_drop_first(s2);
        assert forall|x: Seq<char>, y: Seq<char>|
            s1.drop_first().contains(x) && s1.drop_first().contains(y) && x != y implies #[trigger] semver_order(
            version_text(x),
            version_text(y),
        ) != Ordering::Equal && semver_order(version_text(x), version_text(y)) == flip(
            semver_order(version_text(y), version_text(x)),
        ) by {
            let a = choose|a: int| 0 <= a < s1.drop_first().len() && s1.drop_first()[a] == x;
            let b = choose|b: int| 0 <= b < s1.drop_first().len() && s1.drop_first()[b] == y;
            assert(s1[a + 1] == x && s1[b + 1] == y);
            assert(s1.contains(x) && s1.contains(y));
        }
        sorted_tags_are_unique(s1.drop_first(), s2.drop_first());
        assert forall|k: int| 0 <= k < s1.len() implies s1[k] == s2[k] by {
            if k > 0 {
                assert(s1[k] == s1.drop_first()[k - 1]);
                assert(s2[k] == s2.drop_first()[k - 1]);
            }
        }
        assert(s1 =~= s2);
    }
}

} // verus!
