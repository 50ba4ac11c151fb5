//! The registry side: a package's name and version, and which release of a
//! package came before its newest one.
use vstd::prelude::*;

use crate::commits::opt_view;
use crate::tags::{sort_tags, sorted_by_version, string_views, versioned_tags};
use crate::text::{contains_str, contains_text};

verus! {

/// A package's name and version, as its `package.json` gives them.
pub struct NpmPackageInfo {
    pub name: String,
    pub version: String,
}

/// The tags among the first `n` of `s` that contain `name`, from the last to
/// the first.
pub open spec fn containing_from_end(s: Seq<Seq<char>>, name: Seq<char>, n: int) -> Seq<Seq<char>>
    decreases n,
{
    if n <= 0 {
        seq![]
    } else if contains_text(s[n - 1], name) {
        seq![s[n - 1]] + containing_from_end(s, name, n - 1)
    } else {
        containing_from_end(s, name, n - 1)
    }
}

/// The release before the newest among the tags of `s` (ascending) that
/// contain `name`; none when there are fewer than two.
pub open spec fn previous_release(s: Seq<Seq<char>>, name: Seq<char>) -> Option<Seq<char>> {
    let m = containing_from_end(s, name, s.len() as int);
    if m.len() >= 2 {
        Some(m[1])
    } else {
        None
    }
}

fn second_latest_containing(sorted: &Vec<String>, name: &str) -> (r: Option<String>)
    ensures
        opt_view(r) == previous_release(string_views(sorted@), name@),
{
    let ghost s = string_views(sorted@);
    let mut j: usize = sorted.len();
    let mut found: usize = 0;
    let ghost mut seen: Seq<Seq<char>> = seq![];
    while j > 0
        invariant
            s == string_views(sorted@),
            0 <= j <= s.len(),
            found < 2,
            seen.len() == found,
            containing_from_end(s, name@, s.len() as int) == seen + containing_from_end(
                s,
                name@,
                j as int,
            ),
        decreases j,
    {
        let t = &sorted[j - 1];
        assert(s[j - 1] == t@);
        if contains_str(t.as_str(), name) {
            let ghost rest = containing_from_end(s, name@, j - 1);
            assert(containing_from_end(s, name@, j as int) == seq![t@] + rest);
            if found == 1 {
                assert((seen + (seq![t@] + rest))[1] == t@);
                return Some(t.clone());
            }
            proof {
                assert(seen + (seq![t@] + rest) =~= (seen + seq![t@]) + rest);
                seen = seen + seq![t@];
            }
            found = 1;
        }
        j = j - 1;
    }
    assert(containing_from_end(s, name@, s.len() as int) =~= seen);
    None
}

/// For each package of `package_list`, the tag of its release before the
/// newest: the tags carrying a semantic version are put in version order,
/// and of those that contain the package's name the second newest is taken.
pub fn get_pre_package_version(tag_names: &Vec<String>, package_list: &Vec<NpmPackageInfo>) -> (r:
    Vec<Option<String>>)
    ensures
        r@.len() == package_list@.len(),
        exists|s: Seq<Seq<char>>|
            #[trigger] s.to_multiset() == versioned_tags(
                string_views(tag_names@),
                tag_names@.len() as int,
            ).to_multiset() && sorted_by_version(s) && forall|i: int|
                0 <= i < r@.len() ==> opt_view(#[trigger] r@[i]) == previous_release(
                    s,
                    package_list@[i].name@,
                ),
{
    let sorted = sort_tags(tag_names);
    let ghost s = string_views(sorted@);
    let mut r: Vec<Option<String>> = Vec::new();
    let mut i: usize = 0;
    while i < package_list.len()
        invariant
            s == string_views(sorted@),
            0 <= i <= package_list@.len(),
            r@.len() == i,
            forall|k: int|
                0 <= k < i ==> opt_view(#[trigger] r@[k]) == previous_release(
                    s,
                    package_list@[k].name@,
                ),
        decreases package_list@.len() - i,
    {
        let p = second_latest_containing(&sorted, package_list[i].name.as_str());
        r.push(p);
        i = i + 1;
    }
    assert(s.to_multiset() == versioned_tags(
        string_views(tag_names@),
        tag_names@.len() as int,
    ).to_multiset());
    r
}

} // verus!
