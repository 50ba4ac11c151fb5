use changelogs::changelog::{package_list, package_scope, repo_name_from_remote, Changelogs};
use changelogs::classify::{classify_commits, is_package_commit};
use changelogs::commits::Commit;
use changelogs::range::{get_all_tag_range, CommitRange, Tag};
use changelogs::tags::get_tag_list;

const URL: &str = "https://github.com/ant-design/pro-components";

fn commit(message: &str, hash: &str, author: Option<&str>) -> Commit {
    Commit::new(message.to_string(), hash.to_string(), author.map(|a| a.to_string()), 0)
}

fn builder() -> Changelogs {
    Changelogs::new("ant-design/pro-components".to_string(), URL.to_string())
}

fn hashes(v: &[Commit]) -> Vec<String> {
    v.iter().map(|c| c.hash().to_string()).collect()
}

#[test]
fn header_scope_is_matched_case_insensitively() {
    assert!(is_package_commit("feat(layout): support header", "layout"));
    assert!(is_package_commit("fix(Layout): render", "layout"));
    assert!(!is_package_commit("feat(form): submit", "layout"));
    assert!(!is_package_commit("update readme", "layout"));
}

#[test]
fn header_is_read_from_first_line_only() {
    assert!(!is_package_commit("update\nfix(layout): later line", "layout"));
    assert!(is_package_commit("fix(layout): first\nbody", "layout"));
}

#[test]
fn header_class_is_a_bracket_of_letters() {
    assert!(is_package_commit("chore(layout): the e before the bracket", "layout"));
    assert!(!is_package_commit("docs(layout): no class letter before it", "layout"));
}

#[test]
fn scope_with_hyphen_is_a_header() {
    assert!(is_package_commit("fix(pkg-a): hyphen", "pkg-a"));
    assert!(is_package_commit("fix(LAYOUT): a", "layout"));
    assert!(is_package_commit("fix(layout): a", "Layout"));
    assert!(!is_package_commit("fix(pkg-a: unclosed", "pkg-a"));
}

#[test]
fn classifier_keeps_input_order() {
    let list = vec![
        commit("feat(card): one", "h1", Some("a")),
        commit("feat(form): two", "h2", Some("a")),
        commit("fix(card): three", "h3", Some("a")),
    ];
    assert_eq!(hashes(&classify_commits(&list, "card")), vec!["h1", "h3"]);
}

#[test]
fn classifier_takes_each_hash_once() {
    let list = vec![
        commit("feat(card): one", "h1", Some("a")),
        commit("feat(card): one", "h1", Some("a")),
        commit("fix(card): two", "h2", Some("a")),
        commit("feat(card): one", "h1", Some("a")),
    ];
    assert_eq!(hashes(&classify_commits(&list, "card")), vec!["h1", "h2"]);
}

#[test]
fn entry_with_pull_request_and_found_login() {
    let mut cl = builder();
    let c = commit("feat(layout): add y (#42)\n\nbody", "0123456789abcdef", Some("Bob Smith"));
    assert_eq!(cl.pending_lookup(&c), Some("42".to_string()));
    let entry = cl.get_md_message(&c, Some("alice".to_string()));
    assert_eq!(
        entry,
        "feat(layout): add y (#42). [#42](https://github.com/ant-design/pro-components/pull/42) \
         [@alice](https://github.com/alice)"
    );
    assert!(entry.contains("/pull/42"));
    assert!(entry.contains("@alice"));
}

#[test]
fn entry_with_pull_request_and_failed_lookup() {
    let mut cl = builder();
    let c = commit("  fix(form): z (#7)  ", "fedcba9876543210", Some("bob"));
    let entry = cl.get_md_message(&c, None);
    assert_eq!(
        entry,
        "fix(form): z (#7). [#7](https://github.com/ant-design/pro-components/pull/7) \
         [@bob](https://github.com/bob)"
    );
    assert_eq!(cl.pending_lookup(&c), Some("7".to_string()));
}

#[test]
fn cached_handle_is_reused() {
    let mut cl = builder();
    let first = commit("feat(a): one (#1)", "1111111111", Some("bob"));
    let second = commit("feat(a): two (#2)", "2222222222", Some("bob"));
    cl.get_md_message(&first, Some("bobby".to_string()));
    assert_eq!(cl.pending_lookup(&second), None);
    let entry = cl.get_md_message(&second, Some("someone-else".to_string()));
    assert!(entry.ends_with("[@bobby](https://github.com/bobby)"));
    assert_eq!(cl.cached_handle(&"bob".to_string()), Some("bobby".to_string()));
}

#[test]
fn entry_without_pull_request_links_commit() {
    let mut cl = builder();
    let c = commit("fix(layout): b\nmore", "0123456789abcdef", Some("bob"));
    assert_eq!(cl.pending_lookup(&c), None);
    assert_eq!(
        cl.get_md_message(&c, None),
        "fix(layout): b. [0123456](https://github.com/ant-design/pro-components/commit/0123456)"
    );
}

#[test]
fn entry_without_author_has_no_credit() {
    let mut cl = builder();
    let c = commit("feat(a): x (#9)", "abcdefabcdef", None);
    assert_eq!(cl.pending_lookup(&c), None);
    assert_eq!(
        cl.get_md_message(&c, Some("ghost".to_string())),
        "feat(a): x (#9). [#9](https://github.com/ant-design/pro-components/pull/9)"
    );
}

#[test]
fn empty_entry_list_gets_placeholder() {
    let cl = builder();
    assert_eq!(cl.gen_change_log_to_md(Vec::new()), "* Dependency updates only.\n");
}

#[test]
fn entry_list_has_one_bullet_per_entry() {
    let cl = builder();
    let md = cl.gen_change_log_to_md(vec!["a".to_string(), "b".to_string()]);
    assert_eq!(md, "* a\n* b\n");
}

#[test]
fn section_of_one_entry() {
    let cl = builder();
    let tag = Tag { name: "v1.0.0".to_string(), date_time: "2024-01-01".to_string() };
    assert_eq!(
        cl.render_section(&tag, vec!["feat(x): add y".to_string()]),
        "## v1.0.0\n\n`2024-01-01`\n\n* feat(x): add y\n"
    );
}

#[test]
fn section_without_entries() {
    let cl = builder();
    let tag = Tag { name: "v2".to_string(), date_time: "2024-02-02".to_string() };
    assert_eq!(
        cl.render_section(&tag, Vec::new()),
        "## v2\n\n`2024-02-02`\n\n* Dependency updates only.\n"
    );
}

#[test]
fn sections_are_joined_by_blank_lines() {
    let joined = changelogs::changelog::join_sections(&vec!["## b\n".to_string(), "## a\n".to_string()]);
    assert_eq!(joined, "## b\n\n## a\n");
    assert_eq!(changelogs::changelog::join_sections(&Vec::new()), "");
}

#[test]
fn remote_address_gives_repo_name() {
    assert_eq!(
        repo_name_from_remote("git@github.com:ant-design/pro-components.git"),
        Some("ant-design/pro-components".to_string())
    );
    assert_eq!(repo_name_from_remote("no-colon-here"), None);
}

#[test]
fn package_scope_and_list() {
    assert_eq!(package_scope("layout"), "@ant-design/pro-layout");
    let list = package_list();
    assert_eq!(list.len(), 9);
    assert_eq!(list[0], "components");
    assert_eq!(list[8], "descriptions");
}

#[test]
fn two_fixes_between_two_tags() {
    let tags = vec!["pkg-a@1.1.0".to_string(), "other@9.0.0".to_string(), "pkg-a@1.0.0".to_string()];
    let sorted = get_tag_list(&tags, "pkg-a");
    assert_eq!(sorted, vec!["pkg-a@1.0.0".to_string(), "pkg-a@1.1.0".to_string()]);
    let windows = get_all_tag_range(&sorted).unwrap();
    assert_eq!(windows.len(), 1);
    assert_eq!(windows[0].start, "pkg-a@1.1.0");
    let range = CommitRange::new(&windows[0].start, "c3", 1704067200, "c0", false).unwrap();
    let list = vec![
        commit("fix(pkg-a): first fix", "c3c3c3c3c3", Some("ann")),
        commit("chore: tooling", "c2c2c2c2c2", Some("ann")),
        commit("fix(pkg-a): second fix", "c1c1c1c1c1", Some("ann")),
    ];
    let kept = classify_commits(&list, "pkg-a");
    assert_eq!(hashes(&kept), vec!["c3c3c3c3c3", "c1c1c1c1c1"]);
    let mut cl = builder();
    let entries: Vec<String> = kept.iter().map(|c| cl.get_md_message(c, None)).collect();
    let md = cl.render_section(&range.latest_tag, entries);
    assert!(md.starts_with("## pkg-a@1.1.0\n\n`2024-01-01`\n\n"));
    assert_eq!(md.matches("\n* ").count(), 2);
}

#[test]
fn builder_keeps_repository_address() {
    let cl = builder();
    assert_eq!(cl.repo_name(), "ant-design/pro-components");
    assert_eq!(cl.html_url(), URL);
    assert_eq!(cl.cached_handle(&"nobody".to_string()), None);
}
