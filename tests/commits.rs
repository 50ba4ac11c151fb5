use changelogs::commits::{get_commit_list_by_commit_range, Commit, RawCommit};
use changelogs::error::ErrorKind;
use changelogs::range::CommitRange;

fn raw(id: &str, message: Option<&str>, author: Option<&str>, seconds: i64) -> RawCommit {
    RawCommit {
        id: id.to_string(),
        message: message.map(|m| m.to_string()),
        author: author.map(|a| a.to_string()),
        seconds,
    }
}

fn walk() -> Vec<RawCommit> {
    vec![
        raw("c3", Some("fix(a): three\n\nbody"), Some("ann"), 30),
        raw("c2", Some("feat(a): two"), None, 20),
        raw("c1", Some("init"), Some("bob"), 10),
    ]
}

fn range(end: &str, end_is_root: bool) -> CommitRange {
    CommitRange::new("a@1.0.0", "c3", 30, end, end_is_root).unwrap()
}

fn hashes(v: &[Commit]) -> Vec<String> {
    v.iter().map(|c| c.hash().to_string()).collect()
}

#[test]
fn walk_stops_before_end() {
    let out = get_commit_list_by_commit_range(&walk(), &range("c1", false)).unwrap();
    assert_eq!(hashes(&out), vec!["c3", "c2"]);
    assert_eq!(out[0].message(), "fix(a): three");
    assert_eq!(out[0].author(), &Some("ann".to_string()));
    assert_eq!(out[1].author(), &None);
    assert_eq!(out[0].datetime(), 30);
}

#[test]
fn walk_keeps_root_end() {
    let out = get_commit_list_by_commit_range(&walk(), &range("c1", true)).unwrap();
    assert_eq!(hashes(&out), vec!["c3", "c2", "c1"]);
}

#[test]
fn walk_never_returns_end_commit() {
    for end in ["c3", "c2", "c1"] {
        let out = get_commit_list_by_commit_range(&walk(), &range(end, false)).unwrap();
        assert!(out.iter().all(|c| c.hash() != end));
    }
}

#[test]
fn walk_is_repeatable() {
    let a = get_commit_list_by_commit_range(&walk(), &range("c1", false)).unwrap();
    let b = get_commit_list_by_commit_range(&walk(), &range("c1", false)).unwrap();
    assert_eq!(hashes(&a), hashes(&b));
}

#[test]
fn walk_fails_on_undecodable_message() {
    let mut w = walk();
    w[1].message = None;
    assert!(matches!(
        get_commit_list_by_commit_range(&w, &range("c1", false)),
        Err(ErrorKind::Git)
    ));
}

#[test]
fn walk_ignores_undecodable_message_past_end() {
    let mut w = walk();
    w[2].message = None;
    let out = get_commit_list_by_commit_range(&w, &range("c1", false)).unwrap();
    assert_eq!(hashes(&out), vec!["c3", "c2"]);
}

#[test]
fn walk_with_end_at_start_is_empty() {
    let out = get_commit_list_by_commit_range(&walk(), &range("c3", false)).unwrap();
    assert!(out.is_empty());
}

#[test]
fn walk_record_message_is_first_line_trimmed() {
    let w = vec![raw("c9", Some("  fix(a): x  \nbody"), Some("ann"), 5)];
    let out = get_commit_list_by_commit_range(&w, &range("none", false)).unwrap();
    assert_eq!(out[0].message(), "fix(a): x");
}

#[test]
fn walk_stops_after_root_end() {
    let w = vec![
        raw("c3", Some("three"), None, 30),
        raw("r1", Some("root one"), None, 10),
        raw("r2", Some("root two"), None, 5),
    ];
    let out = get_commit_list_by_commit_range(&w, &range("r1", true)).unwrap();
    assert_eq!(hashes(&out), vec!["c3", "r1"]);
}
