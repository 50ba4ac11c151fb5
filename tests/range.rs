use changelogs::error::ErrorKind;
use changelogs::range::{get_all_tag_range, get_commit_latest_range, CommitRange, WindowEnd};

fn strings(v: &[&str]) -> Vec<String> {
    v.iter().map(|s| s.to_string()).collect()
}

fn end_name(e: &WindowEnd) -> Option<String> {
    match e {
        WindowEnd::Tag(t) => Some(t.clone()),
        WindowEnd::FirstParent => None,
    }
}

#[test]
fn full_history_of_three_tags() {
    let windows = get_all_tag_range(&strings(&["v1", "v2", "v3"])).unwrap();
    assert_eq!(windows.len(), 2);
    assert_eq!(windows[0].start, "v3");
    assert_eq!(end_name(&windows[0].end), Some("v2".to_string()));
    assert_eq!(windows[1].start, "v2");
    assert_eq!(end_name(&windows[1].end), Some("v1".to_string()));
}

#[test]
fn full_history_without_tags() {
    assert!(matches!(get_all_tag_range(&Vec::new()), Err(ErrorKind::NoTags)));
}

#[test]
fn full_history_of_one_tag() {
    let windows = get_all_tag_range(&strings(&["v1"])).unwrap();
    assert_eq!(windows.len(), 1);
    assert_eq!(windows[0].start, "v1");
    assert!(matches!(windows[0].end, WindowEnd::FirstParent));
}

#[test]
fn latest_of_one_tag_ends_at_first_parent() {
    let w = get_commit_latest_range(&strings(&["pkg@1.0.0"])).unwrap();
    assert_eq!(w.start, "pkg@1.0.0");
    assert!(matches!(w.end, WindowEnd::FirstParent));
}

#[test]
fn latest_of_several_tags() {
    let w = get_commit_latest_range(&strings(&["v1", "v2", "v3"])).unwrap();
    assert_eq!(w.start, "v3");
    assert_eq!(end_name(&w.end), Some("v2".to_string()));
}

#[test]
fn latest_without_tags() {
    assert!(matches!(get_commit_latest_range(&Vec::new()), Err(ErrorKind::NoTags)));
}

#[test]
fn commit_range_dates_the_tag() {
    let r = CommitRange::new("pkg@1.0.0", "abc", 1704067200, "def", false).unwrap();
    assert_eq!(r.latest_tag.name(), "pkg@1.0.0");
    assert_eq!(r.latest_tag.date_time, "2024-01-01");
    assert_eq!(r.start, "abc");
    assert_eq!(r.end, "def");
    assert!(!r.end_is_root);
}

#[test]
fn commit_range_at_epoch() {
    let r = CommitRange::new("t", "a", 86399, "b", true).unwrap();
    assert_eq!(r.latest_tag.date_time, "1970-01-01");
    assert!(r.end_is_root);
}

#[test]
fn commit_range_out_of_date_range() {
    assert!(matches!(CommitRange::new("t", "a", i64::MAX, "b", false), Err(ErrorKind::Git)));
}

#[test]
fn commit_range_from_given_day() {
    let r = CommitRange::from_day("t@1.0.0", "s", Some("2023-05-06".to_string()), "e", false).unwrap();
    assert_eq!(r.latest_tag.date_time, "2023-05-06");
    assert_eq!(r.latest_tag.name, "t@1.0.0");
    assert!(matches!(CommitRange::from_day("t", "s", None, "e", false), Err(ErrorKind::Git)));
}

#[test]
fn walk_stops_at_the_end_commit() {
    let r = CommitRange::new("t", "s", 0, "e", false).unwrap();
    assert!(r.stops_at(&"e".to_string()));
    assert!(!r.stops_at(&"s".to_string()));
    let root = CommitRange::new("t", "s", 0, "e", true).unwrap();
    assert!(root.stops_at(&"e".to_string()));
}
