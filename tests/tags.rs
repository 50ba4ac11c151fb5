use changelogs::tags::{get_tag_list, get_version, sort_tags};

fn strings(v: &[&str]) -> Vec<String> {
    v.iter().map(|s| s.to_string()).collect()
}

#[test]
fn version_of_scoped_tag() {
    let tv = get_version("@ant-design/pro-components@1.0.0").unwrap();
    assert_eq!(tv.package, "@ant-design/pro-components");
    assert_eq!(tv.version, "1.0.0");
}

#[test]
fn version_of_plain_tag() {
    let tv = get_version("pkg-a@1.1.0").unwrap();
    assert_eq!(tv.package, "pkg-a");
    assert_eq!(tv.version, "1.1.0");
}

#[test]
fn version_of_tag_with_several_marks() {
    let tv = get_version("a@b@2.0.0").unwrap();
    assert_eq!(tv.package, "a@b");
    assert_eq!(tv.version, "2.0.0");
}

#[test]
fn version_of_tag_without_mark() {
    assert!(get_version("v1.0.0").is_none());
}

#[test]
fn sort_orders_by_semver_not_text() {
    let tags = strings(&["a@1.10.0", "a@1.2.0", "a@not-a-version", "plain", "a@1.2.0-beta.1"]);
    assert_eq!(sort_tags(&tags), strings(&["a@1.2.0-beta.1", "a@1.2.0", "a@1.10.0"]));
}

#[test]
fn sort_of_empty_list() {
    assert!(sort_tags(&Vec::new()).is_empty());
}

#[test]
fn tag_list_filters_by_package_prefix() {
    let tags = strings(&[
        "@ant-design/pro-layout@2.0.0",
        "@ant-design/pro-form@1.0.0",
        "@ant-design/pro-layout@1.5.3",
        "@ant-design/pro-layout@bad",
        "@ant-design/pro-layout@10.0.0",
    ]);
    assert_eq!(
        get_tag_list(&tags, "@ant-design/pro-layout"),
        strings(&[
            "@ant-design/pro-layout@1.5.3",
            "@ant-design/pro-layout@2.0.0",
            "@ant-design/pro-layout@10.0.0",
        ])
    );
}

#[test]
fn tag_list_is_ascending_and_versioned() {
    let tags = strings(&["x@3.0.0", "x@0.1.0", "x@1.0.0-rc.1", "x@1.0.0", "x@v2", "x@0.0.9"]);
    let out = get_tag_list(&tags, "x");
    assert_eq!(out, strings(&["x@0.0.9", "x@0.1.0", "x@1.0.0-rc.1", "x@1.0.0", "x@3.0.0"]));
    for i in 0..out.len() {
        for j in i + 1..out.len() {
            let a = semver::Version::parse(&get_version(&out[i]).unwrap().version).unwrap();
            let b = semver::Version::parse(&get_version(&out[j]).unwrap().version).unwrap();
            assert!(a <= b);
        }
    }
}

#[test]
fn tag_list_without_matches() {
    let tags = strings(&["other@1.0.0"]);
    assert!(get_tag_list(&tags, "pkg-a").is_empty());
}

#[test]
fn tag_list_ignores_input_order() {
    let a = strings(&["x@2.0.0", "x@1.0.0", "x@1.5.0"]);
    let b = strings(&["x@1.5.0", "x@2.0.0", "x@1.0.0"]);
    assert_eq!(get_tag_list(&a, "x"), get_tag_list(&b, "x"));
}
