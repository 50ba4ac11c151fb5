use changelogs::npm::{get_pre_package_version, NpmPackageInfo};

fn info(name: &str, version: &str) -> NpmPackageInfo {
    NpmPackageInfo { name: name.to_string(), version: version.to_string() }
}

#[test]
fn previous_release_of_each_package() {
    let tags: Vec<String> = [
        "@ant-design/pro-card@1.2.0",
        "@ant-design/pro-card@1.10.0",
        "@ant-design/pro-form@2.0.0",
        "@ant-design/pro-card@1.3.0",
        "not-a-release",
    ]
    .iter()
    .map(|s| s.to_string())
    .collect();
    let packages = vec![info("@ant-design/pro-card", "1.10.0"), info("@ant-design/pro-form", "2.0.0")];
    assert_eq!(
        get_pre_package_version(&tags, &packages),
        vec![Some("@ant-design/pro-card@1.3.0".to_string()), None]
    );
}
