use symphony_model::info_panel::{non_empty, version_rows, Version};

fn some(s: &str) -> Option<String> {
    Some(s.to_string())
}

#[test]
fn empty_strings_count_as_unknown() {
    assert_eq!(non_empty(some("")), None);
    assert_eq!(non_empty(some("abc")), some("abc"));
    assert_eq!(non_empty(None), None);
}

#[test]
fn rows_show_the_report_but_an_empty_git_commit() {
    let version = Version {
        api_version: some("4.0.0"),
        build_time: some("Thu Jan  1 00:00:00 1970"),
        git_commit: some(""),
        go_version: some("go1.17"),
        os: some("linux"),
        arch: None,
        version: some("4.0.2"),
    };
    let rows = version_rows(version);
    assert_eq!(rows.api_version, some("4.0.0"));
    assert_eq!(rows.built_time, some("Thu Jan  1 00:00:00 1970"));
    assert_eq!(rows.git_commit, None);
    assert_eq!(rows.go_version, some("go1.17"));
    assert_eq!(rows.os, some("linux"));
    assert_eq!(rows.arch, None);
    assert_eq!(rows.version, some("4.0.2"));
}

#[test]
fn rows_keep_a_git_commit() {
    let version = Version {
        api_version: None,
        build_time: None,
        git_commit: some("abc123"),
        go_version: None,
        os: None,
        arch: None,
        version: None,
    };
    let rows = version_rows(version);
    assert_eq!(rows.git_commit, some("abc123"));
    assert_eq!(rows.api_version, None);
}
