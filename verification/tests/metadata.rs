use leandas::metadata::find_manifest_path;

const JSON: &str = r#"{"packages":[{"name":"other","version":"1.0.0","dependencies":[{"name":"rec_aggregation","source":null}],"manifest_path":"/a/other/Cargo.toml"},{"name":"rec_aggregation","version":"0.1.0","id":"x","manifest_path":"/b/rec/Cargo.toml"},{"name":"last","version":"0.1.0","manifest_path":"/c/Cargo.toml"}]}"#;

#[test]
fn manifest_of_a_package_is_found() {
    assert_eq!(find_manifest_path(JSON, "rec_aggregation"), Some("/b/rec/Cargo.toml".to_string()));
    assert_eq!(find_manifest_path(JSON, "other"), Some("/a/other/Cargo.toml".to_string()));
    assert_eq!(find_manifest_path(JSON, "last"), Some("/c/Cargo.toml".to_string()));
}

#[test]
fn manifest_of_an_unknown_package_is_not_found() {
    assert_eq!(find_manifest_path(JSON, "rec"), None);
    assert_eq!(find_manifest_path("", "rec_aggregation"), None);
}

#[test]
fn manifest_path_must_follow_and_end() {
    assert_eq!(find_manifest_path(r#"{"name":"p","version":"1"}"#, "p"), None);
    assert_eq!(find_manifest_path(r#"{"name":"p","version":"1","manifest_path":"/a"#, "p"), None);
    assert_eq!(
        find_manifest_path(r#"{"name":"p","version":"1","manifest_path":""}"#, "p"),
        Some(String::new())
    );
}
