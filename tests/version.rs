use k8s_cloud_tagger::version::{
    bump_content, extract_version, is_newer, parse_semver, unquote_str, value_after_prefix,
};

#[test]
fn test_parse_semver() {
    assert_eq!(parse_semver("1.2.3"), Some((1, 2, 3)));
    assert_eq!(parse_semver("0.1.0"), Some((0, 1, 0)));
    assert_eq!(parse_semver("1.2"), None);
    assert_eq!(parse_semver("1.2.x"), None);
    assert_eq!(parse_semver(""), None);
}

#[test]
fn parse_semver_limits() {
    assert_eq!(parse_semver("4294967295.0.0"), Some((u32::MAX, 0, 0)));
    assert_eq!(parse_semver("4294967296.0.0"), None);
    assert_eq!(parse_semver("1..3"), None);
    assert_eq!(parse_semver("1.2.3.4"), None);
}

#[test]
fn extract_version_from_manifests() {
    let cargo = "[package]\nname = \"x\"\nversion = \"0.3.1\"\nedition = \"2021\"\n";
    assert_eq!(extract_version(cargo, "version ="), Some("0.3.1".to_string()));
    let chart = "apiVersion: v2\r\nname: k8s-cloud-tagger\r\n  version: 1.4.0\r\nappVersion: \"1.4.0\"\r\n";
    assert_eq!(extract_version(chart, "version:"), Some("1.4.0".to_string()));
    assert_eq!(extract_version(chart, "appVersion:"), Some("1.4.0".to_string()));
    assert_eq!(extract_version(chart, "missing:"), None);
    assert_eq!(extract_version("", "version ="), None);
}

#[test]
fn bump_content_rewrites_toml_and_yaml() {
    let cargo = "[package]\nname = \"x\"\nversion = \"0.3.1\"\n";
    assert_eq!(
        bump_content("Cargo.toml", cargo, "version", "0.4.0"),
        "[package]\nname = \"x\"\nversion = \"0.4.0\"\n"
    );
    let chart = "apiVersion: v2\n  version: 1.4.0\nappVersion: 1.4.0";
    assert_eq!(
        bump_content("helm/Chart.yaml", chart, "version", "1.5.0"),
        "apiVersion: v2\n  version: 1.5.0\nappVersion: 1.4.0\n"
    );
    assert_eq!(
        bump_content("helm/Chart.yaml", chart, "appVersion", "1.5.0"),
        "apiVersion: v2\n  version: 1.4.0\nappVersion: 1.5.0\n"
    );
    assert_eq!(bump_content("Cargo.toml", "", "version", "1.0.0"), "\n");
}

#[test]
fn newer_versions_only() {
    assert!(is_newer((1, 2, 3), (1, 2, 4)));
    assert!(is_newer((1, 2, 3), (2, 0, 0)));
    assert!(!is_newer((1, 2, 3), (1, 2, 3)));
    assert!(!is_newer((1, 2, 3), (1, 1, 9)));
}

#[test]
fn prefix_and_quote_helpers() {
    assert_eq!(value_after_prefix("version = \"1.0.0\"", "version ="), Some(" \"1.0.0\"".to_string()));
    assert_eq!(value_after_prefix("name = \"x\"", "version ="), None);
    assert_eq!(value_after_prefix("ver", "version"), None);
    assert_eq!(unquote_str("\"1.0.0\""), "1.0.0");
    assert_eq!(unquote_str("\"\"x\""), "x");
    assert_eq!(unquote_str("\"\""), "");
    assert_eq!(unquote_str("1.0"), "1.0");
}
