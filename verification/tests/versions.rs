use dep_sync::versions::{current_dep_version, needs_update, parse_semver};

#[test]
fn test_needs_update_newer() {
    assert!(needs_update("0.2.0", "0.3.0"));
    assert!(needs_update("0.2.0", "1.0.0"));
    assert!(needs_update("0.2.1", "0.2.2"));
}

#[test]
fn test_needs_update_same_or_older() {
    assert!(!needs_update("0.3.0", "0.3.0"));
    assert!(!needs_update("0.3.0", "0.2.0"));
}

#[test]
fn test_current_dep_version_simple() {
    let toml = r#"
[dependencies]
evo-common = "0.2"
tokio = { version = "1", features = ["full"] }
"#;
    assert_eq!(current_dep_version(toml, "evo-common"), Some("0.2".to_string()));
    assert_eq!(current_dep_version(toml, "tokio"), Some("1".to_string()));
}

#[test]
fn test_current_dep_version_path_dep() {
    let toml = r#"
[dependencies]
evo-agent-sdk = { path = "../evo-agents/evo-agent-sdk" }
"#;
    // Path deps have no semver to compare
    assert_eq!(current_dep_version(toml, "evo-agent-sdk"), None);
}

#[test]
fn test_current_dep_version_missing() {
    let toml = "[dependencies]\n";
    assert_eq!(current_dep_version(toml, "missing-crate"), None);
}

#[test]
fn test_current_dep_version_path_beside_version() {
    // A path key wins over a version key that is also present.
    let toml = r#"
[dependencies]
evo-common = { path = "../evo-common", version = "0.2" }
"#;
    assert_eq!(current_dep_version(toml, "evo-common"), None);
}

#[test]
fn test_current_dep_version_block_table() {
    let toml = r#"
[dependencies.evo-common]
version = "0.4"
features = ["full"]
"#;
    assert_eq!(current_dep_version(toml, "evo-common"), Some("0.4".to_string()));
}

#[test]
fn test_current_dep_version_non_string_version() {
    let toml = "[dependencies]\nevo-common = { version = 3 }\n";
    assert_eq!(current_dep_version(toml, "evo-common"), None);
}

#[test]
fn test_current_dep_version_unparsable() {
    assert_eq!(current_dep_version("not = = toml", "evo-common"), None);
}

#[test]
fn test_parse_semver_exact() {
    assert_eq!(parse_semver("1.2.3"), (1, 2, 3));
    assert_eq!(parse_semver("0.2"), (0, 2, 0));
    assert_eq!(parse_semver("7"), (7, 0, 0));
    assert_eq!(parse_semver(""), (0, 0, 0));
}

#[test]
fn test_parse_semver_ignores_tail_fields() {
    // Only the first three fields count; `-` and `+` also delimit.
    assert_eq!(parse_semver("1.2.3-alpha.1"), (1, 2, 3));
    assert_eq!(parse_semver("1.2.3+build.7"), (1, 2, 3));
    assert_eq!(parse_semver("1.2-rc"), (1, 2, 0));
}

#[test]
fn test_parse_semver_non_numeric_fields() {
    assert_eq!(parse_semver("x.2.1"), (0, 2, 1));
    assert_eq!(parse_semver("1..2"), (1, 0, 2));
    assert_eq!(parse_semver("1.2a.3"), (1, 0, 3));
}

#[test]
fn test_parse_semver_overflowing_field() {
    // A field too large for u64 counts as 0, like any non-numeric field.
    assert_eq!(parse_semver("99999999999999999999.1.2"), (0, 1, 2));
    assert_eq!(parse_semver("18446744073709551615.1.2"), (u64::MAX, 1, 2));
}

#[test]
fn test_needs_update_pre_release_ignored() {
    // Fields past the third are ignored entirely.
    assert!(!needs_update("1.2.3-alpha", "1.2.3-beta"));
    assert!(needs_update("1.2.3", "1.2.4-alpha"));
}
