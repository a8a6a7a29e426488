use dep_sync::updater::{patch_cargo_toml, PatchError};
use dep_sync::versions::{current_dep_version, needs_update};
use dep_sync::workflow::patch_workflow_sed;

#[test]
fn test_patch_simple_dep() {
    let toml = r#"
[dependencies]
evo-common = "0.2"
tokio = { version = "1", features = ["full"] }
"#;
    let patched = patch_cargo_toml(toml, "evo-common", "0.3").unwrap();
    assert!(patched.contains("evo-common = \"0.3\""));
    // Other deps should be untouched
    assert!(patched.contains("tokio"));
}

#[test]
fn test_patch_inline_table_dep() {
    let toml = r#"
[dependencies]
evo-agent-sdk = { version = "0.1", features = ["full"] }
"#;
    let patched = patch_cargo_toml(toml, "evo-agent-sdk", "0.2").unwrap();
    assert!(patched.contains("\"0.2\""));
    // features should remain
    assert!(patched.contains("features"));
}

#[test]
fn test_patch_missing_dep_errors() {
    let toml = "[dependencies]\n";
    let result = patch_cargo_toml(toml, "missing-crate", "1.0");
    assert!(result.is_err());
}

#[test]
fn test_patch_preserves_other_content() {
    let toml = r#"
[package]
name = "my-crate"
version = "1.0.0"

[dependencies]
serde = "1"
evo-common = "0.2"
"#;
    let patched = patch_cargo_toml(toml, "evo-common", "0.3").unwrap();
    assert!(patched.contains("[package]"));
    assert!(patched.contains("name = \"my-crate\""));
    assert!(patched.contains("serde = \"1\""));
    assert!(patched.contains("evo-common = \"0.3\""));
}

#[test]
fn test_patch_simple_dep_exact_output() {
    let toml = "# deps\n[dependencies]\n# pinned\nevo-common = \"0.2\"\nserde = \"1\"\n";
    let patched = patch_cargo_toml(toml, "evo-common", "0.3").unwrap();
    assert_eq!(patched, "# deps\n[dependencies]\n# pinned\nevo-common = \"0.3\"\nserde = \"1\"\n");
}

#[test]
fn test_patch_then_read_round_trip() {
    let toml = "[dependencies]\nevo-common = \"0.2\"\n";
    let patched = patch_cargo_toml(toml, "evo-common", "0.3").unwrap();
    assert_eq!(current_dep_version(&patched, "evo-common"), Some("0.3".to_string()));
}

#[test]
fn test_patch_no_dependency_table() {
    let result = patch_cargo_toml("[package]\nname = \"x\"\n", "evo-common", "0.3");
    assert_eq!(result, Err(PatchError::NotFound));
}

#[test]
fn test_patch_missing_dep_is_not_found() {
    let result = patch_cargo_toml("[dependencies]\nserde = \"1\"\n", "evo-common", "0.3");
    assert_eq!(result, Err(PatchError::NotFound));
}

#[test]
fn test_patch_unparsable_manifest() {
    let result = patch_cargo_toml("not = = toml", "evo-common", "0.3");
    assert_eq!(result, Err(PatchError::Parse));
}

#[test]
fn test_patch_unrecognized_shape() {
    let result = patch_cargo_toml("[dependencies]\nevo-common = 3\n", "evo-common", "0.3");
    assert_eq!(result, Err(PatchError::Shape));
}

#[test]
fn test_patch_table_without_version_unchanged() {
    let toml = "[dependencies]\nevo-common = { path = \"../evo-common\" }\n";
    let patched = patch_cargo_toml(toml, "evo-common", "0.3").unwrap();
    assert_eq!(patched, toml);
}

#[test]
fn test_patch_block_table_dep() {
    let toml = "[dependencies.evo-common]\nversion = \"0.2\"\n";
    let patched = patch_cargo_toml(toml, "evo-common", "0.3").unwrap();
    assert_eq!(patched, "[dependencies.evo-common]\nversion = \"0.3\"\n");
}

// End to end: read the stale version, decide, patch, and check that nothing
// else moved.
#[test]
fn test_update_flow_end_to_end() {
    let toml = "[package]\nname = \"demo\"\n\n[dependencies]\nexample-pkg = \"0.2\"\nserde = \"1\"\n";
    let current = current_dep_version(toml, "example-pkg").unwrap();
    assert_eq!(current, "0.2");
    assert!(needs_update(&current, "0.3"));
    let patched = patch_cargo_toml(toml, "example-pkg", "0.3").unwrap();
    assert!(patched.contains("example-pkg = \"0.3\""));
    assert_eq!(
        patched,
        "[package]\nname = \"demo\"\n\n[dependencies]\nexample-pkg = \"0.3\"\nserde = \"1\"\n"
    );
}

#[test]
fn test_patch_workflow_sed_basic() {
    let yaml = r#"
      - name: Use crates.io dependencies
        run: |
          sed -i.bak 's|evo-agent-sdk = { path = "[^"]*" }|evo-agent-sdk = "0.1"|' Cargo.toml
          rm -f Cargo.toml.bak
"#;
    let patched = patch_workflow_sed(yaml, "evo-agent-sdk", "0.2");
    assert!(patched.contains("evo-agent-sdk = \"0.2\""));
    assert!(!patched.contains("\"0.1\""));
}

#[test]
fn test_patch_workflow_sed_no_match_unchanged() {
    let yaml = "steps:\n  - run: echo hello\n";
    let patched = patch_workflow_sed(yaml, "evo-agent-sdk", "0.2");
    assert_eq!(yaml, patched.as_str());
}

#[test]
fn test_patch_workflow_sed_leaves_other_lines_untouched() {
    let yaml = r#"
      - run: cargo fmt --check
      - run: |
          sed -i.bak 's|evo-agent-sdk = { path = "[^"]*" }|evo-agent-sdk = "0.1"|' Cargo.toml
      - run: cargo test
"#;
    let patched = patch_workflow_sed(yaml, "evo-agent-sdk", "0.2");
    assert!(patched.contains("cargo fmt --check"));
    assert!(patched.contains("cargo test"));
    assert!(patched.contains("\"0.2\""));
}

#[test]
fn test_workflow_rewrite_end_to_end() {
    let yaml = "run: |\n  sed -i.bak 's|example-pkg = { path = \"[^\"]*\" }|example-pkg = \"0.1\"|' Cargo.toml\n  rm -f Cargo.toml.bak\n";
    let patched = patch_workflow_sed(yaml, "example-pkg", "0.2");
    assert!(patched.contains("\"0.2\""));
    assert!(!patched.contains("\"0.1\""));
    assert_eq!(
        patched,
        "run: |\n  sed -i.bak 's|example-pkg = { path = \"[^\"]*\" }|example-pkg = \"0.2\"|' Cargo.toml\n  rm -f Cargo.toml.bak\n"
    );
}

#[test]
fn test_workflow_rewrite_idempotent_concrete() {
    let yaml = "sed 's|example-pkg = { path = \"x\" }|example-pkg = \"0.1\"|' Cargo.toml\n";
    let once = patch_workflow_sed(yaml, "example-pkg", "0.2");
    let twice = patch_workflow_sed(&once, "example-pkg", "0.2");
    assert_eq!(once, twice);
}

#[test]
fn test_workflow_rewrite_every_occurrence() {
    let yaml = "a 's|p = \"0.1\"|' b 's|p = \"0.5\"|' c";
    let patched = patch_workflow_sed(yaml, "p", "0.9");
    assert_eq!(patched, "a 's|p = \"0.9\"|' b 's|p = \"0.9\"|' c");
}

#[test]
fn test_workflow_rewrite_other_package_untouched() {
    let yaml = "'s|other-pkg = \"0.1\"|'\n";
    let patched = patch_workflow_sed(yaml, "example-pkg", "0.2");
    assert_eq!(patched, yaml);
}

#[test]
fn test_workflow_rewrite_requires_digit_version() {
    // The quoted value must begin with a digit to be a version literal.
    let yaml = "'s|p = \"version\"|'";
    let patched = patch_workflow_sed(yaml, "p", "0.2");
    assert_eq!(patched, yaml);
}
