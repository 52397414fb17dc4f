//! Manifest mutation round-trips.

use asfship::manifest::{apply_manifest, update_package_version};
use asfship::version::Version;

fn v(major: u64, minor: u64, patch: u64) -> Version {
    Version { major, minor, patch }
}

const MANIFEST: &str = r#"# workspace member
[package]
name = "foo"
version = "0.1.0"
edition = "2021"
authors = ["someone"]

[dependencies]
helper = "0.1.0"
tablehelper = { version = "0.1.0", features = ["x"] }
unrelated = "1.0.0"

[dev-dependencies]
helper = { version = "0.1.0" }

[features]
default = []
"#;

#[test]
fn mutated_manifest_reparses_with_new_version_and_preserves_the_rest() {
    let out = update_package_version(MANIFEST, &v(0, 1, 1)).expect("manifest parses");
    let doc: toml_edit::DocumentMut = out.parse().expect("mutated manifest reparses");
    assert_eq!(doc["package"]["version"].as_str(), Some("0.1.1"));
    assert_eq!(doc["package"]["name"].as_str(), Some("foo"));
    assert_eq!(doc["package"]["edition"].as_str(), Some("2021"));
    assert!(out.contains("# workspace member"));
    assert!(out.contains("authors = [\"someone\"]"));
    assert!(out.contains("default = []"));
}

#[test]
fn dependency_rewrite_touches_only_planned_packages() {
    let changed = vec![
        ("helper".to_string(), v(0, 1, 1)),
        ("tablehelper".to_string(), v(0, 2, 0)),
    ];
    let (out, modified, pkg_written) =
        apply_manifest(MANIFEST, Some(&v(0, 1, 1)), &changed).expect("manifest parses");
    assert!(modified);
    assert!(pkg_written);
    let doc: toml_edit::DocumentMut = out.parse().expect("mutated manifest reparses");
    assert_eq!(doc["package"]["version"].as_str(), Some("0.1.1"));
    assert_eq!(doc["dependencies"]["helper"].as_str(), Some("0.1.1"));
    assert_eq!(
        doc["dependencies"]["tablehelper"]["version"].as_str(),
        Some("0.2.0")
    );
    assert_eq!(doc["dev-dependencies"]["helper"]["version"].as_str(), Some("0.1.1"));
    // the unrelated dependency entry stays byte-identical
    assert!(out.contains("unrelated = \"1.0.0\""));
    // table-form dependency keeps its other keys
    assert!(out.contains("features = [\"x\"]"));
}

#[test]
fn unmodified_manifest_reports_no_dependency_change() {
    let changed = vec![("absent".to_string(), v(9, 9, 9))];
    let (out, modified, pkg_written) =
        apply_manifest(MANIFEST, None, &changed).expect("manifest parses");
    assert!(!modified);
    assert!(!pkg_written);
    assert_eq!(out, MANIFEST);
}

#[test]
fn unparsable_manifest_is_rejected() {
    assert!(update_package_version("not [ valid toml", &v(1, 0, 0)).is_none());
    assert!(apply_manifest("also ] not toml", None, &Vec::new()).is_none());
}

#[test]
fn packageless_manifest_is_left_alone() {
    let workspace = "[workspace]\nmembers = [\"a\"]\n";
    let out = update_package_version(workspace, &v(1, 0, 0)).expect("parses");
    assert_eq!(out, workspace);
}

#[test]
fn unmutated_text_without_trailing_newline_is_byte_identical() {
    // a parseable manifest that does not end in a newline
    let packageless = "[workspace]\nmembers = [\"a\"]";
    let out = update_package_version(packageless, &v(1, 0, 0)).expect("parses");
    assert_eq!(out, packageless);

    let no_rewrite = "[package]\nname = \"foo\"\nversion = \"0.1.0\"";
    let changed = vec![("absent".to_string(), v(9, 9, 9))];
    let (out, modified, pkg_written) =
        apply_manifest(no_rewrite, None, &changed).expect("parses");
    assert!(!modified);
    assert!(!pkg_written);
    assert_eq!(out, no_rewrite);
}
