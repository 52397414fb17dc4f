//! Whole-pipeline scenarios over plain values: plan, apply, tag, package,
//! validate.

use asfship::archive::{artifact_base_name, package_crate, TreeEntry};
use asfship::dates::utc_date_plus_days;
use asfship::digest::{checksum_sidecar_content, compute_sha512};
use asfship::pipeline::{apply_changes, plan_prerelease};
use asfship::plan::{CommitRecord, CrateInfo};
use asfship::rc::{ensure_tag_absent, next_rc_tag};
use asfship::text::concat_str;
use asfship::validate::{validate_packaged, PackagedCrate};
use asfship::version::Version;

fn v(major: u64, minor: u64, patch: u64) -> Version {
    Version { major, minor, patch }
}

const MANIFEST: &str = "[package]\nname = \"foo\"\nversion = \"0.1.0\"\nedition = \"2021\"\n";

fn workspace() -> Vec<CrateInfo> {
    vec![CrateInfo {
        name: "foo".to_string(),
        version: v(0, 1, 0),
        manifest_path: "/repo/Cargo.toml".to_string(),
        package_root: "/repo".to_string(),
        internal_dep_count: 0,
    }]
}

fn commit(subject: &str, paths: &[&str]) -> CommitRecord {
    CommitRecord {
        subject: subject.to_string(),
        message: subject.to_string(),
        sha: "0123456789abcdef0123456789abcdef01234567".to_string(),
        touched_paths: paths.iter().map(|p| p.to_string()).collect(),
    }
}

#[test]
fn feature_on_pre1_package_releases_a_patch() {
    let crates = workspace();
    let commits = vec![commit("feat: add new module", &["src/new.rs"])];
    let plan = plan_prerelease(&crates, "/repo", &commits, "foo").expect("foo has changes");

    let manifests = vec![MANIFEST.to_string()];
    let changelogs = vec![String::new()];
    let (writes, message) =
        apply_changes(&crates, &manifests, &changelogs, &plan, "2026-01-31", "foo")
            .expect("apply succeeds");
    assert_eq!(writes.len(), 1);
    let manifest = writes[0].manifest.as_ref().expect("manifest written");
    assert!(manifest.contains("version = \"0.1.1\""));
    let changelog = writes[0].changelog.as_ref().expect("changelog written");
    assert!(changelog.starts_with("## foo v0.1.1 - 2026-01-31"));
    assert!(changelog.contains("### Features"));
    assert!(changelog.contains("- feat: add new module (0123456)"));
    assert_eq!(message, "chore(release): prepare v0.1.1");
}

#[test]
fn breaking_on_pre1_package_releases_a_minor() {
    let crates = workspace();
    let commits = vec![commit("refactor!: breaking change", &["src/lib.rs"])];
    let plan = plan_prerelease(&crates, "/repo", &commits, "foo").expect("foo has changes");
    let manifests = vec![MANIFEST.to_string()];
    let changelogs = vec![String::new()];
    let (writes, message) =
        apply_changes(&crates, &manifests, &changelogs, &plan, "2026-01-31", "foo").unwrap();
    let manifest = writes[0].manifest.as_ref().unwrap();
    assert!(manifest.contains("version = \"0.2.0\""));
    assert_eq!(message, "chore(release): prepare v0.2.0");
}

#[test]
fn candidate_phase_tags_packages_and_validates() {
    let crates = workspace();
    let commits = vec![commit("feat: add new module", &["src/new.rs"])];
    let plan = plan_prerelease(&crates, "/repo", &commits, "foo").unwrap();
    let new_version = *plan.crate_plan("foo").unwrap().new_version();

    let existing_tags: Vec<String> = vec!["v0.1.0".to_string()];
    let (rc_tag, rc_n) = next_rc_tag(&existing_tags, &new_version);
    assert_eq!(rc_tag, "v0.1.1-rc.1");
    ensure_tag_absent(&existing_tags, &rc_tag).expect("tag is fresh");

    let base = artifact_base_name("foo", "foo", "foo", &new_version, rc_n);
    let entries = vec![
        TreeEntry { path: "Cargo.toml".to_string(), data: MANIFEST.as_bytes().to_vec() },
        TreeEntry { path: "src/lib.rs".to_string(), data: b"pub fn f() {}\n".to_vec() },
    ];
    let (tar_gz, zip_bytes) = package_crate(&entries, ".").expect("packaging succeeds");
    let tar_name = concat_str(&base, ".tar.gz");
    let zip_name = concat_str(&base, ".zip");
    let tar_sha = compute_sha512(&tar_gz);
    let zip_sha = compute_sha512(&zip_bytes);
    assert_eq!(tar_sha.len(), 128);
    assert_eq!(zip_sha.len(), 128);
    assert!(checksum_sidecar_content(&tar_sha).ends_with('\n'));

    let packaged = vec![PackagedCrate {
        name: "foo".to_string(),
        files: vec![
            tar_name.clone(),
            zip_name.clone(),
            concat_str(&tar_name, ".sha512"),
            concat_str(&zip_name, ".sha512"),
        ],
    }];
    validate_packaged(&plan, &packaged).expect("packaged set matches plan");
}

#[test]
fn second_run_without_new_changes_is_blocked() {
    let crates = workspace();
    // the first run saw one change and tagged v0.1.1-rc.1
    let commits = vec![commit("feat: add new module", &["src/new.rs"])];
    let plan = plan_prerelease(&crates, "/repo", &commits, "foo").unwrap();
    let new_version = *plan.crate_plan("foo").unwrap().new_version();
    let (first_tag, _) = next_rc_tag(&vec!["v0.1.0".to_string()], &new_version);

    // a second run against the same commit sees no new changes: the planner
    // aborts before any mutation
    let no_new: Vec<CommitRecord> = Vec::new();
    assert!(plan_prerelease(&crates, "/repo", &no_new, "foo").is_err());

    // and a rerun that somehow reaches tagging with unchanged versions is
    // stopped by the idempotency guard on the already-created tag
    let tags = vec!["v0.1.0".to_string(), first_tag.clone()];
    assert!(ensure_tag_absent(&tags, &first_tag).is_err());
}

#[test]
fn clock_renders_iso_dates() {
    let today = utc_date_plus_days(0);
    assert_eq!(today.len(), 10);
    assert_eq!(today.as_bytes()[4], b'-');
    let later = utc_date_plus_days(3);
    assert!(later >= today);
}
