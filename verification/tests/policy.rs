//! Planner and bump-policy scenarios.

use asfship::commits::{classify_commit, detect_breaking, ChangeEntry, CommitKind};
use asfship::errors::ReleaseError;
use asfship::pipeline::plan_prerelease;
use asfship::plan::{
    compute_plan, crate_for_path, crates_well_formed, decide_bump, CommitRecord, CrateInfo,
};
use asfship::version::{apply_bump, parse_version, version_string, BumpKind, Version};

fn v(major: u64, minor: u64, patch: u64) -> Version {
    Version { major, minor, patch }
}

fn crate_info(name: &str, version: Version, root: &str) -> CrateInfo {
    CrateInfo {
        name: name.to_string(),
        version,
        manifest_path: format!("{root}/Cargo.toml"),
        package_root: root.to_string(),
        internal_dep_count: 0,
    }
}

fn commit(subject: &str, paths: &[&str]) -> CommitRecord {
    CommitRecord {
        subject: subject.to_string(),
        message: subject.to_string(),
        sha: "0123456789abcdef0123456789abcdef01234567".to_string(),
        touched_paths: paths.iter().map(|p| p.to_string()).collect(),
    }
}

fn entry(subject: &str) -> ChangeEntry {
    let breaking = detect_breaking(subject, subject);
    ChangeEntry::make(subject.to_string(), "0123456".to_string(), breaking)
}

#[test]
fn classify_commit_covers_conventional_prefixes() {
    assert_eq!(classify_commit("feat: x", false), CommitKind::Feat);
    assert_eq!(classify_commit("FIX: y", false), CommitKind::Fix);
    assert_eq!(classify_commit("perf: z", false), CommitKind::Perf);
    assert_eq!(classify_commit("refactor: w", false), CommitKind::Refactor);
    assert_eq!(classify_commit("docs: d", false), CommitKind::Docs);
    assert_eq!(classify_commit("build: b", false), CommitKind::Build);
    assert_eq!(classify_commit("chore: c", false), CommitKind::Chore);
    assert_eq!(classify_commit("something else", false), CommitKind::Other);
    assert_eq!(classify_commit("feat: x", true), CommitKind::Breaking);
}

#[test]
fn detect_breaking_markers() {
    assert!(detect_breaking("refactor!: breaking change", ""));
    assert!(detect_breaking("feat(!): breaking", ""));
    assert!(detect_breaking("feat!", ""));
    assert!(detect_breaking("feat: ok", "something\nBREAKING CHANGE: yes"));
    assert!(detect_breaking("feat: ok", "breaking change: lower case marker"));
    assert!(!detect_breaking("feat: ok", "nothing here"));
    assert!(!detect_breaking("docs: mention breaking changes", "body"));
}

#[test]
fn pre1_only_features_bump_patch() {
    let changes = vec![entry("feat: one"), entry("feat: two")];
    let bump = decide_bump(&v(0, 1, 0), &changes);
    assert_eq!(bump, BumpKind::Patch);
    assert_eq!(apply_bump(&v(0, 1, 0), bump), v(0, 1, 1));
}

#[test]
fn pre1_breaking_bumps_minor_resets_patch() {
    let changes = vec![entry("feat: one"), entry("refactor!: breaking change")];
    let bump = decide_bump(&v(0, 1, 5), &changes);
    assert_eq!(bump, BumpKind::Minor);
    assert_eq!(apply_bump(&v(0, 1, 5), bump), v(0, 2, 0));
}

#[test]
fn post1_policy_major_minor_patch() {
    let breaking = vec![entry("refactor!: breaking change")];
    assert_eq!(decide_bump(&v(1, 2, 3), &breaking), BumpKind::Major);
    assert_eq!(apply_bump(&v(1, 2, 3), BumpKind::Major), v(2, 0, 0));

    let features = vec![entry("feat: exciting feature"), entry("fix: small")];
    assert_eq!(decide_bump(&v(1, 2, 3), &features), BumpKind::Minor);
    assert_eq!(apply_bump(&v(1, 2, 3), BumpKind::Minor), v(1, 3, 0));

    let fixes = vec![entry("fix: only")];
    assert_eq!(decide_bump(&v(1, 2, 3), &fixes), BumpKind::Patch);
    assert_eq!(apply_bump(&v(1, 2, 3), BumpKind::Patch), v(1, 2, 4));
}

#[test]
fn pre1_feat_bumps_patch() {
    let crates = vec![crate_info("foo", v(0, 1, 0), "/repo")];
    let commits = vec![commit("feat: add new module", &["src/new.rs"])];
    let plan = compute_plan(&crates, "/repo", &commits);
    let cp = plan.crate_plan("foo").expect("foo must be planned");
    assert_eq!(version_string(cp.new_version()), "0.1.1");
}

#[test]
fn pre1_breaking_bumps_minor() {
    let crates = vec![crate_info("foo", v(0, 1, 0), "/repo")];
    let commits = vec![commit("refactor!: breaking change", &["src/lib.rs"])];
    let plan = compute_plan(&crates, "/repo", &commits);
    let cp = plan.crate_plan("foo").expect("foo must be planned");
    assert_eq!(version_string(cp.new_version()), "0.2.0");
}

#[test]
fn post1_feat_bumps_minor() {
    let crates = vec![crate_info("foo", v(1, 2, 3), "/repo")];
    let commits = vec![commit("feat: exciting feature", &["src/new.rs"])];
    let plan = compute_plan(&crates, "/repo", &commits);
    let cp = plan.crate_plan("foo").expect("foo must be planned");
    assert_eq!(version_string(cp.new_version()), "1.3.0");
}

#[test]
fn unchanged_package_never_appears_in_plan() {
    let crates = vec![
        crate_info("alpha", v(0, 1, 0), "/repo/alpha"),
        crate_info("beta", v(0, 2, 0), "/repo/beta"),
    ];
    let commits = vec![commit("feat: alpha only", &["alpha/src/lib.rs"])];
    let plan = compute_plan(&crates, "/repo", &commits);
    assert_eq!(plan.changed_count(), 1);
    assert!(plan.crate_plan("alpha").is_some());
    assert!(plan.crate_plan("beta").is_none());
}

#[test]
fn plan_entries_are_name_ordered_with_changes() {
    let crates = vec![
        crate_info("zeta", v(0, 1, 0), "/repo/zeta"),
        crate_info("alpha", v(0, 1, 0), "/repo/alpha"),
    ];
    let commits = vec![
        commit("fix: zeta", &["zeta/src/lib.rs"]),
        commit("feat: alpha", &["alpha/src/lib.rs"]),
    ];
    let plan = compute_plan(&crates, "/repo", &commits);
    assert_eq!(plan.changed_count(), 2);
    assert_eq!(plan.name_at(0), "alpha");
    assert_eq!(plan.name_at(1), "zeta");
    let alpha = plan.plan_at(0);
    assert_eq!(alpha.changes().len(), 1);
    assert_eq!(alpha.changes()[0].subject(), "feat: alpha");
}

#[test]
fn attribution_prefers_deepest_package_root() {
    let crates = vec![
        crate_info("outer", v(0, 1, 0), "/repo"),
        crate_info("inner", v(0, 1, 0), "/repo/crates/inner"),
    ];
    assert_eq!(crate_for_path(&crates, "/repo", "crates/inner/src/lib.rs"), Some(1));
    assert_eq!(crate_for_path(&crates, "/repo", "src/lib.rs"), Some(0));
    let other = vec![crate_info("inner", v(0, 1, 0), "/repo/crates/inner")];
    assert_eq!(crate_for_path(&other, "/repo", "README.md"), None);
}

#[test]
fn one_commit_touching_two_packages_yields_two_entries() {
    let crates = vec![
        crate_info("alpha", v(0, 1, 0), "/repo/alpha"),
        crate_info("beta", v(0, 1, 0), "/repo/beta"),
    ];
    let commits = vec![commit("fix: both", &["alpha/a.rs", "beta/b.rs"])];
    let plan = compute_plan(&crates, "/repo", &commits);
    assert_eq!(plan.changed_count(), 2);
    assert_eq!(plan.crate_plan("alpha").unwrap().changes().len(), 1);
    assert_eq!(plan.crate_plan("beta").unwrap().changes().len(), 1);
}

#[test]
fn planner_fails_when_main_crate_unchanged() {
    let crates = vec![
        crate_info("main_pkg", v(0, 1, 0), "/repo/main_pkg"),
        crate_info("other", v(0, 1, 0), "/repo/other"),
    ];
    let commits = vec![commit("fix: other only", &["other/src/lib.rs"])];
    let err = match plan_prerelease(&crates, "/repo", &commits, "main_pkg") {
        Err(e) => e,
        Ok(_) => panic!("expected an error"),
    };
    assert_eq!(err, ReleaseError::MainCrateUnchanged);

    let no_commits: Vec<CommitRecord> = Vec::new();
    let err = match plan_prerelease(&crates, "/repo", &no_commits, "main_pkg") {
        Err(e) => e,
        Ok(_) => panic!("expected an error"),
    };
    assert_eq!(err, ReleaseError::MainCrateUnchanged);

    let ok = plan_prerelease(
        &crates,
        "/repo",
        &vec![commit("feat: main", &["main_pkg/src/lib.rs"])],
        "main_pkg",
    );
    assert!(ok.is_ok());
}

#[test]
fn planner_precondition_checks() {
    let good = vec![
        crate_info("alpha", v(0, 1, 0), "/repo/alpha"),
        crate_info("beta", v(0, 1, 0), "/repo/beta"),
    ];
    assert!(crates_well_formed(&good));
    let dup = vec![
        crate_info("alpha", v(0, 1, 0), "/repo/a"),
        crate_info("alpha", v(0, 1, 0), "/repo/b"),
    ];
    assert!(!crates_well_formed(&dup));
    let huge = vec![crate_info("alpha", v(u64::MAX, 0, 0), "/repo/a")];
    assert!(!crates_well_formed(&huge));

    let commits = vec![
        commit("fix: zeta", &["zeta/src/lib.rs"]),
        commit("feat: alpha", &["alpha/src/lib.rs"]),
    ];
    let crates = vec![
        crate_info("zeta", v(0, 1, 0), "/repo/zeta"),
        crate_info("alpha", v(0, 1, 0), "/repo/alpha"),
    ];
    let plan = compute_plan(&crates, "/repo", &commits);
    assert!(plan.names_sorted());
}

#[test]
fn version_strings_round_trip() {
    for ver in [v(0, 1, 0), v(1, 2, 3), v(10, 0, 99)] {
        let s = version_string(&ver);
        assert_eq!(parse_version(&s), Some(ver));
    }
    assert_eq!(parse_version("1.2"), None);
    assert_eq!(parse_version("01.2.3"), None);
    assert_eq!(parse_version("1.2.3.4"), None);
    assert_eq!(parse_version("v1.2.3"), None);
}
