//! Changelog, report, and discussion-text rendering.

use asfship::assets::{RcAsset, RcReleaseInfo, VoteArtifact};
use asfship::changelog::update_changelog;
use asfship::commits::{detect_breaking, group_label, group_order, ChangeEntry, CommitKind};
use asfship::plan::{compute_plan, CommitRecord, CrateInfo};
use asfship::render::{
    render_body, render_release_body, render_vote_body, start_title, vote_title,
    ReleaseCrateSummary,
};
use asfship::report::build_report;
use asfship::version::Version;

fn v(major: u64, minor: u64, patch: u64) -> Version {
    Version { major, minor, patch }
}

fn entry(subject: &str) -> ChangeEntry {
    let breaking = detect_breaking(subject, subject);
    ChangeEntry::make(subject.to_string(), "0123456".to_string(), breaking)
}

#[test]
fn group_order_contains_all_labels() {
    assert!(group_order().contains(&group_label(CommitKind::Breaking)));
    assert!(group_order().contains(&group_label(CommitKind::Feat)));
    assert!(group_order().contains(&group_label(CommitKind::Fix)));
    assert!(group_order().contains(&group_label(CommitKind::Refactor)));
    assert!(group_order().contains(&group_label(CommitKind::Docs)));
}

#[test]
fn changelog_section_exact_format() {
    let changes = vec![
        entry("feat: add new module"),
        entry("fix: a bug"),
        entry("refactor!: breaking change"),
    ];
    let out = update_changelog("foo", &v(0, 2, 0), &changes, "2026-01-31", "old content\n");
    let expected = "## foo v0.2.0 - 2026-01-31\n\n\
### Breaking Changes\n- refactor!: breaking change (0123456)\n\n\
### Features\n- feat: add new module (0123456)\n\n\
### Fixes\n- fix: a bug (0123456)\n\n\
\nold content\n";
    assert_eq!(out, expected);
}

#[test]
fn changelog_contains_features_section_for_feat_commit() {
    let changes = vec![entry("feat: add new module")];
    let out = update_changelog("foo", &v(0, 1, 1), &changes, "2026-01-31", "");
    assert!(out.contains("## foo v0.1.1"));
    assert!(out.contains("### Features"));
    assert!(out.contains("- feat: add new module (0123456)"));
    assert!(!out.contains("### Fixes"));
}

#[test]
fn prerelease_snapshot() {
    let crates = vec![CrateInfo {
        name: "foo".to_string(),
        version: v(0, 1, 0),
        manifest_path: "/repo/Cargo.toml".to_string(),
        package_root: "/repo".to_string(),
        internal_dep_count: 0,
    }];
    let commits = vec![CommitRecord {
        subject: "init".to_string(),
        message: "init".to_string(),
        sha: "0123456789abcdef0123456789abcdef01234567".to_string(),
        touched_paths: vec!["Cargo.toml".to_string(), "src/lib.rs".to_string()],
    }];
    let plan = compute_plan(&crates, "/repo", &commits);
    let report = build_report(None, "foo".to_string(), &plan, true);
    let text = report.render_text();
    let expected = "prerelease summary\n\
mode: dry-run\n\
base tag: <none>\n\
main crate: foo\n\
rc tag: <pending>\n\
changed crates:\n\
* foo 0.1.0 -> 0.1.1\n\
\u{20}\u{20}Others:\n\
\u{20}\u{20}\u{20}\u{20}- init\n";
    assert_eq!(text, expected);
}

#[test]
fn report_marks_applied_and_rc_tag() {
    let crates: Vec<CrateInfo> = vec![CrateInfo {
        name: "foo".to_string(),
        version: v(0, 1, 0),
        manifest_path: "/repo/Cargo.toml".to_string(),
        package_root: "/repo".to_string(),
        internal_dep_count: 0,
    }];
    let commits = vec![CommitRecord {
        subject: "feat: x".to_string(),
        message: String::new(),
        sha: "0123456789abcdef0123456789abcdef01234567".to_string(),
        touched_paths: vec!["src/lib.rs".to_string()],
    }];
    let plan = compute_plan(&crates, "/repo", &commits);
    let mut report = build_report(Some("v0.1.0".to_string()), "foo".to_string(), &plan, true);
    report.mark_applied();
    report.set_rc_tag(Some("v0.1.1-rc.1".to_string()));
    let text = report.render_text();
    assert!(text.contains("mode: applied"));
    assert!(text.contains("base tag: v0.1.0"));
    assert!(text.contains("rc tag: v0.1.1-rc.1"));
}

#[test]
fn start_snapshot() {
    let crates = vec![CrateInfo {
        name: "foo".to_string(),
        version: v(0, 1, 0),
        manifest_path: "/repo/Cargo.toml".to_string(),
        package_root: "/repo".to_string(),
        internal_dep_count: 0,
    }];
    assert_eq!(start_title("foo"), "foo Release Kickoff");
    let body = render_body("foo", "foo", None, &crates);
    let expected = "# foo Release Kickoff\n\n\
- Base tag: <none>\n\
- Main crate: foo\n\
- Proposed release date: TBD\n\n\
Workspace crates:\n\
- foo 0.1.0\n\n\n\
Please add agenda items, blockers, and verification tasks below. Once scope is agreed, run `asfship prerelease` to prepare the first release candidate.\n";
    assert_eq!(body, expected);
}

#[test]
fn render_release_body_lists_crates() {
    let release = RcReleaseInfo {
        tag: "v0.1.1-rc.1".to_string(),
        version: v(0, 1, 1),
        rc_number: 1,
        assets: vec![RcAsset {
            name: "apache-foo-0.1.1-rc1-src.tar.gz".to_string(),
            download_url: "https://example.com/tar".to_string(),
            size: 10,
        }],
    };
    let crates = vec![ReleaseCrateSummary {
        name: "foo".to_string(),
        old_version: "0.1.0".to_string(),
        new_version: "0.1.1".to_string(),
    }];

    let body = render_release_body(
        "foo",
        &release.base_version_string(),
        &release.stable_tag(),
        &release.tag,
        &crates,
    );
    assert!(body.contains("foo: 0.1.0 → 0.1.1"));
    assert!(body.contains("v0.1.1"));
}

#[test]
fn render_vote_body_formats_artifacts() {
    let release = RcReleaseInfo {
        tag: "v0.1.1-rc.1".to_string(),
        version: v(0, 1, 1),
        rc_number: 1,
        assets: vec![RcAsset {
            name: "apache-foo-0.1.1-rc1-src.tar.gz".to_string(),
            download_url: "https://example.com/tar".to_string(),
            size: 10,
        }],
    };
    let artifacts = vec![VoteArtifact {
        name: "apache-foo-0.1.1-rc1-src.tar.gz".to_string(),
        url: "https://example.com/tar".to_string(),
        sha512: Some("abcd".to_string()),
    }];

    let svn_url = format!(
        "https://dist.apache.org/repos/dist/dev/foo/{}",
        release.svn_path_component("foo")
    );
    let rendered = render_vote_body(
        "foo",
        &release.base_version_string(),
        &release.rc_suffix(),
        &svn_url,
        &artifacts,
        "2026-02-03",
    );
    assert!(rendered.contains("sha512=abcd"));
    assert!(rendered.contains("[VOTE]"));
    assert!(rendered.contains("foo-0.1.1-rc1"));
    let title = vote_title("foo", &release.base_version_string(), &release.rc_suffix());
    assert_eq!(title, "[VOTE] foo 0.1.1-rc1");
}
