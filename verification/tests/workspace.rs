//! Discovery decisions and candidate-release helpers.

use asfship::assets::{
    build_artifact_rows, select_rc_release, sidecar_checksums, RcAsset, ReleaseRecord,
};
use asfship::errors::ReleaseError;
use asfship::infer::{
    choose_category, find_last_stable_tag, infer_main_crate, parse_github_remote, pick_remote,
    repo_is_dirty, DiscussionCategory,
};
use asfship::plan::CrateInfo;
use asfship::version::Version;

fn v(major: u64, minor: u64, patch: u64) -> Version {
    Version { major, minor, patch }
}

fn crate_info(name: &str, deps: usize) -> CrateInfo {
    CrateInfo {
        name: name.to_string(),
        version: v(0, 1, 0),
        manifest_path: format!("/repo/{name}/Cargo.toml"),
        package_root: format!("/repo/{name}"),
        internal_dep_count: deps,
    }
}

#[test]
fn github_remote_urls_parse() {
    let (owner, repo) = parse_github_remote("https://github.com/apache/foo.git").unwrap();
    assert_eq!((owner.as_str(), repo.as_str()), ("apache", "foo"));
    let (owner, repo) = parse_github_remote("git@github.com:apache/foo").unwrap();
    assert_eq!((owner.as_str(), repo.as_str()), ("apache", "foo"));
    let (owner, repo) = parse_github_remote("http://github.com/a/b.git").unwrap();
    assert_eq!((owner.as_str(), repo.as_str()), ("a", "b"));
    assert!(parse_github_remote("https://gitlab.com/a/b").is_none());
    assert!(parse_github_remote("https://github.com/justowner").is_none());
}

#[test]
fn remote_selection_prefers_origin() {
    let names = vec!["upstream".to_string(), "origin".to_string()];
    assert_eq!(pick_remote(&names), Some(1));
    let names = vec!["fork".to_string(), "upstream".to_string()];
    assert_eq!(pick_remote(&names), Some(0));
    assert_eq!(pick_remote(&Vec::new()), None);
}

#[test]
fn dirty_working_tree_detection() {
    assert!(!repo_is_dirty(&Vec::new()));
    assert!(!repo_is_dirty(&vec![0u32, 1 << 3, 1 << 4]));
    assert!(repo_is_dirty(&vec![0u32, 1 << 0]));
    assert!(repo_is_dirty(&vec![1 << 8]));
}

#[test]
fn stable_tag_selection_takes_the_greatest_version() {
    let tags = vec![
        "v0.9.0".to_string(),
        "v0.10.0".to_string(),
        "v0.2.5".to_string(),
        "v0.10.0-rc.1".to_string(),
        "nightly".to_string(),
    ];
    assert_eq!(find_last_stable_tag(&tags), Some("v0.10.0".to_string()));
    assert_eq!(find_last_stable_tag(&vec!["nightly".to_string()]), None);
}

#[test]
fn main_crate_inference_cases() {
    let crates = vec![crate_info("alpha", 1), crate_info("beta", 2), crate_info("gamma", 2)];
    let configured = "beta".to_string();
    assert_eq!(
        infer_main_crate(&crates, Some(&configured), None, "repo"),
        Some("beta".to_string())
    );
    let missing = "delta".to_string();
    assert_eq!(infer_main_crate(&crates, Some(&missing), None, "repo"), None);
    let root = "gamma".to_string();
    assert_eq!(
        infer_main_crate(&crates, None, Some(&root), "repo"),
        Some("gamma".to_string())
    );
    assert_eq!(infer_main_crate(&crates, None, None, "alpha"), Some("alpha".to_string()));
    // fallback: most-depended-upon, least name among ties
    assert_eq!(infer_main_crate(&crates, None, None, "repo"), Some("beta".to_string()));
    assert_eq!(infer_main_crate(&Vec::new(), None, None, "repo"), None);
}

#[test]
fn category_choice_prefers_the_first_releases_match() {
    let cats = vec![
        DiscussionCategory { id: 1, name: "General".to_string() },
        DiscussionCategory { id: 2, name: "releases".to_string() },
        DiscussionCategory { id: 3, name: "Releases".to_string() },
    ];
    let c = choose_category(&cats).unwrap();
    assert_eq!(c.id, 2);
    let cats = vec![DiscussionCategory { id: 7, name: "General".to_string() }];
    assert_eq!(choose_category(&cats).unwrap().id, 7);
    assert!(choose_category(&Vec::new()).is_none());
}

fn asset(name: &str, url: &str) -> RcAsset {
    RcAsset { name: name.to_string(), download_url: url.to_string(), size: 10 }
}

#[test]
fn candidate_selection_skips_drafts_and_foreign_tags() {
    let releases = vec![
        ReleaseRecord { tag_name: "v1.0.0".to_string(), draft: false, assets: Vec::new() },
        ReleaseRecord { tag_name: "v1.0.1-rc.2".to_string(), draft: true, assets: Vec::new() },
        ReleaseRecord {
            tag_name: "v1.0.1-rc.1".to_string(),
            draft: false,
            assets: vec![asset("a.tar.gz", "https://example.com/a")],
        },
    ];
    let info = select_rc_release(&releases).unwrap();
    assert_eq!(info.tag, "v1.0.1-rc.1");
    assert_eq!(info.version, v(1, 0, 1));
    assert_eq!(info.rc_number, 1);
    assert_eq!(info.assets.len(), 1);
    assert_eq!(info.rc_suffix(), "-rc1");
    assert_eq!(info.base_version_string(), "1.0.1");
    assert_eq!(info.stable_tag(), "v1.0.1");
    assert_eq!(info.svn_path_component("foo"), "foo-1.0.1-rc1");

    let none = vec![ReleaseRecord {
        tag_name: "v1.0.0".to_string(),
        draft: false,
        assets: Vec::new(),
    }];
    assert!(select_rc_release(&none).is_none());
}

#[test]
fn checksum_rows_pair_assets_with_sidecars() {
    let assets = vec![
        asset("a.tar.gz", "https://example.com/a"),
        asset("a.tar.gz.sha512", "https://example.com/a.sha512"),
        asset("b.zip", "https://example.com/b"),
    ];
    let fetched = vec![
        ("a.tar.gz.sha512".to_string(), " abcd \n".to_string()),
    ];
    let checksums = sidecar_checksums(&fetched);
    assert_eq!(checksums[0].0, "a.tar.gz");
    assert_eq!(checksums[0].1, "abcd");
    let rows = build_artifact_rows(&assets, &checksums);
    assert_eq!(rows.len(), 2);
    assert_eq!(rows[0].name, "a.tar.gz");
    assert_eq!(rows[0].sha512, Some("abcd".to_string()));
    assert_eq!(rows[1].name, "b.zip");
    assert_eq!(rows[1].sha512, None);
}

#[test]
fn asset_checksum_flag() {
    assert!(asset("x.tar.gz.sha512", "u").is_checksum());
    assert!(!asset("x.tar.gz", "u").is_checksum());
}

#[test]
fn error_messages_name_their_condition() {
    assert!(ReleaseError::TagExists.message().contains("idempotency"));
    assert!(ReleaseError::MainCrateUnchanged.message().contains("main crate"));
    assert!(ReleaseError::ManifestUnparsable.message().contains("manifest"));
    assert!(ReleaseError::ValidationMismatch.message().contains("plan"));
    assert!(ReleaseError::PackagingFailed.message().contains("archive"));
    assert!(ReleaseError::UploadFailed.message().contains("upload"));
}
