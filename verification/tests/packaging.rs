//! Archives, checksums, candidate tags, validation, and the upload policy.

use std::io::Read;

use sha2::Digest;

use asfship::archive::{
    artifact_base_name, display_path, normalize_relative, package_crate,
    should_skip_artifact_path, split_slash, to_unix_path, TreeEntry,
};
use asfship::digest::{checksum_sidecar_content, compute_sha512};
use asfship::errors::ReleaseError;
use asfship::plan::{compute_plan, CommitRecord, CrateInfo};
use asfship::rc::{ensure_tag_absent, next_rc_tag, parse_rc_tag, rc_tag_string};
use asfship::upload::{
    asset_upload_url, backoff_millis, content_type_for, retry_decision, sort_file_names,
    upload_start, upload_step, RetryDecision, UploadOutcome, UPLOAD_RETRIES,
};
use asfship::validate::{validate_packaged, PackagedCrate};
use asfship::version::Version;

fn v(major: u64, minor: u64, patch: u64) -> Version {
    Version { major, minor, patch }
}

fn tree_entry(path: &str, data: &[u8]) -> TreeEntry {
    TreeEntry { path: path.to_string(), data: data.to_vec() }
}

#[test]
fn both_archive_kinds_hold_the_same_files() {
    let entries = vec![
        tree_entry("pkg/Cargo.toml", b"[package]\nname = \"pkg\"\n"),
        tree_entry("pkg/src/lib.rs", b"pub fn f() {}\n"),
        tree_entry("pkg/target/out.o", b"build output"),
        tree_entry(".github/workflows/ci.yml", b"ci"),
        tree_entry("other/readme.md", b"not in pkg"),
    ];
    let (tar_gz, zip_bytes) = package_crate(&entries, "pkg").expect("packaging succeeds");

    let mut tar_files: Vec<(String, Vec<u8>)> = Vec::new();
    let gz = flate2::read::GzDecoder::new(tar_gz.as_slice());
    let mut archive = tar::Archive::new(gz);
    for e in archive.entries().unwrap() {
        let mut e = e.unwrap();
        let path = e.path().unwrap().to_string_lossy().into_owned();
        let mut data = Vec::new();
        e.read_to_end(&mut data).unwrap();
        tar_files.push((path, data));
    }

    let mut zip_files: Vec<(String, Vec<u8>)> = Vec::new();
    let cursor = std::io::Cursor::new(zip_bytes);
    let mut za = zip::ZipArchive::new(cursor).unwrap();
    for i in 0..za.len() {
        let mut f = za.by_index(i).unwrap();
        let name = f.name().to_string();
        let mut data = Vec::new();
        f.read_to_end(&mut data).unwrap();
        zip_files.push((name, data));
    }

    let expected = vec![
        ("pkg/Cargo.toml".to_string(), b"[package]\nname = \"pkg\"\n".to_vec()),
        ("pkg/src/lib.rs".to_string(), b"pub fn f() {}\n".to_vec()),
    ];
    assert_eq!(tar_files, expected);
    assert_eq!(zip_files, expected);
}

#[test]
fn artifact_path_skipping() {
    assert!(should_skip_artifact_path(".git/config"));
    assert!(should_skip_artifact_path("pkg/.github/workflows/ci.yml"));
    assert!(should_skip_artifact_path("pkg/target/debug/app"));
    assert!(!should_skip_artifact_path("pkg/src/lib.rs"));
    assert!(!should_skip_artifact_path("pkg/targets/data.txt"));
    assert_eq!(normalize_relative("."), "");
    assert_eq!(normalize_relative("pkg"), "pkg");
    assert_eq!(to_unix_path("a/b/c.txt"), "a/b/c.txt");
    assert_eq!(display_path("a/b"), "a/b");
    assert_eq!(split_slash("a/b"), vec!["a".to_string(), "b".to_string()]);
}

#[test]
fn artifact_names_follow_the_convention() {
    let base = artifact_base_name("foo", "foo", "foo", &v(0, 1, 1), 1);
    assert_eq!(base, "apache-foo-0.1.1-rc1-src");
    let other = artifact_base_name("foo", "helper", "foo", &v(2, 0, 0), 3);
    assert_eq!(other, "apache-foo-helper-2.0.0-rc3-src");
}

#[test]
fn sha512_sidecar_matches_direct_digest() {
    let data: Vec<u8> = (0u32..20000).map(|i| (i % 251) as u8).collect();
    let ours = compute_sha512(&data);
    let mut hasher = sha2::Sha512::new();
    hasher.update(&data);
    let theirs = hex::encode(hasher.finalize());
    assert_eq!(ours, theirs);
    assert_eq!(checksum_sidecar_content(&ours), format!("{theirs}\n"));
}

#[test]
fn next_rc_tag_scans_existing_tags() {
    let base = v(0, 1, 1);
    let tags: Vec<String> = Vec::new();
    let (tag, n) = next_rc_tag(&tags, &base);
    assert_eq!(tag, "v0.1.1-rc.1");
    assert_eq!(n, 1);

    let tags = vec![
        "v0.1.0".to_string(),
        "v0.1.1-rc.1".to_string(),
        "v0.1.1-rc.4".to_string(),
        "v0.2.0-rc.9".to_string(),
        "not-a-tag".to_string(),
    ];
    let (tag, n) = next_rc_tag(&tags, &base);
    assert_eq!(tag, "v0.1.1-rc.5");
    assert_eq!(n, 5);
}

#[test]
fn rc_tag_round_trip_and_rejects() {
    assert_eq!(parse_rc_tag("v1.2.3-rc.7"), Some((v(1, 2, 3), 7)));
    assert_eq!(rc_tag_string(&v(1, 2, 3), 7), "v1.2.3-rc.7");
    assert_eq!(parse_rc_tag("v1.2.3"), None);
    assert_eq!(parse_rc_tag("1.2.3-rc.1"), None);
    assert_eq!(parse_rc_tag("v1.2.3-rc."), None);
    assert_eq!(parse_rc_tag("v1.2.3-rc.x"), None);
}

#[test]
fn idempotency_guard_blocks_existing_tag() {
    let tags = vec!["v0.1.1-rc.1".to_string()];
    let err = ensure_tag_absent(&tags, "v0.1.1-rc.1").unwrap_err();
    assert_eq!(err, ReleaseError::TagExists);
    assert!(ensure_tag_absent(&tags, "v0.1.1-rc.2").is_ok());

    let base = v(0, 1, 1);
    let (fresh, _) = next_rc_tag(&tags, &base);
    assert_eq!(fresh, "v0.1.1-rc.2");
    assert!(ensure_tag_absent(&tags, &fresh).is_ok());
}

fn sample_plan() -> asfship::plan::Plan {
    let crates = vec![CrateInfo {
        name: "foo".to_string(),
        version: v(0, 1, 0),
        manifest_path: "/repo/Cargo.toml".to_string(),
        package_root: "/repo".to_string(),
        internal_dep_count: 0,
    }];
    let commits = vec![CommitRecord {
        subject: "feat: x".to_string(),
        message: String::new(),
        sha: "0123456789abcdef0123456789abcdef01234567".to_string(),
        touched_paths: vec!["src/lib.rs".to_string()],
    }];
    compute_plan(&crates, "/repo", &commits)
}

#[test]
fn validator_accepts_complete_sets_and_rejects_incomplete_ones() {
    let plan = sample_plan();
    let complete = vec![PackagedCrate {
        name: "foo".to_string(),
        files: vec![
            "apache-foo-0.1.1-rc1-src.tar.gz".to_string(),
            "apache-foo-0.1.1-rc1-src.zip".to_string(),
            "apache-foo-0.1.1-rc1-src.tar.gz.sha512".to_string(),
        ],
    }];
    assert!(validate_packaged(&plan, &complete).is_ok());

    let missing_zip = vec![PackagedCrate {
        name: "foo".to_string(),
        files: vec!["apache-foo-0.1.1-rc1-src.tar.gz".to_string()],
    }];
    assert_eq!(
        validate_packaged(&plan, &missing_zip).unwrap_err(),
        ReleaseError::ValidationMismatch
    );

    let wrong_name = vec![PackagedCrate {
        name: "bar".to_string(),
        files: vec!["a.tar.gz".to_string(), "a.zip".to_string()],
    }];
    assert_eq!(
        validate_packaged(&plan, &wrong_name).unwrap_err(),
        ReleaseError::ValidationMismatch
    );

    let empty: Vec<PackagedCrate> = Vec::new();
    assert_eq!(validate_packaged(&plan, &empty).unwrap_err(), ReleaseError::ValidationMismatch);
}

#[test]
fn retry_policy_is_bounded_with_growing_backoff() {
    assert_eq!(UPLOAD_RETRIES, 3);
    assert_eq!(
        retry_decision(1, UploadOutcome::HttpFailure),
        RetryDecision::RetryAfter(200)
    );
    assert_eq!(
        retry_decision(2, UploadOutcome::TransportError),
        RetryDecision::RetryAfter(400)
    );
    assert_eq!(retry_decision(3, UploadOutcome::HttpFailure), RetryDecision::Abort);
    assert_eq!(retry_decision(2, UploadOutcome::Success), RetryDecision::Done);
    assert_eq!(backoff_millis(2), 400);
}

#[test]
fn content_types_by_suffix() {
    assert_eq!(content_type_for("a.tar.gz"), "application/gzip");
    assert_eq!(content_type_for("a.zip"), "application/zip");
    assert_eq!(content_type_for("a.tar.gz.sha512"), "text/plain");
    assert_eq!(content_type_for("a.bin"), "application/octet-stream");
}

#[test]
fn upload_urls_are_percent_encoded() {
    let url = asset_upload_url("https://uploads.example/repos/o/r/releases/1/assets", "a b.tar.gz");
    assert_eq!(
        url,
        "https://uploads.example/repos/o/r/releases/1/assets?name=a%20b.tar.gz"
    );
}

#[test]
fn upload_order_is_sorted() {
    let files = vec![
        "b.zip".to_string(),
        "a.tar.gz".to_string(),
        "a.tar.gz.sha512".to_string(),
    ];
    let sorted = sort_file_names(files);
    assert_eq!(
        sorted,
        vec![
            "a.tar.gz".to_string(),
            "a.tar.gz.sha512".to_string(),
            "b.zip".to_string(),
        ]
    );
}

#[test]
fn upload_session_aborts_in_place_on_repeated_failure() {
    let total = 3;
    let start = upload_start();
    assert_eq!((start.next_file, start.attempt, start.aborted), (0, 1, false));
    // the first asset succeeds on its first attempt
    let (p1, d1) = upload_step(start, total, UploadOutcome::Success);
    assert_eq!(d1, RetryDecision::Done);
    assert_eq!((p1.next_file, p1.attempt), (1, 1));
    // the second asset fails all three attempts
    let (p2, d2) = upload_step(p1, total, UploadOutcome::HttpFailure);
    assert_eq!(d2, RetryDecision::RetryAfter(200));
    let (p3, d3) = upload_step(p2, total, UploadOutcome::TransportError);
    assert_eq!(d3, RetryDecision::RetryAfter(400));
    let (p4, d4) = upload_step(p3, total, UploadOutcome::HttpFailure);
    assert_eq!(d4, RetryDecision::Abort);
    assert!(p4.aborted);
    // the third asset is never reached
    assert_eq!(p4.next_file, 1);
}

#[test]
fn upload_order_keeps_duplicates() {
    let files = vec!["b.zip".to_string(), "a.tar.gz".to_string(), "a.tar.gz".to_string()];
    let sorted = sort_file_names(files);
    assert_eq!(
        sorted,
        vec!["a.tar.gz".to_string(), "a.tar.gz".to_string(), "b.zip".to_string()]
    );
}

#[test]
fn packaging_rejects_unarchivable_paths() {
    // a path longer than a tar header's name field is rejected by tar
    let long_name = format!("pkg/{}.txt", "x".repeat(200));
    let entries = vec![
        tree_entry("pkg/ok.txt", b"fine"),
        tree_entry(&long_name, b"too long"),
    ];
    assert_eq!(
        package_crate(&entries, "pkg").unwrap_err(),
        ReleaseError::PackagingFailed
    );

    // two included entries with the same path are rejected by zip
    let entries = vec![
        tree_entry("pkg/same.txt", b"first"),
        tree_entry("pkg/same.txt", b"second"),
    ];
    assert_eq!(
        package_crate(&entries, "pkg").unwrap_err(),
        ReleaseError::PackagingFailed
    );

    // a duplicate outside the package root does not matter
    let entries = vec![
        tree_entry("pkg/a.txt", b"in"),
        tree_entry("other/a.txt", b"out"),
        tree_entry("other/a.txt", b"out again"),
    ];
    assert!(package_crate(&entries, "pkg").is_ok());
}
