//! Verified core of a multi-package release pipeline: commit classification,
//! semantic-version planning, manifest and changelog mutation, candidate
//! tagging, deterministic packaging, and checksum/upload policy.

pub mod archive;
pub mod assets;
pub mod changelog;
pub mod commits;
pub mod dates;
pub mod digest;
pub mod errors;
pub mod infer;
pub mod manifest;
pub mod pipeline;
pub mod plan;
pub mod rc;
pub mod render;
pub mod report;
pub mod text;
pub mod upload;
pub mod validate;
pub mod version;
