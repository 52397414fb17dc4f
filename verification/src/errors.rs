//! The fatal conditions the pipeline can report. Every verified function
//! that fails states exactly when it returns which of these.

use vstd::prelude::*;

verus! {

/// A fatal pipeline condition.
#[derive(Clone, Copy, PartialEq, Eq, Structural, Debug)]
pub enum ReleaseError {
    /// The candidate tag already exists (idempotency guard).
    TagExists,
    /// The primary package has no attributed changes.
    MainCrateUnchanged,
    /// A manifest could not be parsed.
    ManifestUnparsable,
    /// The packaged artifact set does not match the plan.
    ValidationMismatch,
    /// An archive could not be written.
    PackagingFailed,
    /// An upload failed after the last allowed attempt.
    UploadFailed,
}

impl ReleaseError {
    /// A short description of the condition.
    pub fn message(&self) -> (r: &'static str)
        ensures
            *self == ReleaseError::TagExists ==> r@ == "rc tag already exists (idempotency guard)"@,
            *self == ReleaseError::MainCrateUnchanged ==> r@
                == "main crate has no changes since base tag"@,
            *self == ReleaseError::ManifestUnparsable ==> r@ == "failed to parse manifest"@,
            *self == ReleaseError::ValidationMismatch ==> r@
                == "packaged crates do not match plan"@,
            *self == ReleaseError::PackagingFailed ==> r@ == "failed to write archive"@,
            *self == ReleaseError::UploadFailed ==> r@ == "upload failed after final attempt"@,
    {
        match self {
            ReleaseError::TagExists => "rc tag already exists (idempotency guard)",
            ReleaseError::MainCrateUnchanged => "main crate has no changes since base tag",
            ReleaseError::ManifestUnparsable => "failed to parse manifest",
            ReleaseError::ValidationMismatch => "packaged crates do not match plan",
            ReleaseError::PackagingFailed => "failed to write archive",
            ReleaseError::UploadFailed => "upload failed after final attempt",
        }
    }
}

} // verus!
