//! The closed error taxonomy of the release core.
//!
//! Every failure is one of these named kinds, carrying the context (path,
//! package, command) a call site needs to localize the fault and branch on.

use vstd::prelude::*;

verus! {

/// Error kinds raised by the release core.
#[derive(Debug, Clone)]
pub enum ResolveError {
    /// A changeset file is malformed, names an unknown package, or carries a
    /// bad level token.
    InvalidChangeset { path: String, reason: String },
    /// A configuration record is missing required fields.
    InvalidConfig { path: String, reason: String },
    /// A changelog document lacks its header or a version section.
    InvalidChangelog { path: String, reason: String },
    /// An underlying I/O operation failed.
    IoError { message: String },
    /// A manifest or directory that must exist was not found.
    FileOrDirNotFound { path: String },
    /// A version string is not a valid semantic version.
    InvalidVersion { version: String, reason: String },
    /// A manifest could not be decoded.
    ParseError { path: String, reason: String },
    /// A publish or prepublish command exited with a non-zero status.
    CommandError { command: String, code: Option<i32> },
    /// The git layer failed.
    GitError { message: String },
    /// The hosting API failed.
    GitHubError { message: String },
    /// An empty (or otherwise unusable) prerelease tag was requested.
    PreReleaseTagInvalid { tag: String, message: String },
    /// The semantic-version library rejected an input.
    SemverError { message: String },
}

} // verus!
