//! Registry resolution and atomic installation engine for a multi-component
//! software distribution: semantic-version modelling, remote directory-tree
//! traversal, archive-path construction, and the decision logic of the
//! extraction and installation pipelines.

use vstd::prelude::*;

pub mod chars;
pub mod cmd;
pub mod extract;
pub mod package;
pub mod registry;
pub mod semver;

verus! {

/// The failure modes of the engine.
#[derive(Clone, Copy, PartialEq, Eq, Structural, Debug)]
pub enum Error {
    /// A semantic version string does not conform to the grammar.
    MalformedVersion,
    /// A `latest` pointer body does not contain a `/` separator.
    InvalidLatestPointer,
    /// The registry root listing could not be fetched or parsed.
    RegistryUnreachable,
    /// A package or branch listing could not be fetched.
    PackageNotFound,
    /// The `latest` resource is missing, unreachable, or malformed.
    LatestNotFound,
    /// The archive retrieval returned a non-success status.
    DownloadFailed,
    /// An archive entry path would escape the installation root.
    UnsafeArchiveEntry,
    /// An unrecoverable I/O failure during extraction.
    ExtractionFailed,
}

} // verus!
