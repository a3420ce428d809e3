//! The error taxonomy of the scaffold pipeline.

use vstd::prelude::*;

verus! {

/// A fatal condition of one pipeline stage.
///
/// A path-traversal entry in an archive is not an error: such an entry is
/// skipped during extraction planning and the rest of the archive is still
/// processed.
#[derive(Clone, Copy, Debug, PartialEq, Eq, Structural)]
pub enum ScaffoldError {
    /// The archive fetch failed in transport or returned a non-success status.
    NetworkError,
    /// The archive bytes could not be decoded.
    ArchiveError,
    /// A filesystem-level step cannot proceed (for the in-memory model:
    /// an expected file or directory is absent from the planned tree).
    IoError,
    /// A manifest is not syntactically valid for its format.
    ParseError,
    /// A structurally required manifest field is absent or has the wrong shape.
    SchemaMismatch,
}

impl ScaffoldError {
    /// A short diagnostic for the caller's report.
    pub fn describe(&self) -> &'static str {
        match self {
            ScaffoldError::NetworkError => "archive fetch failed",
            ScaffoldError::ArchiveError => "archive could not be decoded",
            ScaffoldError::IoError => "expected file or directory is absent",
            ScaffoldError::ParseError => "manifest is not syntactically valid",
            ScaffoldError::SchemaMismatch => "manifest field is absent or has the wrong shape",
        }
    }
}

} // verus!
