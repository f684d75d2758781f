use vstd::prelude::*;

verus! {

/// The error taxonomy of the whole tool.
///
/// `IoError` is produced by the unverified shell around the library when a
/// file cannot be read or written; the remaining variants are produced by
/// the library itself.
#[derive(Clone, Copy, Debug, PartialEq, Eq, Structural)]
pub enum ToolError {
    /// A file was missing, unreadable or unwritable.
    IoError,
    /// A compressed stream was truncated or malformed.
    CorruptData,
    /// A tagged document was structurally invalid, or a required typed
    /// field was missing or of the wrong kind.
    SchemaError,
    /// The remote identity lookup failed or returned a malformed answer.
    IdentityUnavailable,
    /// `save` was asked for before a successful `load`.
    NotLoaded,
    /// Malformed command-line input, e.g. the wrong coordinate count.
    Usage,
}

} // verus!
