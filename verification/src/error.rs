use vstd::prelude::*;

verus! {

/// The error taxonomy of the package manager.
///
/// Per-target errors are captured and reported while a batch continues;
/// configuration errors abort before any target runs.
#[derive(Debug, Clone, PartialEq, Eq, Structural)]
pub enum SoarError {
    /// Missing or invalid configuration, a duplicate repository name, or an
    /// undefined variable referenced by a path.
    Config,
    /// A query matched nothing.
    NotFound,
    /// A query matched several packages and needs interactive selection.
    Ambiguous,
    /// A downloaded artifact's digest differs from the catalog's.
    ChecksumMismatch,
    /// A disk or network operation failed; retryable per target.
    IOFailed,
    /// A filesystem entry the system was asked to replace or remove lacks
    /// the ownership marker.  Surfaced, never forced.
    NotOurs,
    /// Bundle signature mismatch, missing filesystem magic, or symlink
    /// recursion inside a bundle.
    BadBundle,
    /// A ledger row failed its integrity checks.
    LedgerCorrupt,
}

impl SoarError {
    /// A short human-readable name for the error.
    pub fn message(&self) -> (r: &'static str)
        ensures
            r@ == self.message_spec(),
    {
        match self {
            SoarError::Config => "invalid configuration",
            SoarError::NotFound => "package not found",
            SoarError::Ambiguous => "query matched multiple packages",
            SoarError::ChecksumMismatch => "checksum mismatch",
            SoarError::IOFailed => "input/output failure",
            SoarError::NotOurs => "entry is not managed by soar",
            SoarError::BadBundle => "malformed bundle",
            SoarError::LedgerCorrupt => "install ledger is corrupt",
        }
    }

    pub open spec fn message_spec(&self) -> Seq<char> {
        match self {
            SoarError::Config => "invalid configuration"@,
            SoarError::NotFound => "package not found"@,
            SoarError::Ambiguous => "query matched multiple packages"@,
            SoarError::ChecksumMismatch => "checksum mismatch"@,
            SoarError::IOFailed => "input/output failure"@,
            SoarError::NotOurs => "entry is not managed by soar"@,
            SoarError::BadBundle => "malformed bundle"@,
            SoarError::LedgerCorrupt => "install ledger is corrupt"@,
        }
    }
}

} // verus!
