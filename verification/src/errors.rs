//! The failure taxonomy of the library.

use vstd::prelude::*;

verus! {

/// Why an operation could not complete.
#[derive(Clone, Copy, Debug, PartialEq, Eq, Structural)]
pub enum DevError {
    /// No current version is set, or the version it names has no
    /// directory on disk.
    NotConfigured,
    /// The thing asked for — a version, a component — is not there.
    NotFound,
    /// The persisted configuration is present but malformed.
    Parse,
    /// A read or write of persisted state failed.  Never produced by the
    /// library itself; the surrounding application reports filesystem
    /// failures with it.
    Io,
}

} // verus!
