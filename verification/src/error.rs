//! The error kinds that the object store and the codecs surface.

use vstd::prelude::*;

verus! {

/// Every failure of the store or of a codec is one of these kinds; no parse
/// or decompression failure is ever swallowed into empty or default output.
#[derive(Clone, Copy, Debug, PartialEq, Eq, Structural)]
pub enum GitError {
    /// The resolved path holds no object.
    ObjectNotFound,
    /// The compressed stream is invalid or truncated.
    CorruptObject,
    /// A header is missing, a delimiter is missing, or a trailing record is
    /// cut short.
    MalformedObject,
    /// The identifier is too short to resolve a path.
    InvalidIdentifier,
    /// The storage medium failed to read, write or create a directory.
    IoFailure,
}

} // verus!
