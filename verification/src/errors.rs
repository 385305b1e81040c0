//! The failure cases the library distinguishes. I/O failures stay with the
//! caller that does the I/O; only data-shaped failures arise here.

use vstd::prelude::*;

verus! {

/// Why an operation on game or training data failed.
#[derive(Clone, Copy, Debug, PartialEq, Eq, Structural)]
pub enum DataError {
    /// A magic tag, length prefix, record body or header did not have the
    /// shape the wire format promises: fatal for the current file.
    Format,
    /// A required PGN header field was missing or unreadable at the end of
    /// a game: fatal for the whole conversion run.
    Validation,
    /// The rules engine rejected data this library had already encoded:
    /// treated as corruption.
    Inconsistency,
    /// A failure reported by the I/O around the library (reading a file
    /// that should hold a shard or database): fatal, surfaced to the
    /// caller.
    Io,
}

} // verus!
