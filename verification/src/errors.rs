//! The error taxonomy for object decoding and storage.

use vstd::prelude::*;

verus! {

/// Every failure an object operation can report. Parsing and storage
/// never panic on malformed input; they surface one of these values.
#[derive(Clone, Copy, Debug, PartialEq, Eq, Structural)]
pub enum ObjectError {
    /// The derived object path does not exist in the store.
    NotFound,
    /// The compressed stream could not be decompressed.
    CorruptObject,
    /// The canonical header does not match `"<kind> <digits>\0"`.
    InvalidHeader,
    /// The declared payload length disagrees with the actual byte count.
    LengthMismatch,
    /// A tree entry is malformed: bad mode digits, a missing space or
    /// NUL terminator, or entries that do not fill the declared length.
    MalformedTree,
    /// Fewer than the fixed 20 hash bytes remain for a tree entry.
    TruncatedEntry,
}

} // verus!
