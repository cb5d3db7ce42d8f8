//! Error reporting for the tile engine.

use vstd::prelude::*;

verus! {

/// Why an operation failed. Failures are terminal for the call: nothing is
/// retried and no shared state exists that could be left half-mutated.
/// Serializing a computed raster needs no variant here: encoding to an
/// in-memory buffer cannot fail, so on valid inputs the operations succeed.
#[derive(Clone, Copy, Debug, PartialEq, Eq, Structural)]
pub enum Error {
    /// The input bytes are not a valid raster image.
    DecodeFailed,
    /// The edge code is not one of the recognized values.
    InvalidEdge,
    /// The similarity threshold is not strictly between zero and one.
    InvalidThreshold,
    /// A bitmap that must be square is not.
    NotSquare,
    /// Bitmaps that must have equal dimensions do not.
    SizeMismatch,
    /// A dimension is zero or too large for the raster to be addressed.
    InvalidSize,
}

} // verus!
