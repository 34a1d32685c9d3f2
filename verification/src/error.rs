//! The failures that the map and its regions report.

use vstd::prelude::*;

verus! {

/// Why an operation on a map or a region did not take place. Every failure
/// is handed back to the caller; none ends the process.
#[derive(Clone, Copy, PartialEq, Eq, Structural, Debug)]
pub enum MapError {
    /// The offset names no cell of the region grid.
    OutOfBounds { x: u32, y: u32 },
    /// The store holds no blob under the key that was asked for.
    NotFound,
    /// A blob is not a well-formed map or tile volume of the current format.
    SerializationFailure,
    /// Regions were to be generated before a seed was set.
    UnsetSeed,
    /// A map was to be made with a width, height or region size of zero.
    InvalidDimensions,
    /// The store did not take a blob that was to be written.
    WriteFailed,
}

} // verus!
