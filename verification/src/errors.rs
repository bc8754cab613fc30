//! Structural errors reported by the validating sparse-vector constructors.

use vstd::prelude::*;

verus! {

/// Classification of the ways externally supplied index data can violate the
/// sparse structural invariants.
#[derive(Clone, Copy, PartialEq, Eq, Structural, Debug)]
pub enum SprsError {
    /// The index sequence is not strictly increasing.
    NonSortedIndices,
    /// An index is not below the declared dimension.
    OutOfBoundsIndex,
}

} // verus!
