//! What can be wrong with the data of a computation.

use vstd::prelude::*;

verus! {

/// Why a geometric operation is not defined on its arguments.
#[derive(Clone, Copy, Debug, PartialEq, Eq, Structural)]
pub enum GeometryError {
    /// Two matrices were to be multiplied, and the first has not as many
    /// columns as the second has rows.
    DimensionMismatch,
    /// A matrix was to be inverted, and its determinant is zero.
    NotInvertible,
    /// A vector was to be normalized, and its length is zero.
    UndefinedNormalization,
}

} // verus!
