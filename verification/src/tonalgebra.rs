//! Conversion into the matrix convention.

use vstd::prelude::*;

mod ndarray_impl;

verus! {

/// Converts a type of one or two axes into a vector or a matrix.
///
/// The associated type names the one target of each source.
pub trait ToNalgebra {
    type Out;

    fn into_nalgebra(self) -> Self::Out;
}

} // verus!
