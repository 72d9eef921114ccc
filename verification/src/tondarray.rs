//! Conversion into the array convention.

use vstd::prelude::*;

mod image_impl;
mod nalgebra_impl;

verus! {

/// Converts a type of one axis into an array of one axis.
///
/// The associated type names the one target of each source.
pub trait IntoNdarray1 {
    type Out;

    fn into_ndarray1(self) -> Self::Out;
}

/// Converts a type of two axes into an array of two axes.
///
/// Coordinates are in `(row, col)`.
pub trait IntoNdarray2 {
    type Out;

    fn into_ndarray2(self) -> Self::Out;
}

/// Converts a type of three axes into an array of three axes.
///
/// Coordinates are in `(channel, row, col)`, where channel is typically a
/// color channel, or they are in `(z, y, x)`.
pub trait IntoNdarray3 {
    type Out;

    fn into_ndarray3(self) -> Self::Out;
}

/// Borrows a type of one axis as an array view of one axis.
pub trait AsNdarray1 {
    type Out;

    fn as_ndarray1(&self) -> Self::Out;
}

/// Borrows a type of two axes as an array view of two axes.
///
/// Coordinates are in `(row, col)`.
pub trait AsNdarray2 {
    type Out;

    fn as_ndarray2(&self) -> Self::Out;
}

/// Borrows a type of three axes as an array view of three axes.
///
/// Coordinates are in `(channel, row, col)`, where channel is typically a
/// color channel, or they are in `(z, y, x)`.
pub trait AsNdarray3 {
    type Out;

    fn as_ndarray3(&self) -> Self::Out;
}

/// Mutably borrows a type of one axis as an array view of one axis.
pub trait AsNdarray1Mut {
    type Out;

    fn as_ndarray1_mut(&mut self) -> Self::Out;
}

/// Mutably borrows a type of two axes as an array view of two axes.
///
/// Coordinates are in `(row, col)`.
pub trait AsNdarray2Mut {
    type Out;

    fn as_ndarray2_mut(&mut self) -> Self::Out;
}

/// Mutably borrows a type of three axes as an array view of three axes.
///
/// Coordinates are in `(channel, row, col)`, where channel is typically a
/// color channel, or they are in `(z, y, x)`.
pub trait AsNdarray3Mut {
    type Out;

    fn as_ndarray3_mut(&mut self) -> Self::Out;
}

} // verus!
