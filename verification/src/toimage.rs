//! Conversion into the pixel convention.

use vstd::prelude::*;

mod ndarray_impl;

verus! {

/// Converts a type of two axes, or of three axes with one channel, into an
/// image of one channel.
///
/// The associated type names the one target of each source.
pub trait ToImageLuma {
    type Out;

    fn into_image_luma(self) -> Self::Out;
}

/// Converts a type of three axes into an image of red, green, blue and
/// alpha.
pub trait ToImageRgba {
    type Out;

    fn into_image_rgba(self) -> Self::Out;
}

/// Converts a type of three axes into an image of red, green and blue.
pub trait ToImageRgb {
    type Out;

    fn into_image_rgb(self) -> Self::Out;
}

/// Converts a type of two axes into an image of one channel.
pub trait ToImageGray {
    type Out;

    fn into_image_gray(self) -> Self::Out;
}

} // verus!
