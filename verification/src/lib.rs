//! Zero-copy conversions between strided arrays, column-major matrices and
//! pixel buffers.
//!
//! A conversion never touches the samples unless the target's storage order
//! forces it to: it rewrites the shape and the strides that describe them.
//! Views are descriptors that index into a backing store handed to them, so
//! that sharing the same memory is a matter of sharing the same slice.

pub mod array;
pub mod error;
pub mod image;
pub mod laws;
pub mod matrix;
pub mod strided;
pub mod toimage;
pub mod tonalgebra;
pub mod tondarray;

pub use array::{
    Array1, Array2, Array3, ArrayView1, ArrayView2, ArrayView3, ArrayViewMut1, ArrayViewMut2,
    ArrayViewMut3, View1, View2, View3,
};
pub use error::ConvertError;
pub use image::{GrayImage, ImageBuffer, RgbImage, RgbaImage, SampleLayout};
pub use matrix::{
    DMatrix, DMatrixView, DMatrixViewMut, DVector, DVectorView, DVectorViewMut, MatrixView,
    VectorView,
};
pub use strided::Layout;
pub use toimage::{ToImageGray, ToImageLuma, ToImageRgb, ToImageRgba};
pub use tonalgebra::ToNalgebra;
pub use tondarray::{
    AsNdarray1, AsNdarray1Mut, AsNdarray2, AsNdarray2Mut, AsNdarray3, AsNdarray3Mut, IntoNdarray1,
    IntoNdarray2, IntoNdarray3,
};
