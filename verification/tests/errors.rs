use nshare::{
    ArrayView1, ArrayView2, ArrayViewMut2, AsNdarray1, ConvertError, DMatrix, DMatrixView,
    DVectorView, IntoNdarray1, IntoNdarray2, ToNalgebra,
};

#[test]
fn messages_name_the_failed_precondition() {
    assert_eq!(ConvertError::NegativeStride.message(), "negative stride");
    assert_eq!(ConvertError::StrideOverflow.message(), "stride overflow");
    assert_eq!(ConvertError::ChannelMismatch.message(), "channel count mismatch");
    assert_eq!(ConvertError::ShapeMismatch.message(), "shape mismatch");
}

#[test]
fn negative_stride_is_refused_on_every_axis() {
    let v = ArrayView1 { offset: 3, dim: 4, stride: -1 };
    assert_eq!(v.into_nalgebra(), Err(ConvertError::NegativeStride));
    let rows = ArrayView2 { offset: 12, dim: (4, 4), strides: (-4, 1) };
    assert_eq!(rows.into_nalgebra(), Err(ConvertError::NegativeStride));
    let cols = ArrayViewMut2 { offset: 3, dim: (4, 4), strides: (4, -1) };
    assert_eq!(cols.into_nalgebra(), Err(ConvertError::NegativeStride));
    let both = ArrayView2 { offset: 15, dim: (4, 4), strides: (-4, -1) };
    assert_eq!(both.into_nalgebra(), Err(ConvertError::NegativeStride));
    let zero = ArrayView2 { offset: 0, dim: (4, 4), strides: (0, 0) };
    assert!(zero.into_nalgebra().is_ok());
}

#[test]
fn stride_beyond_the_signed_range_is_refused() {
    let big = isize::MAX as usize + 1;
    let v = DVectorView { offset: 0, len: 1, stride: big };
    assert_eq!(v.into_ndarray1(), Err(ConvertError::StrideOverflow));
    assert_eq!(v.as_ndarray1(), Err(ConvertError::StrideOverflow));
    let m = DMatrixView { offset: 0, shape: (1, 1), strides: (1, big) };
    assert_eq!(m.into_ndarray2(), Err(ConvertError::StrideOverflow));
    let m = DMatrixView { offset: 0, shape: (1, 1), strides: (big, 1) };
    assert_eq!(m.into_ndarray2(), Err(ConvertError::StrideOverflow));
    let edge = DVectorView { offset: 0, len: 1, stride: isize::MAX as usize };
    assert_eq!(edge.into_ndarray1().unwrap().stride, isize::MAX);
}

#[test]
fn matrix_with_a_wrong_buffer_is_refused() {
    assert_eq!(DMatrix::from_vec(2, 3, vec![0u8; 5]).unwrap_err(), ConvertError::ShapeMismatch);
    assert_eq!(DMatrix::from_vec(2, 3, vec![0u8; 7]).unwrap_err(), ConvertError::ShapeMismatch);
    let m = DMatrix { data: vec![0u8; 5], nrows: 2, ncols: 3 };
    assert_eq!(m.into_ndarray2().unwrap_err(), ConvertError::ShapeMismatch);
}
