use ndarray::ShapeBuilder;
use nshare::{
    Array1, Array2, ArrayView1, ArrayView2, ArrayViewMut1, ArrayViewMut2, AsNdarray1,
    AsNdarray1Mut, AsNdarray2, AsNdarray2Mut, ConvertError, DMatrix, DMatrixView, DMatrixViewMut,
    DVector, DVectorView, DVectorViewMut, IntoNdarray1, IntoNdarray2, ToNalgebra,
};

fn square() -> ndarray::Array2<f64> {
    ndarray::Array2::from_shape_vec(
        (4, 4),
        vec![0.1, 0.2, 0.3, 0.4, 0.5, 0.6, 0.7, 0.8, 1.1, 1.2, 1.3, 1.4, 1.5, 1.6, 1.7, 1.8],
    )
    .unwrap()
}

fn matrix4() -> nalgebra::Matrix4<f64> {
    nalgebra::Matrix4::new(
        0.1, 0.2, 0.3, 0.4, 0.5, 0.6, 0.7, 0.8, 1.1, 1.2, 1.3, 1.4, 1.5, 1.6, 1.7, 1.8,
    )
}

fn row_of(m: &DMatrixView, data: &[f64], i: usize) -> Vec<f64> {
    (0..m.shape.1).map(|j| *m.get(data, i, j).unwrap()).collect()
}

fn column_of(m: &DMatrixView, data: &[f64], j: usize) -> Vec<f64> {
    (0..m.shape.0).map(|i| *m.get(data, i, j).unwrap()).collect()
}

#[test]
fn single_row_ndarray_to_nalgebra() {
    let mut arr = ndarray::Array2::from_shape_vec((1, 4), vec![0.1, 0.2, 0.3, 0.4]).unwrap();
    let real = arr.view_mut();
    let view = ArrayViewMut2 {
        offset: 0,
        dim: real.dim(),
        strides: (real.strides()[0], real.strides()[1]),
    };
    let m = view.into_nalgebra().unwrap();
    let row: Vec<f64> = (0..4).map(|j| *m.get(arr.as_slice().unwrap(), 0, j).unwrap()).collect();
    assert!(row.iter().eq(&[0.1, 0.2, 0.3, 0.4]));
    assert_eq!(m.shape, (1, 4));
    let column: Vec<f64> = {
        let m = view.reversed_axes().into_nalgebra().unwrap();
        (0..4).map(|i| *m.get(arr.as_slice().unwrap(), i, 0).unwrap()).collect()
    };
    assert!(column.iter().eq(&[0.1, 0.2, 0.3, 0.4]));
}

#[test]
fn single_row_view_matches_the_matrix_crate() {
    let mut arr = ndarray::Array2::from_shape_vec((1, 4), vec![0.1, 0.2, 0.3, 0.4]).unwrap();
    let real = arr.view_mut();
    let view = ArrayViewMut2 {
        offset: 0,
        dim: real.dim(),
        strides: (real.strides()[0], real.strides()[1]),
    };
    let m: DMatrixViewMut = view.into_nalgebra().unwrap();
    let data = arr.as_slice().unwrap();
    let real = nalgebra::DMatrixView::from_slice_with_strides(
        data,
        m.shape.0,
        m.shape.1,
        m.strides.0,
        m.strides.1,
    );
    assert!(real.row(0).iter().eq(&[0.1, 0.2, 0.3, 0.4]));
    assert_eq!(real.shape(), (1, 4));
    let t = view.reversed_axes().into_nalgebra().unwrap();
    let real = nalgebra::DMatrixView::from_slice_with_strides(
        data,
        t.shape.0,
        t.shape.1,
        t.strides.0,
        t.strides.1,
    );
    assert!(real.column(0).iter().eq(&[0.1, 0.2, 0.3, 0.4]));
}

#[test]
fn array_view1_into_nalgebra() {
    let arr = ndarray::Array1::from_vec(vec![0.1, 0.2, 0.3, 0.4]);
    let real = arr.view();
    let view = ArrayView1 { offset: 0, dim: real.len(), stride: real.strides()[0] };
    let m: DVectorView = view.into_nalgebra().unwrap();
    let data = arr.as_slice().unwrap();
    let items: Vec<f64> = (0..m.len).map(|i| *m.get(data, i).unwrap()).collect();
    assert!(items.iter().eq(&[0.1, 0.2, 0.3, 0.4]));
    assert_eq!((m.len, 1), (4, 1));
    assert_eq!(m, DVectorView { offset: 0, len: 4, stride: 1 });
}

#[test]
fn array_view_mut1_into_nalgebra() {
    let mut arr = ndarray::Array1::from_vec(vec![0.1, 0.2, 0.3, 0.4]);
    let real = arr.view_mut();
    let view = ArrayViewMut1 { offset: 0, dim: real.len(), stride: real.strides()[0] };
    let m: DVectorViewMut = view.into_nalgebra().unwrap();
    assert_eq!(m.len, 4);
    let data = arr.as_slice_mut().unwrap();
    assert!(m.set(data, 2, 9.5));
    assert!(!m.set(data, 4, 9.5));
    assert!(arr.iter().eq(&[0.1, 0.2, 9.5, 0.4]));
}

#[test]
fn strided_view1_keeps_its_elements() {
    let arr = ndarray::Array1::from_vec(vec![0, 1, 2, 3, 4, 5, 6]);
    let real = arr.slice_axis(ndarray::Axis(0), ndarray::Slice::new(1, None, 2));
    assert_eq!(real.strides(), &[2]);
    let view = ArrayView1 { offset: 1, dim: real.len(), stride: real.strides()[0] };
    let m = view.into_nalgebra().unwrap();
    assert_eq!(m, DVectorView { offset: 1, len: 3, stride: 2 });
    let data = arr.as_slice().unwrap();
    let items: Vec<i32> = (0..m.len).map(|i| *m.get(data, i).unwrap()).collect();
    assert!(real.iter().eq(items.iter()));
    assert_eq!(items, vec![1, 3, 5]);
}

#[test]
fn reversed_view1_is_refused() {
    let arr = ndarray::Array1::from_vec(vec![0, 1, 2, 3]);
    let mut real = arr.view();
    real.invert_axis(ndarray::Axis(0));
    assert_eq!(real.strides(), &[-1]);
    let view = ArrayView1 { offset: 3, dim: real.len(), stride: real.strides()[0] };
    let data = arr.as_slice().unwrap();
    let items: Vec<i32> = (0..4).map(|i| *view.get(data, i).unwrap()).collect();
    assert!(real.iter().eq(items.iter()));
    assert_eq!(view.into_nalgebra(), Err(ConvertError::NegativeStride));
}

#[test]
fn array1_into_nalgebra() {
    let arr = Array1::from_vec(vec![0.1, 0.2, 0.3, 0.4]);
    let m = arr.into_nalgebra().unwrap();
    assert!(m.data.iter().eq(&[0.1, 0.2, 0.3, 0.4]));
    assert_eq!(m.data.len(), 4);
    let real = nalgebra::DVector::from_vec(m.data);
    assert_eq!(real.shape(), (4, 1));
}

#[test]
fn strided_array1_is_rewritten() {
    let arr = Array1 { data: vec![0, 1, 2, 3, 4, 5, 6], offset: 6, dim: 3, stride: -2 };
    assert!(!arr.packed());
    let m = arr.into_nalgebra().unwrap();
    assert_eq!(m.data, vec![6, 4, 2]);
    let outside = Array1 { data: vec![0, 1, 2], offset: 1, dim: 3, stride: 1 };
    assert_eq!(outside.into_nalgebra().unwrap_err(), ConvertError::ShapeMismatch);
}

#[test]
fn array_view2_into_nalgebra() {
    let arr = square();
    let real = arr.view();
    let view = ArrayView2 { offset: 0, dim: real.dim(), strides: (real.strides()[0], real.strides()[1]) };
    let m = view.into_nalgebra().unwrap();
    let data = arr.as_slice().unwrap();
    assert!(row_of(&m, data, 1).iter().eq(&[0.5, 0.6, 0.7, 0.8]));
    assert_eq!(m.shape, (4, 4));
    assert_eq!(m.strides, (4, 1));
    let t = arr.t();
    let view = ArrayView2 { offset: 0, dim: t.dim(), strides: (t.strides()[0], t.strides()[1]) };
    let m = view.into_nalgebra().unwrap();
    assert!(column_of(&m, data, 1).iter().eq(&[0.5, 0.6, 0.7, 0.8]));
    let real = nalgebra::DMatrixView::from_slice_with_strides(data, 4, 4, m.strides.0, m.strides.1);
    assert!(real.column(1).iter().eq(&[0.5, 0.6, 0.7, 0.8]));
}

#[test]
fn array_view_mut2_into_nalgebra() {
    let mut arr = square();
    let real = arr.view_mut();
    let view = ArrayViewMut2 {
        offset: 0,
        dim: real.dim(),
        strides: (real.strides()[0], real.strides()[1]),
    };
    let m = view.into_nalgebra().unwrap();
    assert_eq!(m.shape, (4, 4));
    let items: Vec<f64> = (0..4).map(|j| *m.get(arr.as_slice().unwrap(), 1, j).unwrap()).collect();
    assert!(items.iter().eq(&[0.5, 0.6, 0.7, 0.8]));
    let t = view.reversed_axes().into_nalgebra().unwrap();
    let items: Vec<f64> = (0..4).map(|i| *t.get(arr.as_slice().unwrap(), i, 1).unwrap()).collect();
    assert!(items.iter().eq(&[0.5, 0.6, 0.7, 0.8]));
    assert!(m.set(arr.as_slice_mut().unwrap(), 2, 3, 7.5));
    assert_eq!(arr[[2, 3]], 7.5);
    assert_eq!(*t.get(arr.as_slice().unwrap(), 3, 2).unwrap(), 7.5);
}

#[test]
fn array2_into_nalgebra() {
    let real = square();
    let arr = Array2::from_shape_vec((4, 4), (4, 1), real.clone().into_raw_vec_and_offset().0).unwrap();
    assert!(!arr.column_major());
    let m = arr.clone().into_nalgebra().unwrap();
    assert_eq!((m.nrows, m.ncols), (4, 4));
    let row: Vec<f64> = (0..4).map(|j| *m.get(1, j).unwrap()).collect();
    assert!(row.iter().eq(&[0.5, 0.6, 0.7, 0.8]));
    let matrix = nalgebra::DMatrix::from_vec(m.nrows, m.ncols, m.data.clone());
    assert!(matrix.row(1).iter().eq(&[0.5, 0.6, 0.7, 0.8]));
    assert_eq!(matrix.shape(), (4, 4));
    for i in 0..4 {
        for j in 0..4 {
            assert_eq!(matrix[(i, j)], real[[i, j]]);
        }
    }
    let reversed = arr.reversed_axes();
    assert_eq!(reversed.strides, (1, 4));
    assert!(reversed.column_major());
    let m = reversed.into_nalgebra().unwrap();
    let column: Vec<f64> = (0..4).map(|i| *m.get(i, 1).unwrap()).collect();
    assert!(column.iter().eq(&[0.5, 0.6, 0.7, 0.8]));
    assert!(m.data.iter().eq(real.iter()));
}

#[test]
fn rectangular_array2_is_rewritten_column_by_column() {
    let arr = Array2::from_shape_vec((2, 3), (3, 1), vec![1, 2, 3, 4, 5, 6]).unwrap();
    let m = arr.into_nalgebra().unwrap();
    assert_eq!((m.nrows, m.ncols), (2, 3));
    assert_eq!(m.data, vec![1, 4, 2, 5, 3, 6]);
    assert_eq!(*m.get(1, 2).unwrap(), 6);
    assert_eq!(m.get(2, 0), None);
    let outside = Array2 { data: vec![1, 2, 3, 4, 5], offset: 0, dim: (2, 3), strides: (3, 1) };
    assert_eq!(outside.into_nalgebra().unwrap_err(), ConvertError::ShapeMismatch);
}

#[test]
fn vector_as_ndarray1() {
    let m = nalgebra::Vector4::new(0.1, 0.2, 0.3, 0.4f32);
    let view = DVectorView { offset: 0, len: m.shape().0, stride: m.strides().0 };
    let arr = view.as_ndarray1().unwrap();
    let items: Vec<f32> = (0..arr.dim).map(|i| *arr.get(m.as_slice(), i).unwrap()).collect();
    assert!(items.iter().eq(&[0.1, 0.2, 0.3, 0.4]));
    assert_eq!(arr.dim, 4);
    let real = ndarray::ArrayView1::from_shape((arr.dim,).strides((arr.stride as usize,)), m.as_slice())
        .unwrap();
    assert!(real.iter().eq(&[0.1, 0.2, 0.3, 0.4]));
}

#[test]
fn vector_as_ndarray1_mut() {
    let mut m = nalgebra::Vector4::new(0.1, 0.2, 0.3, 0.4f32);
    let mut view = DVectorViewMut { offset: 0, len: m.shape().0, stride: m.strides().0 };
    let arr = view.as_ndarray1_mut().unwrap();
    for i in 0..arr.dim {
        assert!(arr.set(m.as_mut_slice(), i, 0.0));
    }
    assert!(m.iter().eq(&[0.0; 4]));
}

#[test]
fn vector_view_into_ndarray1() {
    let m = nalgebra::Vector4::new(0.1, 0.2, 0.3, 0.4f32);
    let rows = m.rows(0, 4);
    let view = DVectorView { offset: 0, len: rows.shape().0, stride: rows.strides().0 };
    let arr = view.into_ndarray1().unwrap();
    let items: Vec<f32> = (0..arr.dim).map(|i| *arr.get(m.as_slice(), i).unwrap()).collect();
    assert!(items.iter().eq(&[0.1, 0.2, 0.3, 0.4]));
    assert_eq!(arr.dim, 4);
}

#[test]
fn stepped_vector_view_into_ndarray1() {
    let mut m = nalgebra::Vector4::new(0.1, 0.2, 0.3, 0.4);
    let (len, stride) = {
        let rows = m.rows_with_step_mut(0, 2, 1);
        (rows.shape().0, rows.strides().0)
    };
    assert_eq!((len, stride), (2, 2));
    let view = DVectorViewMut { offset: 0, len, stride };
    let arr = view.into_ndarray1().unwrap();
    assert_eq!(arr, ArrayViewMut1 { offset: 0, dim: 2, stride: 2 });
    for i in 0..arr.dim {
        assert!(arr.set(m.as_mut_slice(), i, 0.0));
    }
    assert!(m.iter().eq(&[0.0, 0.2, 0.0, 0.4]));
}

#[test]
fn matrix_as_ndarray2() {
    let m = matrix4();
    let view = DMatrixView { offset: 0, shape: m.shape(), strides: m.strides() };
    let arr = view.as_ndarray2().unwrap();
    let row: Vec<f64> = (0..4).map(|j| *arr.get(m.as_slice(), 1, j).unwrap()).collect();
    assert!(row.iter().eq(&[0.5, 0.6, 0.7, 0.8]));
    assert_eq!(arr.dim, (4, 4));
    assert_eq!(arr.strides, (1, 4));
    let real = ndarray::ArrayView2::from_shape(
        arr.dim.strides((arr.strides.0 as usize, arr.strides.1 as usize)),
        m.as_slice(),
    )
    .unwrap();
    assert!(real.row(1).iter().eq(&[0.5, 0.6, 0.7, 0.8]));
}

#[test]
fn matrix_as_ndarray2_mut() {
    let mut m = matrix4();
    let mut view = DMatrixViewMut { offset: 0, shape: m.shape(), strides: m.strides() };
    let arr = view.as_ndarray2_mut().unwrap();
    for j in 0..4 {
        assert!(arr.set(m.as_mut_slice(), 1, j, 0.0));
    }
    assert!(m.row(1).iter().eq(&[0.0; 4]));
    assert!(m.row(0).iter().eq(&[0.1, 0.2, 0.3, 0.4]));
}

#[test]
fn matrix_row_into_ndarray2() {
    let m = matrix4();
    let row = m.row(1);
    let view = DMatrixView { offset: 1, shape: row.shape(), strides: row.strides() };
    let arr = view.into_ndarray2().unwrap();
    assert_eq!(arr.dim, (1, 4));
    let items: Vec<f64> = (0..4).map(|j| *arr.get(m.as_slice(), 0, j).unwrap()).collect();
    assert!(items.iter().eq(&[0.5, 0.6, 0.7, 0.8]));
}

#[test]
fn matrix_row_mut_into_ndarray2() {
    let mut m = matrix4();
    let (shape, strides) = {
        let row = m.row_mut(1);
        (row.shape(), row.strides())
    };
    let view = DMatrixViewMut { offset: 1, shape, strides };
    let arr = view.into_ndarray2().unwrap();
    for j in 0..4 {
        assert!(arr.set(m.as_mut_slice(), 0, j, 0.0));
    }
    assert!(m.row(1).iter().eq(&[0.0; 4]));
    assert!(m.row(2).iter().eq(&[1.1, 1.2, 1.3, 1.4]));
}

#[test]
fn dvector_into_ndarray1() {
    let m = nalgebra::DVector::from_vec(vec![0.1, 0.2, 0.3, 0.4]);
    let storage: Vec<f64> = m.data.into();
    let arr = DVector::from_vec(storage).into_ndarray1();
    assert_eq!(arr.dim, 4);
    let items: Vec<f64> = (0..4).map(|i| *arr.get(i).unwrap()).collect();
    assert!(items.iter().eq(&[0.1, 0.2, 0.3, 0.4]));
    let real = ndarray::Array1::from_shape_vec((arr.dim,), arr.data).unwrap();
    assert!(real.iter().eq(&[0.1, 0.2, 0.3, 0.4]));
}

#[test]
fn dvector_as_ndarray1() {
    let mut v = DVector::from_vec(vec![1, 2, 3]);
    let shared = v.as_ndarray1();
    assert_eq!(shared, ArrayView1 { offset: 0, dim: 3, stride: 1 });
    assert_eq!(*shared.get(&v.data, 2).unwrap(), 3);
    let exclusive = v.as_ndarray1_mut();
    assert!(exclusive.set(&mut v.data, 0, 9));
    assert_eq!(v.get(0), Some(&9));
    assert_eq!(v.get(3), None);
}

#[test]
fn dmatrix_into_ndarray2() {
    let m = nalgebra::DMatrix::<f32>::from_vec(
        3,
        4,
        vec![0.1, 0.2, 0.3, 0.5, 0.6, 0.7, 1.1, 1.2, 1.3, 1.5, 1.6, 1.7],
    );
    let (nrows, ncols) = m.shape();
    let storage: Vec<f32> = m.data.into();
    let arr = DMatrix::from_vec(nrows, ncols, storage).unwrap().into_ndarray2().unwrap();
    assert_eq!(arr.dim, (3, 4));
    assert_eq!(arr.strides, (1, 3));
    let column: Vec<f32> = (0..3).map(|i| *arr.get(i, 0).unwrap()).collect();
    assert!(column.iter().eq(&[0.1, 0.2, 0.3]));
    let row: Vec<f32> = (0..4).map(|j| *arr.get(0, j).unwrap()).collect();
    assert!(row.iter().eq(&[0.1, 0.5, 1.1, 1.5]));
    let real = ndarray::Array2::from_shape_vec(
        arr.dim.strides((arr.strides.0 as usize, arr.strides.1 as usize)),
        arr.data,
    )
    .unwrap();
    assert!(real.column(0).iter().eq(&[0.1, 0.2, 0.3]));
    assert!(real.row(0).iter().eq(&[0.1, 0.5, 1.1, 1.5]));
}

#[test]
fn dmatrix_as_ndarray2() {
    let mut m = DMatrix::from_vec(2, 3, vec![1, 2, 3, 4, 5, 6]).unwrap();
    let shared = m.as_ndarray2().unwrap();
    assert_eq!(shared, ArrayView2 { offset: 0, dim: (2, 3), strides: (1, 2) });
    assert_eq!(*shared.get(&m.data, 1, 2).unwrap(), 6);
    let exclusive = m.as_ndarray2_mut().unwrap();
    assert!(exclusive.set(&mut m.data, 0, 1, 9));
    assert_eq!(m.get(0, 1), Some(&9));
    assert_eq!(m.data, vec![1, 2, 9, 4, 5, 6]);
}

#[test]
fn views_round_trip() {
    let v = ArrayView1 { offset: 2, dim: 5, stride: 3 };
    assert_eq!(v.into_nalgebra().unwrap().into_ndarray1(), Ok(v));
    let v = ArrayViewMut2 { offset: 1, dim: (2, 3), strides: (3, 1) };
    assert_eq!(v.into_nalgebra().unwrap().into_ndarray2(), Ok(v));
    let m = DVectorViewMut { offset: 4, len: 2, stride: 7 };
    assert_eq!(m.into_ndarray1().unwrap().into_nalgebra(), Ok(m));
    let m = DMatrixView { offset: 0, shape: (3, 2), strides: (1, 3) };
    assert_eq!(m.into_ndarray2().unwrap().into_nalgebra(), Ok(m));
}

#[test]
fn owned_round_trip() {
    let arr = Array2::from_shape_vec((2, 3), (3, 1), vec![1, 2, 3, 4, 5, 6]).unwrap();
    let kept = arr.clone();
    let back = arr.into_nalgebra().unwrap().into_ndarray2().unwrap();
    assert_eq!(back.dim, (2, 3));
    for i in 0..2 {
        for j in 0..3 {
            assert_eq!(back.get(i, j), kept.get(i, j));
        }
    }
    let m = DMatrix::from_vec(2, 3, vec![1, 2, 3, 4, 5, 6]).unwrap();
    let again = DMatrix::from_vec(2, 3, vec![1, 2, 3, 4, 5, 6]).unwrap();
    assert_eq!(m.into_ndarray2().unwrap().into_nalgebra().unwrap(), again);
    let v = Array1 { data: vec![0, 1, 2, 3, 4], offset: 4, dim: 3, stride: -2 };
    let back = v.into_nalgebra().unwrap().into_ndarray1();
    assert_eq!((0..3).map(|i| *back.get(i).unwrap()).collect::<Vec<i32>>(), vec![4, 2, 0]);
    let w = DVector::from_vec(vec![7, 8, 9]);
    assert_eq!(w.into_ndarray1().into_nalgebra().unwrap().data, vec![7, 8, 9]);
}
