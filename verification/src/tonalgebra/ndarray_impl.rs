//! Arrays and array views seen as vectors and matrices.
//!
//! A view keeps its memory: shape and offset carry over and every stride
//! changes its type from signed to unsigned. A negative stride has no
//! unsigned form and is refused.
//!
//! An owned array hands over its buffer where the elements already stand in
//! the order of the target. Where they do not, a new buffer is filled: each
//! element is read through the strides of the source and written at its
//! place in the packed order of the target.

use vstd::prelude::*;
use crate::array::{Array1, Array2, View1, View2};
use crate::error::ConvertError;
use crate::matrix::{DMatrix, DVector, MatrixView, VectorView};
use crate::strided::packed_index;
use crate::tonalgebra::ToNalgebra;

verus! {

impl<const EXCLUSIVE: bool> View1<EXCLUSIVE> {
    /// The vector view of the same elements, where there is one.
    pub open spec fn to_nalgebra(self) -> Result<VectorView<EXCLUSIVE>, ConvertError> {
        if self.stride < 0 {
            Err(ConvertError::NegativeStride)
        } else {
            Ok(VectorView { offset: self.offset, len: self.dim, stride: self.stride as usize })
        }
    }
}

impl<const EXCLUSIVE: bool> View2<EXCLUSIVE> {
    /// The matrix view of the same elements, where there is one.
    pub open spec fn to_nalgebra(self) -> Result<MatrixView<EXCLUSIVE>, ConvertError> {
        if self.strides.0 < 0 || self.strides.1 < 0 {
            Err(ConvertError::NegativeStride)
        } else {
            Ok(
                MatrixView {
                    offset: self.offset,
                    shape: self.dim,
                    strides: (self.strides.0 as usize, self.strides.1 as usize),
                },
            )
        }
    }
}

impl<const EXCLUSIVE: bool> ToNalgebra for View1<EXCLUSIVE> {
    type Out = Result<VectorView<EXCLUSIVE>, ConvertError>;

    /// A view with the access of the source onto the same elements: it is
    /// refused with `NegativeStride` exactly when the stride is negative.
    fn into_nalgebra(self) -> (r: Self::Out)
        ensures
            r == self.to_nalgebra(),
            r is Err <==> self.stride < 0,
            r matches Ok(v) ==> v.len == self.dim && forall|i: int|
                #[trigger] v.index(i) == self.index(i),
    {
        if self.stride < 0 {
            return Err(ConvertError::NegativeStride);
        }
        let stride: usize = self.stride as usize;
        Ok(VectorView { offset: self.offset, len: self.dim, stride })
    }
}

impl<const EXCLUSIVE: bool> ToNalgebra for View2<EXCLUSIVE> {
    type Out = Result<MatrixView<EXCLUSIVE>, ConvertError>;

    /// A view with the access of the source onto the same elements: it is
    /// refused with `NegativeStride` exactly when a stride is negative.
    fn into_nalgebra(self) -> (r: Self::Out)
        ensures
            r == self.to_nalgebra(),
            r is Err <==> self.strides.0 < 0 || self.strides.1 < 0,
            r matches Ok(m) ==> m.shape == self.dim && forall|i: int, j: int|
                #[trigger] m.index(i, j) == self.index(i, j),
    {
        if self.strides.0 < 0 {
            return Err(ConvertError::NegativeStride);
        }
        if self.strides.1 < 0 {
            return Err(ConvertError::NegativeStride);
        }
        let row_stride: usize = self.strides.0 as usize;
        let col_stride: usize = self.strides.1 as usize;
        Ok(MatrixView { offset: self.offset, shape: self.dim, strides: (row_stride, col_stride) })
    }
}

impl<T> Array1<T> {
    /// The array and the vector show the same elements in the same order.
    pub open spec fn agrees_with_vector(self, v: DVector<T>) -> bool {
        &&& v.data@.len() == self.dim
        &&& forall|i: int| 0 <= i < self.dim ==> #[trigger] v.at(i) == self.at(i)
    }

    /// The buffer holds the elements in their order and nothing else.
    pub open spec fn is_packed(self) -> bool {
        self.offset == 0 && self.data@.len() == self.dim && (self.dim <= 1 || self.stride == 1)
    }

    /// Whether the buffer holds the elements in their order and nothing else.
    pub fn packed(&self) -> (r: bool)
        ensures
            r == self.is_packed(),
    {
        self.offset == 0 && self.data.len() == self.dim && (self.dim <= 1 || self.stride == 1)
    }
}

impl<T> Array2<T> {
    /// The array and the matrix have the same shape and show the same
    /// element at every index.
    pub open spec fn agrees_with_matrix(self, m: DMatrix<T>) -> bool {
        &&& m.wf()
        &&& m.nrows == self.dim.0
        &&& m.ncols == self.dim.1
        &&& forall|i: int, j: int| #[trigger] m.contains(i, j) ==> m.at(i, j) == self.at(i, j)
    }

    /// The buffer holds the elements column by column and nothing else.
    pub open spec fn is_column_major(self) -> bool {
        &&& self.offset == 0
        &&& self.data@.len() == self.dim.0 * self.dim.1
        &&& self.dim.0 <= 1 || self.strides.0 == 1
        &&& self.dim.1 <= 1 || self.strides.1 == self.dim.0
    }

    /// Whether the buffer holds the elements column by column and nothing
    /// else.
    pub fn column_major(&self) -> (r: bool)
        ensures
            r == self.is_column_major(),
    {
        assert(self.dim.0 * self.dim.1 <= 0xffff_ffff_ffff_ffff * 0xffff_ffff_ffff_ffff)
            by (nonlinear_arith)
            requires
                0 <= self.dim.0 <= 0xffff_ffff_ffff_ffff,
                0 <= self.dim.1 <= 0xffff_ffff_ffff_ffff,
        ;
        let count: u128 = (self.dim.0 as u128) * (self.dim.1 as u128);
        self.offset == 0 && self.data.len() as u128 == count && (self.dim.0 <= 1 || self.strides.0
            == 1) && (self.dim.1 <= 1 || (self.strides.1 >= 0 && self.strides.1 as usize
            == self.dim.0))
    }
}

impl<T: Copy> ToNalgebra for Array1<T> {
    type Out = Result<DVector<T>, ConvertError>;

    /// The vector of the same elements in the same order. It is refused
    /// with `ShapeMismatch` exactly when an element lies outside the buffer.
    /// A packed array hands its buffer over.
    fn into_nalgebra(self) -> (r: Self::Out)
        ensures
            r is Err <==> !self.wf(),
            r matches Err(e) ==> e == ConvertError::ShapeMismatch,
            r matches Ok(v) ==> {
                &&& self.agrees_with_vector(v)
                &&& self.is_packed() ==> v.data@ == self.data@
            },
    {
        if !self.is_well_formed() {
            return Err(ConvertError::ShapeMismatch);
        }
        if self.packed() {
            proof {
                assert forall|i: int| 0 <= i < self.dim implies self.view().index(i) == i by {
                    assert(i * self.stride == i) by (nonlinear_arith)
                        requires
                            0 <= i < self.dim,
                            self.dim <= 1 || self.stride == 1,
                    ;
                }
            }
            return Ok(DVector { data: self.data });
        }
        let layout = self.view().to_layout();
        proof {
            self.view().lemma_layout(self.data@.len() as int);
        }
        let out: Vec<T> = layout.gather(self.data.as_slice());
        proof {
            assert(layout.size() == self.dim) by (nonlinear_arith)
                requires
                    layout.size() == 1 * 1 * self.dim,
            ;
            assert forall|i: int| 0 <= i < self.dim implies #[trigger] out@[i] == self.at(i) by {
                assert(packed_index(1, self.dim as int, 0, 0, i) == i) by (nonlinear_arith);
                assert(layout.contains(0, 0, i));
                assert(out@[packed_index(1, self.dim as int, 0, 0, i)] == self.data@[layout.index(
                    0,
                    0,
                    i,
                )]);
            }
        }
        Ok(DVector { data: out })
    }
}

impl<T: Copy> ToNalgebra for Array2<T> {
    type Out = Result<DMatrix<T>, ConvertError>;

    /// The matrix of the same shape with the same element at every index.
    /// It is refused with `ShapeMismatch` exactly when an element lies
    /// outside the buffer. An array in column-major order hands its buffer
    /// over; any other is rewritten column by column.
    fn into_nalgebra(self) -> (r: Self::Out)
        ensures
            r is Err <==> !self.wf(),
            r matches Err(e) ==> e == ConvertError::ShapeMismatch,
            r matches Ok(m) ==> {
                &&& self.agrees_with_matrix(m)
                &&& self.is_column_major() ==> m.data@ == self.data@
            },
    {
        if !self.is_well_formed() {
            return Err(ConvertError::ShapeMismatch);
        }
        let (nrows, ncols) = self.dim;
        if self.column_major() {
            proof {
                assert forall|i: int, j: int| 0 <= i < nrows && 0 <= j < ncols implies
                    #[trigger] self.view().index(i, j) == i + j * nrows by {
                    assert(i * self.strides.0 == i) by (nonlinear_arith)
                        requires
                            0 <= i < nrows,
                            nrows <= 1 || self.strides.0 == 1,
                    ;
                    assert(j * self.strides.1 == j * nrows) by (nonlinear_arith)
                        requires
                            0 <= j < ncols,
                            ncols <= 1 || self.strides.1 == nrows,
                    ;
                }
            }
            return Ok(DMatrix { data: self.data, nrows, ncols });
        }
        let layout = self.view().to_layout().to_swapped();
        proof {
            self.view().lemma_layout(self.data@.len() as int);
            self.view().layout().lemma_swapped(self.data@.len() as int);
        }
        let out: Vec<T> = layout.gather(self.data.as_slice());
        proof {
            assert(layout.size() == nrows * ncols) by (nonlinear_arith)
                requires
                    layout.size() == 1 * ncols * nrows,
            ;
            assert forall|i: int, j: int| 0 <= i < nrows && 0 <= j < ncols implies #[trigger] out@[i
                + j * nrows] == self.at(i, j) by {
                assert(packed_index(ncols as int, nrows as int, 0, j, i) == i + j * nrows)
                    by (nonlinear_arith);
                assert(layout.contains(0, j, i));
                assert(layout.index(0, j, i) == self.view().layout().index(0, i, j));
                assert(out@[packed_index(ncols as int, nrows as int, 0, j, i)]
                    == self.data@[layout.index(0, j, i)]);
            }
        }
        Ok(DMatrix { data: out, nrows, ncols })
    }
}

} // verus!
