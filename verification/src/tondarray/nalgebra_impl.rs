//! Vectors, matrices and their views seen as arrays.
//!
//! A view keeps its memory: shape and offset carry over and every stride
//! changes its type from unsigned to signed. A stride that no signed stride
//! can hold is refused. Owned storage is handed over as it is and read in
//! column-major order.

use vstd::prelude::*;
use crate::array::{Array1, Array2, ArrayView1, ArrayView2, ArrayViewMut1, ArrayViewMut2, View1, View2};
use crate::error::ConvertError;
use crate::matrix::{DMatrix, DVector, MatrixView, VectorView};
use crate::tondarray::{AsNdarray1, AsNdarray1Mut, AsNdarray2, AsNdarray2Mut, IntoNdarray1, IntoNdarray2};

verus! {

impl<const EXCLUSIVE: bool> VectorView<EXCLUSIVE> {
    /// The array view of the same elements with the access `ACCESS`, where
    /// there is one.
    pub open spec fn to_ndarray<const ACCESS: bool>(self) -> Result<View1<ACCESS>, ConvertError> {
        if self.stride > isize::MAX {
            Err(ConvertError::StrideOverflow)
        } else {
            Ok(View1 { offset: self.offset, dim: self.len, stride: self.stride as isize })
        }
    }

    /// The array view of the same elements with the access `ACCESS`.
    pub fn view1<const ACCESS: bool>(&self) -> (r: Result<View1<ACCESS>, ConvertError>)
        ensures
            r == self.to_ndarray::<ACCESS>(),
            r is Err <==> self.stride > isize::MAX,
            r matches Ok(v) ==> v.dim == self.len && forall|i: int|
                #[trigger] v.index(i) == self.index(i),
    {
        if self.stride > isize::MAX as usize {
            return Err(ConvertError::StrideOverflow);
        }
        Ok(View1 { offset: self.offset, dim: self.len, stride: self.stride as isize })
    }
}

impl<const EXCLUSIVE: bool> MatrixView<EXCLUSIVE> {
    /// The array view of the same elements with the access `ACCESS`, where
    /// there is one.
    pub open spec fn to_ndarray<const ACCESS: bool>(self) -> Result<View2<ACCESS>, ConvertError> {
        if self.strides.0 > isize::MAX || self.strides.1 > isize::MAX {
            Err(ConvertError::StrideOverflow)
        } else {
            Ok(
                View2 {
                    offset: self.offset,
                    dim: self.shape,
                    strides: (self.strides.0 as isize, self.strides.1 as isize),
                },
            )
        }
    }

    /// The array view of the same elements with the access `ACCESS`.
    pub fn view2<const ACCESS: bool>(&self) -> (r: Result<View2<ACCESS>, ConvertError>)
        ensures
            r == self.to_ndarray::<ACCESS>(),
            r is Err <==> self.strides.0 > isize::MAX || self.strides.1 > isize::MAX,
            r matches Ok(v) ==> v.dim == self.shape && forall|i: int, j: int|
                #[trigger] v.index(i, j) == self.index(i, j),
    {
        if self.strides.0 > isize::MAX as usize {
            return Err(ConvertError::StrideOverflow);
        }
        if self.strides.1 > isize::MAX as usize {
            return Err(ConvertError::StrideOverflow);
        }
        Ok(
            View2 {
                offset: self.offset,
                dim: self.shape,
                strides: (self.strides.0 as isize, self.strides.1 as isize),
            },
        )
    }
}

impl<T> DVector<T> {
    /// The array view of all elements with the access `ACCESS`.
    pub open spec fn to_ndarray<const ACCESS: bool>(self) -> View1<ACCESS> {
        View1 { offset: 0, dim: self.data@.len() as usize, stride: 1 }
    }

    /// The array view of all elements with the access `ACCESS`.
    pub fn view1<const ACCESS: bool>(&self) -> (r: View1<ACCESS>)
        ensures
            r == self.to_ndarray::<ACCESS>(),
            r.dim == self.data@.len(),
            r.in_bounds(self.data@.len() as int),
            forall|i: int| #[trigger] r.index(i) == i,
    {
        let r = View1 { offset: 0, dim: self.data.len(), stride: 1 };
        assert forall|i: int| #[trigger] r.index(i) == i by {
            assert(i * 1 == i) by (nonlinear_arith);
        }
        r
    }
}

impl<T> DMatrix<T> {
    /// The array view of all elements with the access `ACCESS`, where there
    /// is one.
    pub open spec fn to_ndarray<const ACCESS: bool>(self) -> Result<View2<ACCESS>, ConvertError> {
        if !self.wf() {
            Err(ConvertError::ShapeMismatch)
        } else if self.nrows > isize::MAX {
            Err(ConvertError::StrideOverflow)
        } else {
            Ok(View2 { offset: 0, dim: (self.nrows, self.ncols), strides: (1, self.nrows as isize) })
        }
    }

    /// The view reaches each element of the buffer in column-major order.
    pub proof fn lemma_to_ndarray<const ACCESS: bool>(self)
        requires
            self.to_ndarray::<ACCESS>() is Ok,
        ensures
            self.to_ndarray::<ACCESS>().unwrap().in_bounds(self.data@.len() as int),
            forall|i: int, j: int| #[trigger]
                self.to_ndarray::<ACCESS>().unwrap().index(i, j) == i + j * self.nrows,
    {
        let v = self.to_ndarray::<ACCESS>().unwrap();
        assert forall|i: int, j: int| #[trigger] v.index(i, j) == i + j * self.nrows by {
            assert(i * 1 == i) by (nonlinear_arith);
        }
        assert forall|i: int, j: int| v.contains(i, j) implies 0 <= #[trigger] v.index(i, j)
            < self.data@.len() by {
            assert(0 <= i + j * self.nrows < self.nrows * self.ncols) by (nonlinear_arith)
                requires
                    0 <= i < self.nrows,
                    0 <= j < self.ncols,
            ;
        }
    }

    /// Whether the buffer holds exactly the elements of the shape.
    pub fn is_well_formed(&self) -> (r: bool)
        ensures
            r == self.wf(),
    {
        assert(self.nrows * self.ncols <= 0xffff_ffff_ffff_ffff * 0xffff_ffff_ffff_ffff)
            by (nonlinear_arith)
            requires
                0 <= self.nrows <= 0xffff_ffff_ffff_ffff,
                0 <= self.ncols <= 0xffff_ffff_ffff_ffff,
        ;
        let count: u128 = (self.nrows as u128) * (self.ncols as u128);
        count == self.data.len() as u128
    }

    /// The array view of all elements with the access `ACCESS`.
    pub fn view2<const ACCESS: bool>(&self) -> (r: Result<View2<ACCESS>, ConvertError>)
        ensures
            r == self.to_ndarray::<ACCESS>(),
            r matches Ok(v) ==> {
                &&& v.in_bounds(self.data@.len() as int)
                &&& forall|i: int, j: int| #[trigger] v.index(i, j) == i + j * self.nrows
            },
    {
        if !self.is_well_formed() {
            return Err(ConvertError::ShapeMismatch);
        }
        if self.nrows > isize::MAX as usize {
            return Err(ConvertError::StrideOverflow);
        }
        proof {
            self.lemma_to_ndarray::<ACCESS>();
        }
        Ok(View2 { offset: 0, dim: (self.nrows, self.ncols), strides: (1, self.nrows as isize) })
    }
}

impl<const EXCLUSIVE: bool> AsNdarray1 for VectorView<EXCLUSIVE> {
    type Out = Result<ArrayView1, ConvertError>;

    /// A shared view onto the same elements: it is refused with
    /// `StrideOverflow` exactly when the stride is no signed stride.
    fn as_ndarray1(&self) -> (r: Self::Out)
        ensures
            r == self.to_ndarray::<false>(),
            r is Err <==> self.stride > isize::MAX,
            r matches Ok(v) ==> v.dim == self.len && forall|i: int|
                #[trigger] v.index(i) == self.index(i),
    {
        self.view1::<false>()
    }
}

impl AsNdarray1Mut for VectorView<true> {
    type Out = Result<ArrayViewMut1, ConvertError>;

    /// An exclusive view onto the same elements: it is refused with
    /// `StrideOverflow` exactly when the stride is no signed stride.
    fn as_ndarray1_mut(&mut self) -> (r: Self::Out)
        ensures
            *final(self) == *old(self),
            r == old(self).to_ndarray::<true>(),
            r is Err <==> old(self).stride > isize::MAX,
            r matches Ok(v) ==> v.dim == old(self).len && forall|i: int|
                #[trigger] v.index(i) == old(self).index(i),
    {
        self.view1::<true>()
    }
}

impl<const EXCLUSIVE: bool> IntoNdarray1 for VectorView<EXCLUSIVE> {
    type Out = Result<View1<EXCLUSIVE>, ConvertError>;

    /// A view with the access of the source onto the same elements: it is
    /// refused with `StrideOverflow` exactly when the stride is no signed
    /// stride.
    fn into_ndarray1(self) -> (r: Self::Out)
        ensures
            r == self.to_ndarray::<EXCLUSIVE>(),
            r is Err <==> self.stride > isize::MAX,
            r matches Ok(v) ==> v.dim == self.len && forall|i: int|
                #[trigger] v.index(i) == self.index(i),
    {
        self.view1::<EXCLUSIVE>()
    }
}

impl<const EXCLUSIVE: bool> AsNdarray2 for MatrixView<EXCLUSIVE> {
    type Out = Result<ArrayView2, ConvertError>;

    /// A shared view onto the same elements: it is refused with
    /// `StrideOverflow` exactly when a stride is no signed stride.
    fn as_ndarray2(&self) -> (r: Self::Out)
        ensures
            r == self.to_ndarray::<false>(),
            r is Err <==> self.strides.0 > isize::MAX || self.strides.1 > isize::MAX,
            r matches Ok(v) ==> v.dim == self.shape && forall|i: int, j: int|
                #[trigger] v.index(i, j) == self.index(i, j),
    {
        self.view2::<false>()
    }
}

impl AsNdarray2Mut for MatrixView<true> {
    type Out = Result<ArrayViewMut2, ConvertError>;

    /// An exclusive view onto the same elements: it is refused with
    /// `StrideOverflow` exactly when a stride is no signed stride.
    fn as_ndarray2_mut(&mut self) -> (r: Self::Out)
        ensures
            *final(self) == *old(self),
            r == old(self).to_ndarray::<true>(),
            r is Err <==> old(self).strides.0 > isize::MAX || old(self).strides.1 > isize::MAX,
            r matches Ok(v) ==> v.dim == old(self).shape && forall|i: int, j: int|
                #[trigger] v.index(i, j) == old(self).index(i, j),
    {
        self.view2::<true>()
    }
}

impl<const EXCLUSIVE: bool> IntoNdarray2 for MatrixView<EXCLUSIVE> {
    type Out = Result<View2<EXCLUSIVE>, ConvertError>;

    /// A view with the access of the source onto the same elements: it is
    /// refused with `StrideOverflow` exactly when a stride is no signed
    /// stride.
    fn into_ndarray2(self) -> (r: Self::Out)
        ensures
            r == self.to_ndarray::<EXCLUSIVE>(),
            r is Err <==> self.strides.0 > isize::MAX || self.strides.1 > isize::MAX,
            r matches Ok(v) ==> v.dim == self.shape && forall|i: int, j: int|
                #[trigger] v.index(i, j) == self.index(i, j),
    {
        self.view2::<EXCLUSIVE>()
    }
}

impl<T> AsNdarray1 for DVector<T> {
    type Out = ArrayView1;

    /// The shared view onto all elements, inside the buffer.
    fn as_ndarray1(&self) -> (r: Self::Out)
        ensures
            r == self.to_ndarray::<false>(),
            r.dim == self.data@.len(),
            r.in_bounds(self.data@.len() as int),
            forall|i: int| #[trigger] r.index(i) == i,
    {
        self.view1::<false>()
    }
}

impl<T> AsNdarray1Mut for DVector<T> {
    type Out = ArrayViewMut1;

    /// The exclusive view onto all elements, inside the buffer. The vector
    /// itself is left as it is.
    fn as_ndarray1_mut(&mut self) -> (r: Self::Out)
        ensures
            *final(self) == *old(self),
            r == old(self).to_ndarray::<true>(),
            r.dim == old(self).data@.len(),
            r.in_bounds(old(self).data@.len() as int),
            forall|i: int| #[trigger] r.index(i) == i,
    {
        self.view1::<true>()
    }
}

impl<T> AsNdarray2 for DMatrix<T> {
    type Out = Result<ArrayView2, ConvertError>;

    /// The shared view onto all elements, inside the buffer: it reaches at
    /// `(i, j)` the element at `i + j * nrows`.
    fn as_ndarray2(&self) -> (r: Self::Out)
        ensures
            r == self.to_ndarray::<false>(),
            r matches Ok(v) ==> {
                &&& v.in_bounds(self.data@.len() as int)
                &&& forall|i: int, j: int| #[trigger] v.index(i, j) == i + j * self.nrows
            },
    {
        self.view2::<false>()
    }
}

impl<T> AsNdarray2Mut for DMatrix<T> {
    type Out = Result<ArrayViewMut2, ConvertError>;

    /// The exclusive view onto all elements, inside the buffer: it reaches
    /// at `(i, j)` the element at `i + j * nrows`. The matrix itself is left
    /// as it is.
    fn as_ndarray2_mut(&mut self) -> (r: Self::Out)
        ensures
            *final(self) == *old(self),
            r == old(self).to_ndarray::<true>(),
            r matches Ok(v) ==> {
                &&& v.in_bounds(old(self).data@.len() as int)
                &&& forall|i: int, j: int| #[trigger] v.index(i, j) == i + j * old(self).nrows
            },
    {
        self.view2::<true>()
    }
}

impl<T> IntoNdarray1 for DVector<T> {
    type Out = Array1<T>;

    /// The array over the same buffer, with the same elements in the same
    /// order.
    fn into_ndarray1(self) -> (r: Self::Out)
        ensures
            r.view() == self.to_ndarray::<false>(),
            r.data@ == self.data@,
            r.wf(),
            r.agrees_with_vector(self),
    {
        let v = self.view1::<false>();
        let ghost vector = self;
        let r = Array1 { data: self.data, offset: v.offset, dim: v.dim, stride: v.stride };
        proof {
            assert forall|i: int| 0 <= i < r.dim implies #[trigger] vector.at(i) == r.at(i) by {
                assert(v.index(i) == i);
                assert(r.view().index(i) == i);
            }
        }
        r
    }
}

impl<T> IntoNdarray2 for DMatrix<T> {
    type Out = Result<Array2<T>, ConvertError>;

    /// The array over the same buffer, with the shape of the matrix and the
    /// same element at every index. The strides are those of column-major
    /// order.
    fn into_ndarray2(self) -> (r: Self::Out)
        ensures
            r is Ok == self.to_ndarray::<false>() is Ok,
            r matches Err(e) ==> self.to_ndarray::<false>() == Err::<ArrayView2, _>(e),
            r matches Ok(a) ==> {
                &&& Ok::<_, ConvertError>(a.view()) == self.to_ndarray::<false>()
                &&& a.data@ == self.data@
                &&& a.wf()
                &&& a.agrees_with_matrix(self)
            },
    {
        let view = self.view2::<false>();
        match view {
            Err(e) => Err(e),
            Ok(v) => Ok(
                Array2 { data: self.data, offset: v.offset, dim: v.dim, strides: v.strides },
            ),
        }
    }
}

} // verus!
