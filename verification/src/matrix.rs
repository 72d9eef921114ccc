//! Vectors and matrices in the matrix convention: a shape `(rows, columns)`
//! and one unsigned stride per axis. Owned storage is column-major.
//!
//! A view is a descriptor. It holds no reference: the buffer it indexes is
//! handed to `get` and `set`. Whether a view may write is part of its type.

use vstd::prelude::*;
use crate::error::ConvertError;
use crate::strided::Layout;

verus! {

/// View of a column vector. `EXCLUSIVE` tells whether it may write.
#[derive(Clone, Copy, Debug, PartialEq, Eq)]
pub struct VectorView<const EXCLUSIVE: bool> {
    pub offset: usize,
    pub len: usize,
    pub stride: usize,
}

/// View of a matrix, indexed `(row, column)`.
#[derive(Clone, Copy, Debug, PartialEq, Eq)]
pub struct MatrixView<const EXCLUSIVE: bool> {
    pub offset: usize,
    pub shape: (usize, usize),
    pub strides: (usize, usize),
}

pub type DVectorView = VectorView<false>;

pub type DVectorViewMut = VectorView<true>;

pub type DMatrixView = MatrixView<false>;

pub type DMatrixViewMut = MatrixView<true>;

/// Owned column vector.
#[derive(Debug, PartialEq, Eq)]
pub struct DVector<T> {
    pub data: Vec<T>,
}

/// Owned matrix: the element at `(i, j)` lies at `i + j * nrows`.
#[derive(Debug, PartialEq, Eq)]
pub struct DMatrix<T> {
    pub data: Vec<T>,
    pub nrows: usize,
    pub ncols: usize,
}

impl<const EXCLUSIVE: bool> VectorView<EXCLUSIVE> {
    /// The same placement with the two leading axes padded.
    pub open spec fn layout(self) -> Layout {
        Layout { offset: self.offset, dim: (1, 1, self.len), strides: (0, 0, self.stride as i128) }
    }

    /// Position in the buffer of the element at `i`.
    pub open spec fn index(self, i: int) -> int {
        self.offset + i * self.stride
    }

    /// Whether `i` is an index of the view.
    pub open spec fn contains(self, i: int) -> bool {
        0 <= i < self.len
    }

    /// Every element lies inside a buffer of `len` elements.
    pub open spec fn in_bounds(self, len: int) -> bool {
        forall|i: int| self.contains(i) ==> 0 <= #[trigger] self.index(i) < len
    }

    /// The element that the view shows at `i` of the buffer `mem`.
    pub open spec fn read<T>(self, mem: Seq<T>, i: int) -> T {
        mem[self.index(i)]
    }

    /// The buffer after `value` is written through the view at `i`.
    pub open spec fn write<T>(self, mem: Seq<T>, i: int, value: T) -> Seq<T> {
        mem.update(self.index(i), value)
    }

    /// The padded layout fits exactly the buffers that the view fits.
    pub proof fn lemma_layout(self, len: int)
        ensures
            self.layout().in_bounds(len) == self.in_bounds(len),
            forall|i: int| #[trigger] self.layout().index(0, 0, i) == self.index(i),
            forall|i: int| #[trigger] self.layout().contains(0, 0, i) == self.contains(i),
    {
        let l = self.layout();
        if self.in_bounds(len) {
            assert forall|a: int, b: int, i: int| l.contains(a, b, i) implies 0 <= #[trigger] l.index(
                a,
                b,
                i,
            ) < len by {
                assert(self.contains(i));
                assert(l.index(a, b, i) == self.index(i));
            }
        }
        if l.in_bounds(len) {
            assert forall|i: int| self.contains(i) implies 0 <= #[trigger] self.index(i) < len by {
                assert(l.contains(0, 0, i));
                assert(l.index(0, 0, i) == self.index(i));
            }
        }
    }

    /// The same placement with the two leading axes padded.
    pub fn to_layout(&self) -> (r: Layout)
        ensures
            r == self.layout(),
    {
        Layout { offset: self.offset, dim: (1, 1, self.len), strides: (0, 0, self.stride as i128) }
    }
}

impl<const EXCLUSIVE: bool> MatrixView<EXCLUSIVE> {
    /// The same placement with the leading axis padded.
    pub open spec fn layout(self) -> Layout {
        Layout {
            offset: self.offset,
            dim: (1, self.shape.0, self.shape.1),
            strides: (0, self.strides.0 as i128, self.strides.1 as i128),
        }
    }

    /// Position in the buffer of the element at `(i, j)`.
    pub open spec fn index(self, i: int, j: int) -> int {
        self.offset + i * self.strides.0 + j * self.strides.1
    }

    /// Whether `(i, j)` is an index of the view.
    pub open spec fn contains(self, i: int, j: int) -> bool {
        0 <= i < self.shape.0 && 0 <= j < self.shape.1
    }

    /// Every element lies inside a buffer of `len` elements.
    pub open spec fn in_bounds(self, len: int) -> bool {
        forall|i: int, j: int| self.contains(i, j) ==> 0 <= #[trigger] self.index(i, j) < len
    }

    /// The element that the view shows at `(i, j)` of the buffer `mem`.
    pub open spec fn read<T>(self, mem: Seq<T>, i: int, j: int) -> T {
        mem[self.index(i, j)]
    }

    /// The buffer after `value` is written through the view at `(i, j)`.
    pub open spec fn write<T>(self, mem: Seq<T>, i: int, j: int, value: T) -> Seq<T> {
        mem.update(self.index(i, j), value)
    }

    /// The padded layout fits exactly the buffers that the view fits.
    pub proof fn lemma_layout(self, len: int)
        ensures
            self.layout().in_bounds(len) == self.in_bounds(len),
            forall|i: int, j: int| #[trigger] self.layout().index(0, i, j) == self.index(i, j),
            forall|i: int, j: int| #[trigger] self.layout().contains(0, i, j) == self.contains(i, j),
    {
        let l = self.layout();
        if self.in_bounds(len) {
            assert forall|a: int, i: int, j: int| l.contains(a, i, j) implies 0 <= #[trigger] l.index(
                a,
                i,
                j,
            ) < len by {
                assert(self.contains(i, j));
                assert(l.index(a, i, j) == self.index(i, j));
            }
        }
        if l.in_bounds(len) {
            assert forall|i: int, j: int| self.contains(i, j) implies 0 <= #[trigger] self.index(
                i,
                j,
            ) < len by {
                assert(l.contains(0, i, j));
                assert(l.index(0, i, j) == self.index(i, j));
            }
        }
    }

    /// The same placement with the leading axis padded.
    pub fn to_layout(&self) -> (r: Layout)
        ensures
            r == self.layout(),
    {
        Layout {
            offset: self.offset,
            dim: (1, self.shape.0, self.shape.1),
            strides: (0, self.strides.0 as i128, self.strides.1 as i128),
        }
    }
}

impl<const EXCLUSIVE: bool> VectorView<EXCLUSIVE> {
    /// Whether every element lies inside a buffer of `len` elements.
    pub fn fits(&self, len: usize) -> (r: bool)
        ensures
            r == self.in_bounds(len as int),
    {
        proof {
            self.lemma_layout(len as int);
        }
        self.to_layout().fits(len)
    }

    /// The element at `i` of the buffer `data`, where `i` is an index of
    /// the view and the view fits the buffer.
    pub fn get<'a, T>(&self, data: &'a [T], i: usize) -> (r: Option<&'a T>)
        ensures
            r == (if self.contains(i as int) && self.in_bounds(data@.len() as int) {
                Some(&self.read(data@, i as int))
            } else {
                None
            }),
    {
        proof {
            self.lemma_layout(data@.len() as int);
        }
        self.to_layout().get(data, 0, 0, i)
    }
}

impl VectorView<true> {
    /// Writes `value` at `i` of the buffer `data`, where `i` is an index
    /// of the view and the view fits the buffer, and says whether it did.
    pub fn set<T>(&self, data: &mut [T], i: usize, value: T) -> (done: bool)
        ensures
            done == (self.contains(i as int) && self.in_bounds(old(data)@.len() as int)),
            final(data)@ == (if done {
                self.write(old(data)@, i as int, value)
            } else {
                old(data)@
            }),
    {
        proof {
            self.lemma_layout(data@.len() as int);
        }
        self.to_layout().set(data, 0, 0, i, value)
    }
}

impl<const EXCLUSIVE: bool> MatrixView<EXCLUSIVE> {
    /// Whether every element lies inside a buffer of `len` elements.
    pub fn fits(&self, len: usize) -> (r: bool)
        ensures
            r == self.in_bounds(len as int),
    {
        proof {
            self.lemma_layout(len as int);
        }
        self.to_layout().fits(len)
    }

    /// The element at `(i, j)` of the buffer `data`, where `(i, j)` is an
    /// index of the view and the view fits the buffer.
    pub fn get<'a, T>(&self, data: &'a [T], i: usize, j: usize) -> (r: Option<&'a T>)
        ensures
            r == (if self.contains(i as int, j as int) && self.in_bounds(data@.len() as int) {
                Some(&self.read(data@, i as int, j as int))
            } else {
                None
            }),
    {
        proof {
            self.lemma_layout(data@.len() as int);
        }
        self.to_layout().get(data, 0, i, j)
    }
}

impl MatrixView<true> {
    /// Writes `value` at `(i, j)` of the buffer `data`, where `(i, j)` is
    /// an index of the view and the view fits the buffer, and says whether
    /// it did.
    pub fn set<T>(&self, data: &mut [T], i: usize, j: usize, value: T) -> (done: bool)
        ensures
            done == (self.contains(i as int, j as int) && self.in_bounds(
                old(data)@.len() as int,
            )),
            final(data)@ == (if done {
                self.write(old(data)@, i as int, j as int, value)
            } else {
                old(data)@
            }),
    {
        proof {
            self.lemma_layout(data@.len() as int);
        }
        self.to_layout().set(data, 0, i, j, value)
    }
}

impl<T> DVector<T> {
    /// The element at `i`.
    pub open spec fn at(self, i: int) -> T {
        self.data@[i]
    }
}

impl<T> DMatrix<T> {
    /// The buffer holds exactly the elements of the shape.
    pub open spec fn wf(self) -> bool {
        self.data@.len() == self.nrows * self.ncols
    }

    /// Whether `(i, j)` is an index of the matrix.
    pub open spec fn contains(self, i: int, j: int) -> bool {
        0 <= i < self.nrows && 0 <= j < self.ncols
    }

    /// The element at `(i, j)`.
    pub open spec fn at(self, i: int, j: int) -> T {
        self.data@[i + j * self.nrows]
    }
}

impl<T> DVector<T> {
    /// The vector of all elements of `data` in their order.
    pub fn from_vec(data: Vec<T>) -> (r: Self)
        ensures
            r.data@ == data@,
    {
        DVector { data }
    }

    /// The element at `i`, where there is one.
    pub fn get(&self, i: usize) -> (r: Option<&T>)
        ensures
            r == (if i < self.data@.len() {
                Some(&self.at(i as int))
            } else {
                None
            }),
    {
        if i < self.data.len() {
            Some(&self.data[i])
        } else {
            None
        }
    }
}

impl<T> DMatrix<T> {
    /// The matrix of `nrows` rows and `ncols` columns over `data`, read
    /// column by column. It is refused with `ShapeMismatch` exactly when
    /// `data` does not hold `nrows * ncols` elements.
    pub fn from_vec(nrows: usize, ncols: usize, data: Vec<T>) -> (r: Result<Self, ConvertError>)
        ensures
            r is Ok <==> data@.len() == nrows * ncols,
            r matches Err(e) ==> e == ConvertError::ShapeMismatch,
            r matches Ok(m) ==> m.data@ == data@ && m.nrows == nrows && m.ncols == ncols && m.wf(),
    {
        assert(nrows * ncols <= 0xffff_ffff_ffff_ffff * 0xffff_ffff_ffff_ffff) by (nonlinear_arith)
            requires
                0 <= nrows <= 0xffff_ffff_ffff_ffff,
                0 <= ncols <= 0xffff_ffff_ffff_ffff,
        ;
        let count: u128 = (nrows as u128) * (ncols as u128);
        if data.len() as u128 == count {
            Ok(DMatrix { data, nrows, ncols })
        } else {
            Err(ConvertError::ShapeMismatch)
        }
    }

    /// The element at `(i, j)`, where `(i, j)` is an index of the matrix
    /// and the buffer holds exactly the elements of the shape.
    pub fn get(&self, i: usize, j: usize) -> (r: Option<&T>)
        ensures
            r == (if self.contains(i as int, j as int) && self.wf() {
                Some(&self.at(i as int, j as int))
            } else {
                None
            }),
    {
        assert(self.nrows * self.ncols <= 0xffff_ffff_ffff_ffff * 0xffff_ffff_ffff_ffff)
            by (nonlinear_arith)
            requires
                0 <= self.nrows <= 0xffff_ffff_ffff_ffff,
                0 <= self.ncols <= 0xffff_ffff_ffff_ffff,
        ;
        let count: u128 = (self.nrows as u128) * (self.ncols as u128);
        if i < self.nrows && j < self.ncols && self.data.len() as u128 == count {
            assert(0 <= i + j * self.nrows < self.nrows * self.ncols) by (nonlinear_arith)
                requires
                    0 <= i < self.nrows,
                    0 <= j < self.ncols,
            ;
            let p: usize = i + j * self.nrows;
            Some(&self.data[p])
        } else {
            None
        }
    }
}

} // verus!
