//! Arrays in the array convention: extents in index order, one signed
//! stride per axis, and for three axes the order `(channel, row, column)`.
//!
//! A view is a descriptor. It holds no reference: the buffer it indexes is
//! handed to `get` and `set`. Whether a view may write is part of its type.

use vstd::prelude::*;
use crate::error::ConvertError;
use crate::strided::Layout;

verus! {

/// View of one axis. `EXCLUSIVE` tells whether it may write.
#[derive(Clone, Copy, Debug, PartialEq, Eq)]
pub struct View1<const EXCLUSIVE: bool> {
    pub offset: usize,
    pub dim: usize,
    pub stride: isize,
}

/// View of two axes, indexed `(row, column)`.
#[derive(Clone, Copy, Debug, PartialEq, Eq)]
pub struct View2<const EXCLUSIVE: bool> {
    pub offset: usize,
    pub dim: (usize, usize),
    pub strides: (isize, isize),
}

/// View of three axes, indexed `(channel, row, column)`.
#[derive(Clone, Copy, Debug, PartialEq, Eq)]
pub struct View3<const EXCLUSIVE: bool> {
    pub offset: usize,
    pub dim: (usize, usize, usize),
    pub strides: (isize, isize, isize),
}

pub type ArrayView1 = View1<false>;

pub type ArrayViewMut1 = View1<true>;

pub type ArrayView2 = View2<false>;

pub type ArrayViewMut2 = View2<true>;

pub type ArrayView3 = View3<false>;

pub type ArrayViewMut3 = View3<true>;

/// Owned array of one axis.
#[derive(Debug, PartialEq, Eq)]
pub struct Array1<T> {
    pub data: Vec<T>,
    pub offset: usize,
    pub dim: usize,
    pub stride: isize,
}

/// Owned array of two axes, indexed `(row, column)`.
#[derive(Debug, PartialEq, Eq)]
pub struct Array2<T> {
    pub data: Vec<T>,
    pub offset: usize,
    pub dim: (usize, usize),
    pub strides: (isize, isize),
}

/// Owned array of three axes, indexed `(channel, row, column)`.
#[derive(Debug, PartialEq, Eq)]
pub struct Array3<T> {
    pub data: Vec<T>,
    pub offset: usize,
    pub dim: (usize, usize, usize),
    pub strides: (isize, isize, isize),
}

impl<const EXCLUSIVE: bool> View1<EXCLUSIVE> {
    /// The same placement with the two leading axes padded.
    pub open spec fn layout(self) -> Layout {
        Layout { offset: self.offset, dim: (1, 1, self.dim), strides: (0, 0, self.stride as i128) }
    }

    /// Position in the buffer of the element at `i`.
    pub open spec fn index(self, i: int) -> int {
        self.offset + i * self.stride
    }

    /// Whether `i` is an index of the view.
    pub open spec fn contains(self, i: int) -> bool {
        0 <= i < self.dim
    }

    /// Every element lies inside a buffer of `len` elements.
    pub open spec fn in_bounds(self, len: int) -> bool {
        forall|i: int| self.contains(i) ==> 0 <= #[trigger] self.index(i) < len
    }

    /// The element that the view shows at `i` of the buffer `mem`.
    pub open spec fn read<T>(self, mem: Seq<T>, i: int) -> T {
        mem[self.index(i)]
    }

    /// The buffer after `value` is written through the view at `i`.
    pub open spec fn write<T>(self, mem: Seq<T>, i: int, value: T) -> Seq<T> {
        mem.update(self.index(i), value)
    }

    /// The padded layout fits exactly the buffers that the view fits.
    pub proof fn lemma_layout(self, len: int)
        ensures
            self.layout().in_bounds(len) == self.in_bounds(len),
            forall|i: int| #[trigger] self.layout().index(0, 0, i) == self.index(i),
            forall|i: int| #[trigger] self.layout().contains(0, 0, i) == self.contains(i),
    {
        let l = self.layout();
        if self.in_bounds(len) {
            assert forall|a: int, b: int, i: int| l.contains(a, b, i) implies 0 <= #[trigger] l.index(
                a,
                b,
                i,
            ) < len by {
                assert(self.contains(i));
                assert(l.index(a, b, i) == self.index(i));
            }
        }
        if l.in_bounds(len) {
            assert forall|i: int| self.contains(i) implies 0 <= #[trigger] self.index(i) < len by {
                assert(l.contains(0, 0, i));
                assert(l.index(0, 0, i) == self.index(i));
            }
        }
    }

    /// The same placement with the two leading axes padded.
    pub fn to_layout(&self) -> (r: Layout)
        ensures
            r == self.layout(),
    {
        Layout { offset: self.offset, dim: (1, 1, self.dim), strides: (0, 0, self.stride as i128) }
    }
}

impl<const EXCLUSIVE: bool> View2<EXCLUSIVE> {
    /// The same placement with the leading axis padded.
    pub open spec fn layout(self) -> Layout {
        Layout {
            offset: self.offset,
            dim: (1, self.dim.0, self.dim.1),
            strides: (0, self.strides.0 as i128, self.strides.1 as i128),
        }
    }

    /// Position in the buffer of the element at `(i, j)`.
    pub open spec fn index(self, i: int, j: int) -> int {
        self.offset + i * self.strides.0 + j * self.strides.1
    }

    /// Whether `(i, j)` is an index of the view.
    pub open spec fn contains(self, i: int, j: int) -> bool {
        0 <= i < self.dim.0 && 0 <= j < self.dim.1
    }

    /// Every element lies inside a buffer of `len` elements.
    pub open spec fn in_bounds(self, len: int) -> bool {
        forall|i: int, j: int| self.contains(i, j) ==> 0 <= #[trigger] self.index(i, j) < len
    }

    /// The element that the view shows at `(i, j)` of the buffer `mem`.
    pub open spec fn read<T>(self, mem: Seq<T>, i: int, j: int) -> T {
        mem[self.index(i, j)]
    }

    /// The buffer after `value` is written through the view at `(i, j)`.
    pub open spec fn write<T>(self, mem: Seq<T>, i: int, j: int, value: T) -> Seq<T> {
        mem.update(self.index(i, j), value)
    }

    /// The view of the same elements with the two axes exchanged.
    pub open spec fn transposed(self) -> Self {
        View2 {
            offset: self.offset,
            dim: (self.dim.1, self.dim.0),
            strides: (self.strides.1, self.strides.0),
        }
    }

    /// The padded layout fits exactly the buffers that the view fits.
    pub proof fn lemma_layout(self, len: int)
        ensures
            self.layout().in_bounds(len) == self.in_bounds(len),
            forall|i: int, j: int| #[trigger] self.layout().index(0, i, j) == self.index(i, j),
            forall|i: int, j: int| #[trigger] self.layout().contains(0, i, j) == self.contains(i, j),
    {
        let l = self.layout();
        if self.in_bounds(len) {
            assert forall|a: int, i: int, j: int| l.contains(a, i, j) implies 0 <= #[trigger] l.index(
                a,
                i,
                j,
            ) < len by {
                assert(self.contains(i, j));
                assert(l.index(a, i, j) == self.index(i, j));
            }
        }
        if l.in_bounds(len) {
            assert forall|i: int, j: int| self.contains(i, j) implies 0 <= #[trigger] self.index(
                i,
                j,
            ) < len by {
                assert(l.contains(0, i, j));
                assert(l.index(0, i, j) == self.index(i, j));
            }
        }
    }

    /// The same placement with the leading axis padded.
    pub fn to_layout(&self) -> (r: Layout)
        ensures
            r == self.layout(),
    {
        Layout {
            offset: self.offset,
            dim: (1, self.dim.0, self.dim.1),
            strides: (0, self.strides.0 as i128, self.strides.1 as i128),
        }
    }
}

impl<const EXCLUSIVE: bool> View3<EXCLUSIVE> {
    /// The placement of the elements.
    pub open spec fn layout(self) -> Layout {
        Layout {
            offset: self.offset,
            dim: self.dim,
            strides: (self.strides.0 as i128, self.strides.1 as i128, self.strides.2 as i128),
        }
    }

    /// Position in the buffer of the element at `(c, y, x)`.
    pub open spec fn index(self, c: int, y: int, x: int) -> int {
        self.layout().index(c, y, x)
    }

    /// Whether `(c, y, x)` is an index of the view.
    pub open spec fn contains(self, c: int, y: int, x: int) -> bool {
        self.layout().contains(c, y, x)
    }

    /// Every element lies inside a buffer of `len` elements.
    pub open spec fn in_bounds(self, len: int) -> bool {
        self.layout().in_bounds(len)
    }

    /// The element that the view shows at `(c, y, x)` of the buffer `mem`.
    pub open spec fn read<T>(self, mem: Seq<T>, c: int, y: int, x: int) -> T {
        mem[self.index(c, y, x)]
    }

    /// The buffer after `value` is written through the view at `(c, y, x)`.
    pub open spec fn write<T>(self, mem: Seq<T>, c: int, y: int, x: int, value: T) -> Seq<T> {
        mem.update(self.index(c, y, x), value)
    }

    /// The placement of the elements.
    pub fn to_layout(&self) -> (r: Layout)
        ensures
            r == self.layout(),
    {
        Layout {
            offset: self.offset,
            dim: self.dim,
            strides: (self.strides.0 as i128, self.strides.1 as i128, self.strides.2 as i128),
        }
    }
}

impl<const EXCLUSIVE: bool> View1<EXCLUSIVE> {
    /// Whether every element lies inside a buffer of `len` elements.
    pub fn fits(&self, len: usize) -> (r: bool)
        ensures
            r == self.in_bounds(len as int),
    {
        proof {
            self.lemma_layout(len as int);
        }
        self.to_layout().fits(len)
    }

    /// The element at `i` of the buffer `data`, where `i` is an index of
    /// the view and the view fits the buffer.
    pub fn get<'a, T>(&self, data: &'a [T], i: usize) -> (r: Option<&'a T>)
        ensures
            r == (if self.contains(i as int) && self.in_bounds(data@.len() as int) {
                Some(&self.read(data@, i as int))
            } else {
                None
            }),
    {
        proof {
            self.lemma_layout(data@.len() as int);
        }
        self.to_layout().get(data, 0, 0, i)
    }
}

impl View1<true> {
    /// Writes `value` at `i` of the buffer `data`, where `i` is an index
    /// of the view and the view fits the buffer, and says whether it did.
    pub fn set<T>(&self, data: &mut [T], i: usize, value: T) -> (done: bool)
        ensures
            done == (self.contains(i as int) && self.in_bounds(old(data)@.len() as int)),
            final(data)@ == (if done {
                self.write(old(data)@, i as int, value)
            } else {
                old(data)@
            }),
    {
        proof {
            self.lemma_layout(data@.len() as int);
        }
        self.to_layout().set(data, 0, 0, i, value)
    }
}

impl<const EXCLUSIVE: bool> View2<EXCLUSIVE> {
    /// Whether every element lies inside a buffer of `len` elements.
    pub fn fits(&self, len: usize) -> (r: bool)
        ensures
            r == self.in_bounds(len as int),
    {
        proof {
            self.lemma_layout(len as int);
        }
        self.to_layout().fits(len)
    }

    /// The element at `(i, j)` of the buffer `data`, where `(i, j)` is an
    /// index of the view and the view fits the buffer.
    pub fn get<'a, T>(&self, data: &'a [T], i: usize, j: usize) -> (r: Option<&'a T>)
        ensures
            r == (if self.contains(i as int, j as int) && self.in_bounds(data@.len() as int) {
                Some(&self.read(data@, i as int, j as int))
            } else {
                None
            }),
    {
        proof {
            self.lemma_layout(data@.len() as int);
        }
        self.to_layout().get(data, 0, i, j)
    }
}

impl View2<true> {
    /// Writes `value` at `(i, j)` of the buffer `data`, where `(i, j)` is
    /// an index of the view and the view fits the buffer, and says whether
    /// it did.
    pub fn set<T>(&self, data: &mut [T], i: usize, j: usize, value: T) -> (done: bool)
        ensures
            done == (self.contains(i as int, j as int) && self.in_bounds(
                old(data)@.len() as int,
            )),
            final(data)@ == (if done {
                self.write(old(data)@, i as int, j as int, value)
            } else {
                old(data)@
            }),
    {
        proof {
            self.lemma_layout(data@.len() as int);
        }
        self.to_layout().set(data, 0, i, j, value)
    }
}

impl<const EXCLUSIVE: bool> View3<EXCLUSIVE> {
    /// Whether every element lies inside a buffer of `len` elements.
    pub fn fits(&self, len: usize) -> (r: bool)
        ensures
            r == self.in_bounds(len as int),
    {
        self.to_layout().fits(len)
    }

    /// The element at `(c, y, x)` of the buffer `data`, where `(c, y, x)`
    /// is an index of the view and the view fits the buffer.
    pub fn get<'a, T>(&self, data: &'a [T], c: usize, y: usize, x: usize) -> (r: Option<&'a T>)
        ensures
            r == (if self.contains(c as int, y as int, x as int) && self.in_bounds(
                data@.len() as int,
            ) {
                Some(&self.read(data@, c as int, y as int, x as int))
            } else {
                None
            }),
    {
        self.to_layout().get(data, c, y, x)
    }
}

impl View3<true> {
    /// Writes `value` at `(c, y, x)` of the buffer `data`, where
    /// `(c, y, x)` is an index of the view and the view fits the buffer,
    /// and says whether it did.
    pub fn set<T>(&self, data: &mut [T], c: usize, y: usize, x: usize, value: T) -> (done: bool)
        ensures
            done == (self.contains(c as int, y as int, x as int) && self.in_bounds(
                old(data)@.len() as int,
            )),
            final(data)@ == (if done {
                self.write(old(data)@, c as int, y as int, x as int, value)
            } else {
                old(data)@
            }),
    {
        self.to_layout().set(data, c, y, x, value)
    }
}

impl<const EXCLUSIVE: bool> View1<EXCLUSIVE> {
    /// The view of `dim` elements `stride` apart, the first at `offset` of
    /// `data`. It is refused with `ShapeMismatch` exactly when an element
    /// would lie outside the buffer.
    pub fn from_shape<T>(offset: usize, dim: usize, stride: isize, data: &[T]) -> (r: Result<
        Self,
        ConvertError,
    >)
        ensures
            r == (if (View1::<EXCLUSIVE> { offset, dim, stride }).in_bounds(data@.len() as int) {
                Ok(View1::<EXCLUSIVE> { offset, dim, stride })
            } else {
                Err(ConvertError::ShapeMismatch)
            }),
    {
        let view = View1 { offset, dim, stride };
        if view.fits(data.len()) {
            Ok(view)
        } else {
            Err(ConvertError::ShapeMismatch)
        }
    }
}

impl<const EXCLUSIVE: bool> View2<EXCLUSIVE> {
    /// The view of shape `dim` and strides `strides`, the first element at
    /// `offset` of `data`. It is refused with `ShapeMismatch` exactly when
    /// an element would lie outside the buffer.
    pub fn from_shape<T>(
        offset: usize,
        dim: (usize, usize),
        strides: (isize, isize),
        data: &[T],
    ) -> (r: Result<Self, ConvertError>)
        ensures
            r == (if (View2::<EXCLUSIVE> { offset, dim, strides }).in_bounds(data@.len() as int) {
                Ok(View2::<EXCLUSIVE> { offset, dim, strides })
            } else {
                Err(ConvertError::ShapeMismatch)
            }),
    {
        let view = View2 { offset, dim, strides };
        if view.fits(data.len()) {
            Ok(view)
        } else {
            Err(ConvertError::ShapeMismatch)
        }
    }

    /// The view of the same elements with the two axes exchanged: it shows
    /// at `(j, i)` what this one shows at `(i, j)`.
    pub fn reversed_axes(self) -> (r: Self)
        ensures
            r == self.transposed(),
            forall|i: int, j: int| #[trigger] r.index(j, i) == self.index(i, j),
            forall|i: int, j: int| #[trigger] r.contains(j, i) == self.contains(i, j),
    {
        View2 {
            offset: self.offset,
            dim: (self.dim.1, self.dim.0),
            strides: (self.strides.1, self.strides.0),
        }
    }
}

impl<const EXCLUSIVE: bool> View3<EXCLUSIVE> {
    /// The view of shape `dim` and strides `strides`, the first element at
    /// `offset` of `data`. It is refused with `ShapeMismatch` exactly when
    /// an element would lie outside the buffer.
    pub fn from_shape<T>(
        offset: usize,
        dim: (usize, usize, usize),
        strides: (isize, isize, isize),
        data: &[T],
    ) -> (r: Result<Self, ConvertError>)
        ensures
            r == (if (View3::<EXCLUSIVE> { offset, dim, strides }).in_bounds(data@.len() as int) {
                Ok(View3::<EXCLUSIVE> { offset, dim, strides })
            } else {
                Err(ConvertError::ShapeMismatch)
            }),
    {
        let view = View3 { offset, dim, strides };
        if view.fits(data.len()) {
            Ok(view)
        } else {
            Err(ConvertError::ShapeMismatch)
        }
    }
}

impl<T> Array1<T> {
    /// The shared view of all elements.
    pub open spec fn spec_view(&self) -> ArrayView1 {
        View1 { offset: self.offset, dim: self.dim, stride: self.stride }
    }

    /// Every element lies inside the buffer.
    pub open spec fn wf(self) -> bool {
        self.view().in_bounds(self.data@.len() as int)
    }

    /// The element at `i`.
    pub open spec fn at(self, i: int) -> T {
        self.data@[self.view().index(i)]
    }

    /// The shared view of all elements.
    #[verifier::when_used_as_spec(spec_view)]
    pub fn view(&self) -> (r: ArrayView1)
        ensures
            r == self.spec_view(),
    {
        View1 { offset: self.offset, dim: self.dim, stride: self.stride }
    }

    /// Whether every element lies inside the buffer.
    pub fn is_well_formed(&self) -> (r: bool)
        ensures
            r == self.wf(),
    {
        proof {
            self.view().lemma_layout(self.data@.len() as int);
        }
        self.view().to_layout().fits(self.data.len())
    }
}

impl<T> Array2<T> {
    /// The shared view of all elements.
    pub open spec fn spec_view(&self) -> ArrayView2 {
        View2 { offset: self.offset, dim: self.dim, strides: self.strides }
    }

    /// Every element lies inside the buffer.
    pub open spec fn wf(self) -> bool {
        self.view().in_bounds(self.data@.len() as int)
    }

    /// The element at `(i, j)`.
    pub open spec fn at(self, i: int, j: int) -> T {
        self.data@[self.view().index(i, j)]
    }

    /// The shared view of all elements.
    #[verifier::when_used_as_spec(spec_view)]
    pub fn view(&self) -> (r: ArrayView2)
        ensures
            r == self.spec_view(),
    {
        View2 { offset: self.offset, dim: self.dim, strides: self.strides }
    }

    /// Whether every element lies inside the buffer.
    pub fn is_well_formed(&self) -> (r: bool)
        ensures
            r == self.wf(),
    {
        proof {
            self.view().lemma_layout(self.data@.len() as int);
        }
        self.view().to_layout().fits(self.data.len())
    }
}

impl<T> Array3<T> {
    /// The shared view of all elements.
    pub open spec fn spec_view(&self) -> ArrayView3 {
        View3 { offset: self.offset, dim: self.dim, strides: self.strides }
    }

    /// Every element lies inside the buffer.
    pub open spec fn wf(self) -> bool {
        self.view().in_bounds(self.data@.len() as int)
    }

    /// The element at `(c, y, x)`.
    pub open spec fn at(self, c: int, y: int, x: int) -> T {
        self.data@[self.view().index(c, y, x)]
    }

    /// The shared view of all elements.
    #[verifier::when_used_as_spec(spec_view)]
    pub fn view(&self) -> (r: ArrayView3)
        ensures
            r == self.spec_view(),
    {
        View3 { offset: self.offset, dim: self.dim, strides: self.strides }
    }

    /// Whether every element lies inside the buffer.
    pub fn is_well_formed(&self) -> (r: bool)
        ensures
            r == self.wf(),
    {
        self.view().to_layout().fits(self.data.len())
    }
}

impl<T> Array1<T> {
    /// The array of all elements of `data` in their order.
    pub fn from_vec(data: Vec<T>) -> (r: Self)
        ensures
            r.data@ == data@,
            r.view() == (View1::<false> { offset: 0, dim: data@.len() as usize, stride: 1 }),
            r.wf(),
            forall|i: int| 0 <= i < data@.len() ==> #[trigger] r.at(i) == data@[i],
    {
        let dim: usize = data.len();
        let r = Array1 { data, offset: 0, dim, stride: 1 };
        proof {
            assert forall|i: int| #[trigger] r.view().index(i) == i by {
                assert(i * 1 == i) by (nonlinear_arith);
            }
        }
        r
    }

    /// The element at `i`, where `i` is an index of the array and the array
    /// fits its buffer.
    pub fn get(&self, i: usize) -> (r: Option<&T>)
        ensures
            r == (if self.view().contains(i as int) && self.wf() {
                Some(&self.at(i as int))
            } else {
                None
            }),
    {
        self.view().get(self.data.as_slice(), i)
    }
}

impl<T> Array2<T> {
    /// The array of shape `dim` that reaches into `data` by `strides`, the
    /// first element standing first. It is refused with `ShapeMismatch`
    /// exactly when an element would lie outside the buffer.
    pub fn from_shape_vec(dim: (usize, usize), strides: (isize, isize), data: Vec<T>) -> (r:
        Result<Self, ConvertError>)
        ensures
            r is Ok <==> (View2::<false> { offset: 0, dim, strides }).in_bounds(data@.len() as int),
            r matches Err(e) ==> e == ConvertError::ShapeMismatch,
            r matches Ok(a) ==> a.data@ == data@ && a.view() == (View2::<false> {
                offset: 0,
                dim,
                strides,
            }) && a.wf(),
    {
        let view = View2::<false> { offset: 0, dim, strides };
        if view.fits(data.len()) {
            Ok(Array2 { data, offset: 0, dim, strides })
        } else {
            Err(ConvertError::ShapeMismatch)
        }
    }

    /// The array over the same buffer with the two axes exchanged: it shows
    /// at `(j, i)` what this one shows at `(i, j)`.
    pub fn reversed_axes(self) -> (r: Self)
        ensures
            r.data@ == self.data@,
            r.view() == self.view().transposed(),
            r.wf() == self.wf(),
            forall|i: int, j: int| #[trigger] r.at(j, i) == self.at(i, j),
    {
        let ghost len = self.data@.len() as int;
        let ghost before = self.view();
        let r = Array2 {
            data: self.data,
            offset: self.offset,
            dim: (self.dim.1, self.dim.0),
            strides: (self.strides.1, self.strides.0),
        };
        proof {
            let after = r.view();
            assert forall|i: int, j: int| #[trigger] after.index(j, i) == before.index(i, j) by {}
            if before.in_bounds(len) {
                assert forall|j: int, i: int| after.contains(j, i) implies 0 <= #[trigger] after.index(
                    j,
                    i,
                ) < len by {
                    assert(before.contains(i, j));
                    assert(after.index(j, i) == before.index(i, j));
                }
            }
            if after.in_bounds(len) {
                assert forall|i: int, j: int| before.contains(i, j) implies 0
                    <= #[trigger] before.index(i, j) < len by {
                    assert(after.contains(j, i));
                    assert(after.index(j, i) == before.index(i, j));
                }
            }
        }
        r
    }

    /// The element at `(i, j)`, where `(i, j)` is an index of the array and
    /// the array fits its buffer.
    pub fn get(&self, i: usize, j: usize) -> (r: Option<&T>)
        ensures
            r == (if self.view().contains(i as int, j as int) && self.wf() {
                Some(&self.at(i as int, j as int))
            } else {
                None
            }),
    {
        self.view().get(self.data.as_slice(), i, j)
    }
}

impl<T> Array3<T> {
    /// The array of shape `dim` that reaches into `data` by `strides`, the
    /// first element standing first. It is refused with `ShapeMismatch`
    /// exactly when an element would lie outside the buffer.
    pub fn from_shape_vec(
        dim: (usize, usize, usize),
        strides: (isize, isize, isize),
        data: Vec<T>,
    ) -> (r: Result<Self, ConvertError>)
        ensures
            r is Ok <==> (View3::<false> { offset: 0, dim, strides }).in_bounds(data@.len() as int),
            r matches Err(e) ==> e == ConvertError::ShapeMismatch,
            r matches Ok(a) ==> a.data@ == data@ && a.view() == (View3::<false> {
                offset: 0,
                dim,
                strides,
            }) && a.wf(),
    {
        let view = View3::<false> { offset: 0, dim, strides };
        if view.fits(data.len()) {
            Ok(Array3 { data, offset: 0, dim, strides })
        } else {
            Err(ConvertError::ShapeMismatch)
        }
    }

    /// The element at `(c, y, x)`, where `(c, y, x)` is an index of the
    /// array and the array fits its buffer.
    pub fn get(&self, c: usize, y: usize, x: usize) -> (r: Option<&T>)
        ensures
            r == (if self.view().contains(c as int, y as int, x as int) && self.wf() {
                Some(&self.at(c as int, y as int, x as int))
            } else {
                None
            }),
    {
        self.view().get(self.data.as_slice(), c, y, x)
    }
}

impl<T: Copy> Clone for Array1<T> {
    fn clone(&self) -> (r: Self)
        ensures
            r.data@ == self.data@,
            r.view() == self.view(),
    {
        Array1 {
            data: vstd::slice::slice_to_vec(self.data.as_slice()),
            offset: self.offset,
            dim: self.dim,
            stride: self.stride,
        }
    }
}

impl<T: Copy> Clone for Array2<T> {
    fn clone(&self) -> (r: Self)
        ensures
            r.data@ == self.data@,
            r.view() == self.view(),
    {
        Array2 {
            data: vstd::slice::slice_to_vec(self.data.as_slice()),
            offset: self.offset,
            dim: self.dim,
            strides: self.strides,
        }
    }
}

impl<T: Copy> Clone for Array3<T> {
    fn clone(&self) -> (r: Self)
        ensures
            r.data@ == self.data@,
            r.view() == self.view(),
    {
        Array3 {
            data: vstd::slice::slice_to_vec(self.data.as_slice()),
            offset: self.offset,
            dim: self.dim,
            strides: self.strides,
        }
    }
}

} // verus!
