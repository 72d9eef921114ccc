//! What holds of the conversions taken together.
//!
//! Two families of statements: a conversion there and back again returns
//! what it was given, and a view made of another reaches the same place of
//! the buffer at every index, so that what is written through one is read
//! through the other.

use vstd::prelude::*;
use crate::array::{Array1, Array2, Array3, View1, View2};
use crate::error::ConvertError;
use crate::image::ImageBuffer;
use crate::matrix::{DMatrix, DVector, MatrixView, VectorView};
use crate::strided::lemma_packed_index_unique;

verus! {

/// Seen as a vector and as an array again, a view of one axis whose stride
/// is not negative is the view it was: same shape, same place for every
/// element.
pub proof fn law_view1_round_trip<const EXCLUSIVE: bool>(v: View1<EXCLUSIVE>)
    requires
        v.stride >= 0,
    ensures
        v.to_nalgebra() is Ok,
        v.to_nalgebra().unwrap().to_ndarray::<EXCLUSIVE>() == Ok::<_, ConvertError>(v),
{
}

/// Seen as a matrix and as an array again, a view of two axes whose strides
/// are not negative is the view it was: same shape, same place for every
/// element.
pub proof fn law_view2_round_trip<const EXCLUSIVE: bool>(v: View2<EXCLUSIVE>)
    requires
        v.strides.0 >= 0,
        v.strides.1 >= 0,
    ensures
        v.to_nalgebra() is Ok,
        v.to_nalgebra().unwrap().to_ndarray::<EXCLUSIVE>() == Ok::<_, ConvertError>(v),
{
}

/// Seen as an array and as a vector again, a vector view whose stride is a
/// signed stride is the view it was.
pub proof fn law_vector_view_round_trip<const EXCLUSIVE: bool>(m: VectorView<EXCLUSIVE>)
    requires
        m.stride <= isize::MAX,
    ensures
        m.to_ndarray::<EXCLUSIVE>() is Ok,
        m.to_ndarray::<EXCLUSIVE>().unwrap().to_nalgebra() == Ok::<_, ConvertError>(m),
{
}

/// Seen as an array and as a matrix again, a matrix view whose strides are
/// signed strides is the view it was.
pub proof fn law_matrix_view_round_trip<const EXCLUSIVE: bool>(m: MatrixView<EXCLUSIVE>)
    requires
        m.strides.0 <= isize::MAX,
        m.strides.1 <= isize::MAX,
    ensures
        m.to_ndarray::<EXCLUSIVE>() is Ok,
        m.to_ndarray::<EXCLUSIVE>().unwrap().to_nalgebra() == Ok::<_, ConvertError>(m),
{
}

/// An array of one axis that went through a vector comes back with its
/// length and with every element at its index.
pub proof fn law_array1_round_trip<T>(a: Array1<T>, v: DVector<T>, b: Array1<T>)
    requires
        a.agrees_with_vector(v),
        b.agrees_with_vector(v),
    ensures
        b.dim == a.dim,
        forall|i: int| 0 <= i < a.dim ==> b.at(i) == a.at(i),
{
    assert forall|i: int| 0 <= i < a.dim implies b.at(i) == a.at(i) by {
        assert(v.at(i) == a.at(i));
        assert(v.at(i) == b.at(i));
    }
}

/// A vector that went through an array comes back with the same elements in
/// the same order.
pub proof fn law_vector_round_trip<T>(v: DVector<T>, a: Array1<T>, w: DVector<T>)
    requires
        a.agrees_with_vector(v),
        a.agrees_with_vector(w),
    ensures
        w.data@ == v.data@,
{
    assert forall|i: int| 0 <= i < v.data@.len() implies w.data@[i] == v.data@[i] by {
        assert(v.at(i) == a.at(i));
        assert(w.at(i) == a.at(i));
    }
    assert(w.data@ =~= v.data@);
}

/// An array of two axes that went through a matrix comes back with its
/// shape and with every element at its index.
pub proof fn law_array2_round_trip<T>(a: Array2<T>, m: DMatrix<T>, b: Array2<T>)
    requires
        a.agrees_with_matrix(m),
        b.agrees_with_matrix(m),
    ensures
        b.dim == a.dim,
        forall|i: int, j: int| a.view().contains(i, j) ==> b.at(i, j) == a.at(i, j),
{
    assert forall|i: int, j: int| a.view().contains(i, j) implies b.at(i, j) == a.at(i, j) by {
        assert(m.contains(i, j));
    }
}

/// A matrix that went through an array comes back with its shape and the
/// same elements in the same order.
pub proof fn law_matrix_round_trip<T>(m: DMatrix<T>, a: Array2<T>, n: DMatrix<T>)
    requires
        a.agrees_with_matrix(m),
        a.agrees_with_matrix(n),
    ensures
        n.nrows == m.nrows,
        n.ncols == m.ncols,
        n.data@ == m.data@,
{
    assert forall|p: int| 0 <= p < m.data@.len() implies n.data@[p] == m.data@[p] by {
        let rows = m.nrows as int;
        assert(rows > 0) by (nonlinear_arith)
            requires
                0 <= p < rows * m.ncols,
                0 <= rows,
        ;
        let (i, j) = (p % rows, p / rows);
        assert(p == i + j * rows && 0 <= i < rows && 0 <= j < m.ncols) by (nonlinear_arith)
            requires
                0 <= p < rows * m.ncols,
                rows > 0,
                i == p % rows,
                j == p / rows,
        ;
        assert(m.contains(i, j));
        assert(n.contains(i, j));
        assert(m.at(i, j) == a.at(i, j));
        assert(n.at(i, j) == a.at(i, j));
    }
    assert(n.data@ =~= m.data@);
}

/// An array of two axes that went through an image of one channel comes
/// back with its shape and with every element at its index.
pub proof fn law_array2_image_round_trip<T>(a: Array2<T>, img: ImageBuffer<T, 1>, b: Array2<T>)
    requires
        a.agrees_with_gray(img),
        b.agrees_with_gray(img),
    ensures
        b.dim == a.dim,
        forall|y: int, x: int| a.view().contains(y, x) ==> b.at(y, x) == a.at(y, x),
{
    assert forall|y: int, x: int| a.view().contains(y, x) implies b.at(y, x) == a.at(y, x) by {
        assert(img.contains(x, y, 0));
    }
}

/// An image of one channel that went through an array of two axes comes
/// back with its extents and with every pixel in its place.
pub proof fn law_image_array2_round_trip<T>(
    img: ImageBuffer<T, 1>,
    a: Array2<T>,
    out: ImageBuffer<T, 1>,
)
    requires
        a.agrees_with_gray(img),
        a.agrees_with_gray(out),
    ensures
        out.width == img.width,
        out.height == img.height,
        forall|x: int, y: int| img.contains(x, y, 0) ==> out.sample(x, y, 0) == img.sample(x, y, 0),
{
    assert forall|x: int, y: int| img.contains(x, y, 0) implies out.sample(x, y, 0) == img.sample(
        x,
        y,
        0,
    ) by {
        assert(out.contains(x, y, 0));
    }
}

/// An array of three axes that went through an image comes back with its
/// shape and with every element at its index.
pub proof fn law_array3_round_trip<T, const CHANNELS: u8>(
    a: Array3<T>,
    img: ImageBuffer<T, CHANNELS>,
    b: Array3<T>,
)
    requires
        a.agrees_with_image(img),
        b.agrees_with_image(img),
    ensures
        b.dim == a.dim,
        forall|c: int, y: int, x: int|
            a.view().contains(c, y, x) ==> b.at(c, y, x) == a.at(c, y, x),
{
    assert forall|c: int, y: int, x: int| a.view().contains(c, y, x) implies b.at(c, y, x) == a.at(
        c,
        y,
        x,
    ) by {
        assert(img.contains(x, y, c));
    }
}

/// The vector view made of an array view reaches the same place of any
/// buffer at every index: both read the same element, and a value written
/// through either is the value read through the other.
pub proof fn law_view1_shares_memory<T, const EXCLUSIVE: bool>(
    v: View1<EXCLUSIVE>,
    mem: Seq<T>,
    i: int,
    value: T,
)
    requires
        v.to_nalgebra() is Ok,
    ensures
        v.to_nalgebra().unwrap().contains(i) == v.contains(i),
        v.to_nalgebra().unwrap().in_bounds(mem.len() as int) == v.in_bounds(mem.len() as int),
        v.to_nalgebra().unwrap().read(mem, i) == v.read(mem, i),
        v.to_nalgebra().unwrap().write(mem, i, value) == v.write(mem, i, value),
        v.contains(i) && v.in_bounds(mem.len() as int) ==> {
            &&& v.read(v.to_nalgebra().unwrap().write(mem, i, value), i) == value
            &&& v.to_nalgebra().unwrap().read(v.write(mem, i, value), i) == value
        },
{
    let m = v.to_nalgebra().unwrap();
    let len = mem.len() as int;
    assert forall|k: int| #[trigger] m.index(k) == v.index(k) by {}
    if v.in_bounds(len) {
        assert forall|k: int| m.contains(k) implies 0 <= #[trigger] m.index(k) < len by {
            assert(v.contains(k));
            assert(m.index(k) == v.index(k));
        }
    }
    if m.in_bounds(len) {
        assert forall|k: int| v.contains(k) implies 0 <= #[trigger] v.index(k) < len by {
            assert(m.contains(k));
            assert(m.index(k) == v.index(k));
        }
    }
}

/// The matrix view made of an array view reaches the same place of any
/// buffer at every index: both read the same element, and a value written
/// through either is the value read through the other.
pub proof fn law_view2_shares_memory<T, const EXCLUSIVE: bool>(
    v: View2<EXCLUSIVE>,
    mem: Seq<T>,
    i: int,
    j: int,
    value: T,
)
    requires
        v.to_nalgebra() is Ok,
    ensures
        v.to_nalgebra().unwrap().contains(i, j) == v.contains(i, j),
        v.to_nalgebra().unwrap().in_bounds(mem.len() as int) == v.in_bounds(mem.len() as int),
        v.to_nalgebra().unwrap().read(mem, i, j) == v.read(mem, i, j),
        v.to_nalgebra().unwrap().write(mem, i, j, value) == v.write(mem, i, j, value),
        v.contains(i, j) && v.in_bounds(mem.len() as int) ==> {
            &&& v.read(v.to_nalgebra().unwrap().write(mem, i, j, value), i, j) == value
            &&& v.to_nalgebra().unwrap().read(v.write(mem, i, j, value), i, j) == value
        },
{
    let m = v.to_nalgebra().unwrap();
    let len = mem.len() as int;
    assert forall|a: int, b: int| #[trigger] m.index(a, b) == v.index(a, b) by {}
    if v.in_bounds(len) {
        assert forall|a: int, b: int| m.contains(a, b) implies 0 <= #[trigger] m.index(a, b)
            < len by {
            assert(v.contains(a, b));
            assert(m.index(a, b) == v.index(a, b));
        }
    }
    if m.in_bounds(len) {
        assert forall|a: int, b: int| v.contains(a, b) implies 0 <= #[trigger] v.index(a, b)
            < len by {
            assert(m.contains(a, b));
            assert(m.index(a, b) == v.index(a, b));
        }
    }
}

/// The array view made of a vector view reaches the same place of any
/// buffer at every index: both read the same element, and a value written
/// through either is the value read through the other.
pub proof fn law_vector_view_shares_memory<T, const EXCLUSIVE: bool, const ACCESS: bool>(
    m: VectorView<EXCLUSIVE>,
    mem: Seq<T>,
    i: int,
    value: T,
)
    requires
        m.to_ndarray::<ACCESS>() is Ok,
    ensures
        m.to_ndarray::<ACCESS>().unwrap().contains(i) == m.contains(i),
        m.to_ndarray::<ACCESS>().unwrap().in_bounds(mem.len() as int) == m.in_bounds(
            mem.len() as int,
        ),
        m.to_ndarray::<ACCESS>().unwrap().read(mem, i) == m.read(mem, i),
        m.to_ndarray::<ACCESS>().unwrap().write(mem, i, value) == m.write(mem, i, value),
        m.contains(i) && m.in_bounds(mem.len() as int) ==> {
            &&& m.read(m.to_ndarray::<ACCESS>().unwrap().write(mem, i, value), i) == value
            &&& m.to_ndarray::<ACCESS>().unwrap().read(m.write(mem, i, value), i) == value
        },
{
    let v = m.to_ndarray::<ACCESS>().unwrap();
    let len = mem.len() as int;
    assert forall|k: int| #[trigger] m.index(k) == v.index(k) by {}
    if v.in_bounds(len) {
        assert forall|k: int| m.contains(k) implies 0 <= #[trigger] m.index(k) < len by {
            assert(v.contains(k));
            assert(m.index(k) == v.index(k));
        }
    }
    if m.in_bounds(len) {
        assert forall|k: int| v.contains(k) implies 0 <= #[trigger] v.index(k) < len by {
            assert(m.contains(k));
            assert(m.index(k) == v.index(k));
        }
    }
}

/// The array view made of a matrix view reaches the same place of any
/// buffer at every index: both read the same element, and a value written
/// through either is the value read through the other.
pub proof fn law_matrix_view_shares_memory<T, const EXCLUSIVE: bool, const ACCESS: bool>(
    m: MatrixView<EXCLUSIVE>,
    mem: Seq<T>,
    i: int,
    j: int,
    value: T,
)
    requires
        m.to_ndarray::<ACCESS>() is Ok,
    ensures
        m.to_ndarray::<ACCESS>().unwrap().contains(i, j) == m.contains(i, j),
        m.to_ndarray::<ACCESS>().unwrap().in_bounds(mem.len() as int) == m.in_bounds(
            mem.len() as int,
        ),
        m.to_ndarray::<ACCESS>().unwrap().read(mem, i, j) == m.read(mem, i, j),
        m.to_ndarray::<ACCESS>().unwrap().write(mem, i, j, value) == m.write(mem, i, j, value),
        m.contains(i, j) && m.in_bounds(mem.len() as int) ==> {
            &&& m.read(m.to_ndarray::<ACCESS>().unwrap().write(mem, i, j, value), i, j) == value
            &&& m.to_ndarray::<ACCESS>().unwrap().read(m.write(mem, i, j, value), i, j) == value
        },
{
    let v = m.to_ndarray::<ACCESS>().unwrap();
    let len = mem.len() as int;
    assert forall|a: int, b: int| #[trigger] m.index(a, b) == v.index(a, b) by {}
    if v.in_bounds(len) {
        assert forall|a: int, b: int| m.contains(a, b) implies 0 <= #[trigger] m.index(a, b)
            < len by {
            assert(v.contains(a, b));
            assert(m.index(a, b) == v.index(a, b));
        }
    }
    if m.in_bounds(len) {
        assert forall|a: int, b: int| v.contains(a, b) implies 0 <= #[trigger] v.index(a, b)
            < len by {
            assert(m.contains(a, b));
            assert(m.index(a, b) == v.index(a, b));
        }
    }
}

/// The array view of three axes onto an image reaches, at `(c, y, x)`, the
/// place where the image keeps channel `c` of the pixel at `(x, y)`: it
/// reads that sample, and a value written through it is the sample that the
/// image shows there, all other samples being as they were.
pub proof fn law_image_shares_memory<T, const CHANNELS: u8, const ACCESS: bool>(
    img: ImageBuffer<T, CHANNELS>,
    x: int,
    y: int,
    c: int,
    value: T,
)
    requires
        img.to_ndarray3::<ACCESS>() is Ok,
        img.contains(x, y, c),
    ensures
        img.to_ndarray3::<ACCESS>().unwrap().contains(c, y, x),
        img.to_ndarray3::<ACCESS>().unwrap().in_bounds(img.data@.len() as int),
        img.to_ndarray3::<ACCESS>().unwrap().read(img.data@, c, y, x) == img.sample(x, y, c),
        img.to_ndarray3::<ACCESS>().unwrap().write(img.data@, c, y, x, value)
            == img.data@.update(img.sample_index(x, y, c), value),
        img.to_ndarray3::<ACCESS>().unwrap().write(img.data@, c, y, x, value)[img.sample_index(
            x,
            y,
            c,
        )] == value,
        forall|u: int, v: int, w: int|
            img.contains(u, v, w) && (u, v, w) != (x, y, c) ==> img.to_ndarray3::<
                ACCESS,
            >().unwrap().write(img.data@, c, y, x, value)[img.sample_index(u, v, w)] == img.sample(
                u,
                v,
                w,
            ),
{
    img.lemma_to_ndarray3::<ACCESS>();
    img.lemma_sample_index(x, y, c);
    let view = img.to_ndarray3::<ACCESS>().unwrap();
    assert(view.index(c, y, x) == img.sample_index(x, y, c));
    let after = view.write(img.data@, c, y, x, value);
    assert forall|u: int, v: int, w: int|
        img.contains(u, v, w) && (u, v, w) != (x, y, c) implies after[img.sample_index(u, v, w)]
        == img.sample(u, v, w) by {
        img.lemma_sample_index(u, v, w);
        if img.sample_index(u, v, w) == img.sample_index(x, y, c) {
            lemma_packed_index_unique(
                img.width as int,
                CHANNELS as int,
                v,
                u,
                w,
                y,
                x,
                c,
            );
        }
    }
}

/// The array view of two axes onto an image of one channel reaches, at
/// `(y, x)`, the place where the image keeps the pixel at `(x, y)`: it reads
/// that sample, and a value written through it is the sample that the image
/// shows there, all other samples being as they were.
pub proof fn law_gray_image_shares_memory<T, const ACCESS: bool>(
    img: ImageBuffer<T, 1>,
    x: int,
    y: int,
    value: T,
)
    requires
        img.to_ndarray2::<ACCESS>() is Ok,
        img.contains(x, y, 0),
    ensures
        img.to_ndarray2::<ACCESS>().unwrap().contains(y, x),
        img.to_ndarray2::<ACCESS>().unwrap().in_bounds(img.data@.len() as int),
        img.to_ndarray2::<ACCESS>().unwrap().read(img.data@, y, x) == img.sample(x, y, 0),
        img.to_ndarray2::<ACCESS>().unwrap().write(img.data@, y, x, value) == img.data@.update(
            img.sample_index(x, y, 0),
            value,
        ),
        img.to_ndarray2::<ACCESS>().unwrap().write(img.data@, y, x, value)[img.sample_index(
            x,
            y,
            0,
        )] == value,
        forall|u: int, v: int|
            img.contains(u, v, 0) && (u, v) != (x, y) ==> img.to_ndarray2::<ACCESS>().unwrap().write(
                img.data@,
                y,
                x,
                value,
            )[img.sample_index(u, v, 0)] == img.sample(u, v, 0),
{
    img.lemma_to_ndarray2::<ACCESS>();
    img.lemma_sample_index(x, y, 0);
    let view = img.to_ndarray2::<ACCESS>().unwrap();
    assert(view.index(y, x) == img.sample_index(x, y, 0));
    let after = view.write(img.data@, y, x, value);
    assert forall|u: int, v: int| img.contains(u, v, 0) && (u, v) != (x, y) implies after[img.sample_index(
        u,
        v,
        0,
    )] == img.sample(u, v, 0) by {
        img.lemma_sample_index(u, v, 0);
        if img.sample_index(u, v, 0) == img.sample_index(x, y, 0) {
            lemma_packed_index_unique(img.width as int, 1, v, u, 0, y, x, 0);
        }
    }
}

/// The array view onto a matrix reaches, at `(i, j)`, the place where the
/// matrix keeps that element: it reads it, and a value written through it
/// is the element that the matrix shows there.
pub proof fn law_matrix_shares_memory<T, const ACCESS: bool>(
    m: DMatrix<T>,
    i: int,
    j: int,
    value: T,
)
    requires
        m.to_ndarray::<ACCESS>() is Ok,
        m.contains(i, j),
    ensures
        m.to_ndarray::<ACCESS>().unwrap().contains(i, j),
        m.to_ndarray::<ACCESS>().unwrap().in_bounds(m.data@.len() as int),
        m.to_ndarray::<ACCESS>().unwrap().read(m.data@, i, j) == m.at(i, j),
        m.to_ndarray::<ACCESS>().unwrap().write(m.data@, i, j, value) == m.data@.update(
            i + j * m.nrows,
            value,
        ),
        m.to_ndarray::<ACCESS>().unwrap().write(m.data@, i, j, value)[i + j * m.nrows] == value,
{
    m.lemma_to_ndarray::<ACCESS>();
    let view = m.to_ndarray::<ACCESS>().unwrap();
    assert(view.contains(i, j));
    assert(view.index(i, j) == i + j * m.nrows);
    assert(0 <= view.index(i, j) < m.data@.len());
}

/// The array view onto a vector reaches, at `i`, the place where the vector
/// keeps that element: it reads it, and a value written through it is the
/// element that the vector shows there. The length of the vector is an
/// address, as that of every buffer is.
pub proof fn law_vector_shares_memory<T, const ACCESS: bool>(v: DVector<T>, i: int, value: T)
    requires
        0 <= i < v.data@.len(),
        v.data@.len() <= usize::MAX,
    ensures
        v.to_ndarray::<ACCESS>().contains(i),
        v.to_ndarray::<ACCESS>().in_bounds(v.data@.len() as int),
        v.to_ndarray::<ACCESS>().read(v.data@, i) == v.at(i),
        v.to_ndarray::<ACCESS>().write(v.data@, i, value) == v.data@.update(i, value),
        v.to_ndarray::<ACCESS>().write(v.data@, i, value)[i] == value,
{
    let view = v.to_ndarray::<ACCESS>();
    assert forall|k: int| #[trigger] view.index(k) == k by {
        assert(k * 1 == k) by (nonlinear_arith);
    }
    assert(view.index(i) == i);
}

} // verus!
