//! Index arithmetic of strided buffers.
//!
//! A `Layout` places the elements of an array of up to three axes in a flat
//! buffer: the element at `(i, j, k)` lies at `offset + i*s0 + j*s1 + k*s2`.
//! Arrays of fewer axes pad the leading axes with extent 1. Its strides are
//! wide enough to hold both the signed strides of the array convention and
//! the unsigned strides of the matrix and pixel conventions.

use vstd::prelude::*;

verus! {

/// Shape, signed element strides and position of the first element.
#[derive(Clone, Copy, Debug, PartialEq, Eq)]
pub struct Layout {
    pub offset: usize,
    pub dim: (usize, usize, usize),
    pub strides: (i128, i128, i128),
}

/// Least value of `i * s` over `0 <= i < d`, for `d >= 1`.
pub open spec fn low_reach(d: int, s: int) -> int {
    if s < 0 {
        (d - 1) * s
    } else {
        0
    }
}

/// Greatest value of `i * s` over `0 <= i < d`, for `d >= 1`.
pub open spec fn high_reach(d: int, s: int) -> int {
    if s < 0 {
        0
    } else {
        (d - 1) * s
    }
}

/// The index along one axis at which `i * s` is least.
pub open spec fn low_corner(d: int, s: int) -> int {
    if s < 0 {
        d - 1
    } else {
        0
    }
}

/// The index along one axis at which `i * s` is greatest.
pub open spec fn high_corner(d: int, s: int) -> int {
    if s < 0 {
        0
    } else {
        d - 1
    }
}

/// Along one axis, a step count within the extent moves within the reach.
pub proof fn lemma_reach(i: int, d: int, s: int)
    requires
        0 <= i < d,
    ensures
        low_reach(d, s) <= i * s <= high_reach(d, s),
        low_corner(d, s) * s == low_reach(d, s),
        high_corner(d, s) * s == high_reach(d, s),
        0 <= low_corner(d, s) < d,
        0 <= high_corner(d, s) < d,
{
    assert(low_reach(d, s) <= i * s <= high_reach(d, s)) by (nonlinear_arith)
        requires
            0 <= i < d,
            low_reach(d, s) == (if s < 0 { (d - 1) * s } else { 0 }),
            high_reach(d, s) == (if s < 0 { 0 } else { (d - 1) * s }),
    ;
}

impl Layout {
    /// Whether `(i, j, k)` is an index of the array.
    pub open spec fn contains(self, i: int, j: int, k: int) -> bool {
        0 <= i < self.dim.0 && 0 <= j < self.dim.1 && 0 <= k < self.dim.2
    }

    /// Position in the buffer of the element at `(i, j, k)`.
    pub open spec fn index(self, i: int, j: int, k: int) -> int {
        self.offset + i * self.strides.0 + j * self.strides.1 + k * self.strides.2
    }

    /// Whether the array has no element.
    pub open spec fn is_empty(self) -> bool {
        self.dim.0 == 0 || self.dim.1 == 0 || self.dim.2 == 0
    }

    /// Number of elements of the array.
    pub open spec fn size(self) -> int {
        self.dim.0 * self.dim.1 * self.dim.2
    }

    /// Every element lies inside a buffer of `len` elements.
    pub open spec fn in_bounds(self, len: int) -> bool {
        forall|i: int, j: int, k: int|
            self.contains(i, j, k) ==> 0 <= #[trigger] self.index(i, j, k) < len
    }

    /// Least position that an element takes, for an array that is not empty.
    pub open spec fn lowest(self) -> int {
        self.offset + low_reach(self.dim.0 as int, self.strides.0 as int) + low_reach(
            self.dim.1 as int,
            self.strides.1 as int,
        ) + low_reach(self.dim.2 as int, self.strides.2 as int)
    }

    /// Greatest position that an element takes, for an array that is not empty.
    pub open spec fn highest(self) -> int {
        self.offset + high_reach(self.dim.0 as int, self.strides.0 as int) + high_reach(
            self.dim.1 as int,
            self.strides.1 as int,
        ) + high_reach(self.dim.2 as int, self.strides.2 as int)
    }

    /// Every element lies between the lowest and the highest position.
    pub proof fn lemma_index_range(self, i: int, j: int, k: int)
        requires
            self.contains(i, j, k),
        ensures
            self.lowest() <= self.index(i, j, k) <= self.highest(),
    {
        lemma_reach(i, self.dim.0 as int, self.strides.0 as int);
        lemma_reach(j, self.dim.1 as int, self.strides.1 as int);
        lemma_reach(k, self.dim.2 as int, self.strides.2 as int);
    }

    /// An array that is not empty fits a buffer exactly when its two extreme
    /// positions do; an empty one fits any buffer.
    pub proof fn lemma_in_bounds(self, len: int)
        ensures
            self.is_empty() ==> self.in_bounds(len),
            !self.is_empty() ==> (self.in_bounds(len) <==> 0 <= self.lowest() && self.highest()
                < len),
    {
        if !self.is_empty() {
            let (d0, d1, d2) = (self.dim.0 as int, self.dim.1 as int, self.dim.2 as int);
            let (s0, s1, s2) = (
                self.strides.0 as int,
                self.strides.1 as int,
                self.strides.2 as int,
            );
            lemma_reach(0, d0, s0);
            lemma_reach(0, d1, s1);
            lemma_reach(0, d2, s2);
            if self.in_bounds(len) {
                let (a, b, c) = (low_corner(d0, s0), low_corner(d1, s1), low_corner(d2, s2));
                assert(self.contains(a, b, c));
                assert(self.index(a, b, c) == self.lowest());
                let (x, y, z) = (high_corner(d0, s0), high_corner(d1, s1), high_corner(d2, s2));
                assert(self.contains(x, y, z));
                assert(self.index(x, y, z) == self.highest());
            }
            if 0 <= self.lowest() && self.highest() < len {
                assert forall|i: int, j: int, k: int| self.contains(i, j, k) implies 0
                    <= #[trigger] self.index(i, j, k) < len by {
                    self.lemma_index_range(i, j, k);
                }
            }
        }
    }
}

impl Layout {
    /// The same elements with the first axis moved behind the other two.
    pub open spec fn rotated(self) -> Layout {
        Layout {
            offset: self.offset,
            dim: (self.dim.1, self.dim.2, self.dim.0),
            strides: (self.strides.1, self.strides.2, self.strides.0),
        }
    }

    /// The same elements with the last two axes exchanged.
    pub open spec fn swapped(self) -> Layout {
        Layout {
            offset: self.offset,
            dim: (self.dim.0, self.dim.2, self.dim.1),
            strides: (self.strides.0, self.strides.2, self.strides.1),
        }
    }

    /// Moving the first axis behind the others moves no element.
    pub proof fn lemma_rotated(self, len: int)
        ensures
            self.rotated().in_bounds(len) == self.in_bounds(len),
            forall|i: int, j: int, k: int| #[trigger]
                self.rotated().index(j, k, i) == self.index(i, j, k),
            forall|i: int, j: int, k: int| #[trigger]
                self.rotated().contains(j, k, i) == self.contains(i, j, k),
    {
        let r = self.rotated();
        if self.in_bounds(len) {
            assert forall|j: int, k: int, i: int| r.contains(j, k, i) implies 0 <= #[trigger] r.index(
                j,
                k,
                i,
            ) < len by {
                assert(self.contains(i, j, k));
                assert(r.index(j, k, i) == self.index(i, j, k));
            }
        }
        if r.in_bounds(len) {
            assert forall|i: int, j: int, k: int| self.contains(i, j, k) implies 0
                <= #[trigger] self.index(i, j, k) < len by {
                assert(r.contains(j, k, i));
                assert(r.index(j, k, i) == self.index(i, j, k));
            }
        }
    }

    /// Exchanging the last two axes moves no element.
    pub proof fn lemma_swapped(self, len: int)
        ensures
            self.swapped().in_bounds(len) == self.in_bounds(len),
            forall|i: int, j: int, k: int| #[trigger]
                self.swapped().index(i, k, j) == self.index(i, j, k),
            forall|i: int, j: int, k: int| #[trigger]
                self.swapped().contains(i, k, j) == self.contains(i, j, k),
    {
        let r = self.swapped();
        if self.in_bounds(len) {
            assert forall|i: int, k: int, j: int| r.contains(i, k, j) implies 0 <= #[trigger] r.index(
                i,
                k,
                j,
            ) < len by {
                assert(self.contains(i, j, k));
                assert(r.index(i, k, j) == self.index(i, j, k));
            }
        }
        if r.in_bounds(len) {
            assert forall|i: int, j: int, k: int| self.contains(i, j, k) implies 0
                <= #[trigger] self.index(i, j, k) < len by {
                assert(r.contains(i, k, j));
                assert(r.index(i, k, j) == self.index(i, j, k));
            }
        }
    }
}

/// Row-major position of `(i, j, k)` in a packed array of extents `(_, d1, d2)`.
pub open spec fn packed_index(d1: int, d2: int, i: int, j: int, k: int) -> int {
    (i * d1 + j) * d2 + k
}

/// In a packed array, the position tells the index: two indices within the
/// extents that share a position are the same index.
pub proof fn lemma_packed_index_unique(
    d1: int,
    d2: int,
    i: int,
    j: int,
    k: int,
    a: int,
    b: int,
    c: int,
)
    requires
        0 <= j < d1,
        0 <= b < d1,
        0 <= k < d2,
        0 <= c < d2,
        packed_index(d1, d2, i, j, k) == packed_index(d1, d2, a, b, c),
    ensures
        i == a,
        j == b,
        k == c,
{
    let p = i * d1 + j;
    let q = a * d1 + b;
    assert(p == q && k == c) by (nonlinear_arith)
        requires
            p * d2 + k == q * d2 + c,
            0 <= k < d2,
            0 <= c < d2,
    ;
    assert(i == a && j == b) by (nonlinear_arith)
        requires
            i * d1 + j == a * d1 + b,
            0 <= j < d1,
            0 <= b < d1,
    ;
}

/// In a packed array, every index within the extents has a position below
/// the number of elements.
pub proof fn lemma_packed_index_bound(d0: int, d1: int, d2: int, i: int, j: int, k: int)
    requires
        0 <= i < d0,
        0 <= j < d1,
        0 <= k < d2,
    ensures
        0 <= packed_index(d1, d2, i, j, k) < d0 * d1 * d2,
{
    let p = i * d1 + j;
    assert(0 <= p < d0 * d1) by (nonlinear_arith)
        requires
            p == i * d1 + j,
            0 <= i < d0,
            0 <= j < d1,
    ;
    assert(0 <= p * d2 + k < d0 * d1 * d2) by (nonlinear_arith)
        requires
            0 <= p < d0 * d1,
            0 <= k < d2,
    ;
}

/// Distance between the two extreme positions along one axis: `(d - 1) * |s|`.
pub open spec fn span(d: int, s: int) -> int {
    high_reach(d, s) - low_reach(d, s)
}

/// The span along one axis, exact as long as it is an address.
fn reach(d: usize, s: i128) -> (r: u128)
    requires
        d >= 1,
    ensures
        span(d as int, s as int) <= usize::MAX ==> r == span(d as int, s as int),
        span(d as int, s as int) > usize::MAX ==> r > usize::MAX,
{
    let steps: u128 = (d - 1) as u128;
    if steps == 0 {
        assert(span(d as int, s as int) == 0) by (nonlinear_arith)
            requires
                d == 1,
                span(d as int, s as int) == (if s < 0 {
                    0 - (d - 1) * s
                } else {
                    (d - 1) * s - 0
                }),
        ;
        return 0;
    }
    if s > 0xffff_ffff_ffff_ffff || s < -0xffff_ffff_ffff_ffff {
        assert(span(d as int, s as int) > 0xffff_ffff_ffff_ffff) by (nonlinear_arith)
            requires
                d >= 2,
                s > 0xffff_ffff_ffff_ffff || s < -0xffff_ffff_ffff_ffff,
                span(d as int, s as int) == (if s < 0 {
                    0 - (d - 1) * s
                } else {
                    (d - 1) * s - 0
                }),
        ;
        return u128::MAX;
    }
    let step: u128 = if s < 0 {
        (-s) as u128
    } else {
        s as u128
    };
    assert(steps * step <= 0xffff_ffff_ffff_ffff * 0xffff_ffff_ffff_ffff) by (nonlinear_arith)
        requires
            0 <= steps <= 0xffff_ffff_ffff_ffff,
            0 <= step <= 0xffff_ffff_ffff_ffff,
    ;
    assert((d - 1) * (-(s as int)) == -((d - 1) * s)) by (nonlinear_arith);
    steps * step
}

impl Layout {
    /// Whether every element lies inside a buffer of `len` elements.
    pub fn fits(&self, len: usize) -> (r: bool)
        ensures
            r == self.in_bounds(len as int),
    {
        proof {
            self.lemma_in_bounds(len as int);
        }
        if self.dim.0 == 0 || self.dim.1 == 0 || self.dim.2 == 0 {
            return true;
        }
        proof {
            lemma_reach(0, self.dim.0 as int, self.strides.0 as int);
            lemma_reach(0, self.dim.1 as int, self.strides.1 as int);
            lemma_reach(0, self.dim.2 as int, self.strides.2 as int);
        }
        let start: u128 = self.offset as u128;
        let end: u128 = len as u128;
        let r0: u128 = reach(self.dim.0, self.strides.0);
        let r1: u128 = reach(self.dim.1, self.strides.1);
        let r2: u128 = reach(self.dim.2, self.strides.2);
        let mut down: u128 = 0;
        let mut up: u128 = start;
        if self.strides.0 < 0 {
            if r0 > start {
                return false;
            }
            down = down + r0;
        } else {
            if r0 >= end {
                return false;
            }
            up = up + r0;
        }
        if self.strides.1 < 0 {
            if r1 > start {
                return false;
            }
            down = down + r1;
        } else {
            if r1 >= end {
                return false;
            }
            up = up + r1;
        }
        if self.strides.2 < 0 {
            if r2 > start {
                return false;
            }
            down = down + r2;
        } else {
            if r2 >= end {
                return false;
            }
            up = up + r2;
        }
        down <= start && up < end
    }

    /// The same elements with the first axis moved behind the other two.
    pub fn to_rotated(&self) -> (r: Layout)
        ensures
            r == self.rotated(),
    {
        Layout {
            offset: self.offset,
            dim: (self.dim.1, self.dim.2, self.dim.0),
            strides: (self.strides.1, self.strides.2, self.strides.0),
        }
    }

    /// The same elements with the last two axes exchanged.
    pub fn to_swapped(&self) -> (r: Layout)
        ensures
            r == self.swapped(),
    {
        Layout {
            offset: self.offset,
            dim: (self.dim.0, self.dim.2, self.dim.1),
            strides: (self.strides.0, self.strides.2, self.strides.1),
        }
    }

    /// Position in a buffer of `len` elements of the element at `(i, j, k)`.
    pub fn position(&self, len: usize, i: usize, j: usize, k: usize) -> (p: usize)
        requires
            self.in_bounds(len as int),
            self.contains(i as int, j as int, k as int),
        ensures
            p == self.index(i as int, j as int, k as int),
            p < len,
    {
        proof {
            self.lemma_in_bounds(len as int);
            lemma_reach(0, self.dim.0 as int, self.strides.0 as int);
            lemma_reach(0, self.dim.1 as int, self.strides.1 as int);
            lemma_reach(0, self.dim.2 as int, self.strides.2 as int);
            lemma_reach(i as int, self.dim.0 as int, self.strides.0 as int);
            lemma_reach(j as int, self.dim.1 as int, self.strides.1 as int);
            lemma_reach(k as int, self.dim.2 as int, self.strides.2 as int);
            assert(self.index(i as int, j as int, k as int) < len);
        }
        let a: i128 = (i as i128) * self.strides.0;
        let b: i128 = (j as i128) * self.strides.1;
        let c: i128 = (k as i128) * self.strides.2;
        let p: i128 = self.offset as i128 + a + b + c;
        p as usize
    }

    /// The element at `(i, j, k)`, where the index is one of the array and
    /// the array fits the buffer.
    pub fn get<'a, T>(&self, data: &'a [T], i: usize, j: usize, k: usize) -> (r: Option<&'a T>)
        ensures
            r == (if self.contains(i as int, j as int, k as int) && self.in_bounds(
                data@.len() as int,
            ) {
                Some(&data@[self.index(i as int, j as int, k as int)])
            } else {
                None
            }),
    {
        if i < self.dim.0 && j < self.dim.1 && k < self.dim.2 && self.fits(data.len()) {
            let p: usize = self.position(data.len(), i, j, k);
            Some(&data[p])
        } else {
            None
        }
    }

    /// Writes `value` at `(i, j, k)`, where the index is one of the array
    /// and the array fits the buffer, and says whether it did.
    pub(crate) fn set<T>(&self, data: &mut [T], i: usize, j: usize, k: usize, value: T) -> (done:
        bool)
        ensures
            done == (self.contains(i as int, j as int, k as int) && self.in_bounds(
                old(data)@.len() as int,
            )),
            final(data)@ == (if done {
                old(data)@.update(self.index(i as int, j as int, k as int), value)
            } else {
                old(data)@
            }),
    {
        if i < self.dim.0 && j < self.dim.1 && k < self.dim.2 && self.fits(data.len()) {
            let p: usize = self.position(data.len(), i, j, k);
            data[p] = value;
            true
        } else {
            false
        }
    }

    /// The elements in row-major order of their indices, read through the
    /// strides: the element at `(i, j, k)` comes at `(i*d1 + j)*d2 + k`.
    pub fn gather<T: Copy>(&self, data: &[T]) -> (out: Vec<T>)
        requires
            self.in_bounds(data@.len() as int),
        ensures
            out@.len() == self.size(),
            forall|i: int, j: int, k: int|
                self.contains(i, j, k) ==> #[trigger] out@[packed_index(
                    self.dim.1 as int,
                    self.dim.2 as int,
                    i,
                    j,
                    k,
                )] == data@[self.index(i, j, k)],
    {
        let (d0, d1, d2) = self.dim;
        let mut out: Vec<T> = Vec::new();
        let mut i: usize = 0;
        proof {
            assert(packed_index(d1 as int, d2 as int, 0, 0, 0) == 0) by (nonlinear_arith);
        }
        while i < d0
            invariant
                (d0, d1, d2) == self.dim,
                self.in_bounds(data@.len() as int),
                i <= d0,
                out@.len() == packed_index(d1 as int, d2 as int, i as int, 0, 0),
                forall|a: int, b: int, c: int|
                    self.contains(a, b, c) && packed_index(d1 as int, d2 as int, a, b, c)
                        < out@.len() ==> #[trigger] out@[packed_index(
                        d1 as int,
                        d2 as int,
                        a,
                        b,
                        c,
                    )] == data@[self.index(a, b, c)],
            decreases d0 - i,
        {
            let mut j: usize = 0;
            while j < d1
                invariant
                    (d0, d1, d2) == self.dim,
                    self.in_bounds(data@.len() as int),
                    i < d0,
                    j <= d1,
                    out@.len() == packed_index(d1 as int, d2 as int, i as int, j as int, 0),
                    forall|a: int, b: int, c: int|
                        self.contains(a, b, c) && packed_index(d1 as int, d2 as int, a, b, c)
                            < out@.len() ==> #[trigger] out@[packed_index(
                            d1 as int,
                            d2 as int,
                            a,
                            b,
                            c,
                        )] == data@[self.index(a, b, c)],
                decreases d1 - j,
            {
                let mut k: usize = 0;
                while k < d2
                    invariant
                        (d0, d1, d2) == self.dim,
                        self.in_bounds(data@.len() as int),
                        i < d0,
                        j < d1,
                        k <= d2,
                        out@.len() == packed_index(
                            d1 as int,
                            d2 as int,
                            i as int,
                            j as int,
                            k as int,
                        ),
                        forall|a: int, b: int, c: int|
                            self.contains(a, b, c) && packed_index(d1 as int, d2 as int, a, b, c)
                                < out@.len() ==> #[trigger] out@[packed_index(
                                d1 as int,
                                d2 as int,
                                a,
                                b,
                                c,
                            )] == data@[self.index(a, b, c)],
                    decreases d2 - k,
                {
                    let p: usize = self.position(data.len(), i, j, k);
                    let value: T = data[p];
                    let ghost before = out@;
                    out.push(value);
                    proof {
                        assert forall|a: int, b: int, c: int|
                            self.contains(a, b, c) && packed_index(
                                d1 as int,
                                d2 as int,
                                a,
                                b,
                                c,
                            ) < out@.len() implies #[trigger] out@[packed_index(
                            d1 as int,
                            d2 as int,
                            a,
                            b,
                            c,
                        )] == data@[self.index(a, b, c)] by {
                            let q = packed_index(d1 as int, d2 as int, a, b, c);
                            if q < before.len() {
                                assert(out@[q] == before[q]);
                            } else {
                                lemma_packed_index_unique(
                                    d1 as int,
                                    d2 as int,
                                    a,
                                    b,
                                    c,
                                    i as int,
                                    j as int,
                                    k as int,
                                );
                            }
                        }
                    }
                    k = k + 1;
                }
                proof {
                    assert(packed_index(d1 as int, d2 as int, i as int, j as int, d2 as int)
                        == packed_index(d1 as int, d2 as int, i as int, j + 1, 0))
                        by (nonlinear_arith);
                }
                j = j + 1;
            }
            proof {
                assert(packed_index(d1 as int, d2 as int, i as int, d1 as int, 0) == packed_index(
                    d1 as int,
                    d2 as int,
                    i + 1,
                    0,
                    0,
                )) by (nonlinear_arith);
            }
            i = i + 1;
        }
        proof {
            assert(packed_index(d1 as int, d2 as int, d0 as int, 0, 0) == d0 * d1 * d2)
                by (nonlinear_arith);
            assert forall|a: int, b: int, c: int| self.contains(a, b, c) implies #[trigger] out@[packed_index(
                d1 as int,
                d2 as int,
                a,
                b,
                c,
            )] == data@[self.index(a, b, c)] by {
                lemma_packed_index_bound(d0 as int, d1 as int, d2 as int, a, b, c);
            }
        }
        out
    }
}


} // verus!
