//! Pixel buffers seen as arrays.
//!
//! The samples stay where they are. The array has the channel as its first
//! axis, the row as its second and the column as its third, and reaches the
//! samples through the strides of the sample layout.

use vstd::prelude::*;
use crate::array::{Array2, Array3, ArrayView2, ArrayView3, ArrayViewMut2, ArrayViewMut3, View2, View3};
use crate::error::ConvertError;
use crate::image::{ImageBuffer, SampleLayout};
use crate::tondarray::{AsNdarray2, AsNdarray2Mut, AsNdarray3, AsNdarray3Mut, IntoNdarray2, IntoNdarray3};

verus! {

impl SampleLayout {
    /// Every stride is a signed stride.
    pub open spec fn strides_are_signed(self) -> bool {
        self.channel_stride <= isize::MAX && self.height_stride <= isize::MAX && self.width_stride
            <= isize::MAX
    }

    /// The view of `(channels, height, width)` that reaches the samples by
    /// the strides of the layout.
    pub open spec fn array3<const EXCLUSIVE: bool>(self) -> View3<EXCLUSIVE> {
        View3 {
            offset: 0,
            dim: (self.channels as usize, self.height as usize, self.width as usize),
            strides: (
                self.channel_stride as isize,
                self.height_stride as isize,
                self.width_stride as isize,
            ),
        }
    }

    /// The view of `(height, width)` that reaches the samples by the
    /// strides of the layout.
    pub open spec fn array2<const EXCLUSIVE: bool>(self) -> View2<EXCLUSIVE> {
        View2 {
            offset: 0,
            dim: (self.height as usize, self.width as usize),
            strides: (self.height_stride as isize, self.width_stride as isize),
        }
    }

    /// The array view of three axes onto a buffer of `len` samples, where
    /// there is one: `StrideOverflow` where a stride is no signed stride,
    /// `ShapeMismatch` where a sample would lie outside the buffer.
    pub open spec fn to_ndarray3<const EXCLUSIVE: bool>(self, len: int) -> Result<
        View3<EXCLUSIVE>,
        ConvertError,
    > {
        if !self.strides_are_signed() {
            Err(ConvertError::StrideOverflow)
        } else if !self.array3::<EXCLUSIVE>().in_bounds(len) {
            Err(ConvertError::ShapeMismatch)
        } else {
            Ok(self.array3::<EXCLUSIVE>())
        }
    }

    /// The array view of two axes onto a buffer of `len` samples, where
    /// there is one: `ChannelMismatch` where a pixel does not have one
    /// channel, `StrideOverflow` where a stride is no signed stride,
    /// `ShapeMismatch` where a sample would lie outside the buffer.
    pub open spec fn to_ndarray2<const EXCLUSIVE: bool>(self, len: int) -> Result<
        View2<EXCLUSIVE>,
        ConvertError,
    > {
        if self.channels != 1 {
            Err(ConvertError::ChannelMismatch)
        } else if !self.strides_are_signed() {
            Err(ConvertError::StrideOverflow)
        } else if !self.array2::<EXCLUSIVE>().in_bounds(len) {
            Err(ConvertError::ShapeMismatch)
        } else {
            Ok(self.array2::<EXCLUSIVE>())
        }
    }

    /// The array view of three axes onto a buffer of `len` samples.
    pub fn view3<const EXCLUSIVE: bool>(&self, len: usize) -> (r: Result<
        View3<EXCLUSIVE>,
        ConvertError,
    >)
        ensures
            r == self.to_ndarray3::<EXCLUSIVE>(len as int),
    {
        let limit: usize = isize::MAX as usize;
        if self.channel_stride > limit || self.height_stride > limit || self.width_stride > limit {
            return Err(ConvertError::StrideOverflow);
        }
        let view = View3 {
            offset: 0,
            dim: (self.channels as usize, self.height as usize, self.width as usize),
            strides: (
                self.channel_stride as isize,
                self.height_stride as isize,
                self.width_stride as isize,
            ),
        };
        if view.fits(len) {
            Ok(view)
        } else {
            Err(ConvertError::ShapeMismatch)
        }
    }

    /// The array view of two axes onto a buffer of `len` samples.
    pub fn view2<const EXCLUSIVE: bool>(&self, len: usize) -> (r: Result<
        View2<EXCLUSIVE>,
        ConvertError,
    >)
        ensures
            r == self.to_ndarray2::<EXCLUSIVE>(len as int),
    {
        if self.channels != 1 {
            return Err(ConvertError::ChannelMismatch);
        }
        let limit: usize = isize::MAX as usize;
        if self.channel_stride > limit || self.height_stride > limit || self.width_stride > limit {
            return Err(ConvertError::StrideOverflow);
        }
        let view = View2 {
            offset: 0,
            dim: (self.height as usize, self.width as usize),
            strides: (self.height_stride as isize, self.width_stride as isize),
        };
        if view.fits(len) {
            Ok(view)
        } else {
            Err(ConvertError::ShapeMismatch)
        }
    }
}

impl<T, const CHANNELS: u8> ImageBuffer<T, CHANNELS> {
    /// The array view of three axes onto the samples, where there is one.
    pub open spec fn to_ndarray3<const EXCLUSIVE: bool>(self) -> Result<
        View3<EXCLUSIVE>,
        ConvertError,
    > {
        if CHANNELS * self.width > usize::MAX {
            Err(ConvertError::ShapeMismatch)
        } else {
            SampleLayout::packed(CHANNELS, self.width, self.height).to_ndarray3::<EXCLUSIVE>(
                self.data@.len() as int,
            )
        }
    }

    /// The view of three axes onto packed rows stands, at `(c, y, x)`, where
    /// the image keeps channel `c` of the pixel at `(x, y)`; it fits the
    /// buffer exactly when the buffer holds every pixel.
    pub proof fn lemma_packed_view3<const EXCLUSIVE: bool>(self)
        requires
            CHANNELS * self.width <= isize::MAX,
        ensures
            SampleLayout::packed(CHANNELS, self.width, self.height).strides_are_signed(),
            SampleLayout::packed(CHANNELS, self.width, self.height).array3::<EXCLUSIVE>().in_bounds(
                self.data@.len() as int,
            ) == self.wf(),
            forall|c: int, y: int, x: int|
                SampleLayout::packed(CHANNELS, self.width, self.height).array3::<
                    EXCLUSIVE,
                >().contains(c, y, x) == self.contains(x, y, c),
            forall|c: int, y: int, x: int| #[trigger]
                SampleLayout::packed(CHANNELS, self.width, self.height).array3::<EXCLUSIVE>().index(
                    c,
                    y,
                    x,
                ) == self.sample_index(x, y, c),
    {
        let v = SampleLayout::packed(CHANNELS, self.width, self.height).array3::<EXCLUSIVE>();
        let len = self.data@.len() as int;
        assert forall|c: int, y: int, x: int| #[trigger] v.index(c, y, x) == self.sample_index(
            x,
            y,
            c,
        ) by {
            assert(c * 1 + y * (CHANNELS * self.width) + x * CHANNELS == (y * self.width + x)
                * CHANNELS + c) by (nonlinear_arith);
        }
        if self.wf() {
            assert forall|c: int, y: int, x: int| v.layout().contains(c, y, x) implies 0
                <= #[trigger] v.layout().index(c, y, x) < len by {
                assert(v.index(c, y, x) == self.sample_index(x, y, c));
                self.lemma_sample_index(x, y, c);
            }
        }
        if v.in_bounds(len) {
            if CHANNELS > 0 && self.width > 0 && self.height > 0 {
                let (c, y, x) = (CHANNELS - 1, self.height - 1, self.width - 1);
                assert(v.layout().contains(c, y, x));
                assert(v.index(c, y, x) == self.sample_index(x, y, c));
                assert(self.sample_index(x, y, c) + 1 == self.sample_count()) by (nonlinear_arith)
                    requires
                        self.sample_index(x, y, c) == (y * self.width + x) * CHANNELS + c,
                        self.sample_count() == CHANNELS * self.width * self.height,
                        c == CHANNELS - 1,
                        y == self.height - 1,
                        x == self.width - 1,
                ;
            } else {
                assert(self.sample_count() == 0) by (nonlinear_arith)
                    requires
                        self.sample_count() == CHANNELS * self.width * self.height,
                        CHANNELS == 0 || self.width == 0 || self.height == 0,
                ;
            }
        }
    }

    /// There is a view of three axes exactly when the buffer holds every
    /// pixel and a row is no longer than a signed stride. It reaches each
    /// sample of the buffer: `(c, y, x)` stands for channel `c` of the pixel
    /// at `(x, y)`.
    pub proof fn lemma_to_ndarray3<const EXCLUSIVE: bool>(self)
        ensures
            self.to_ndarray3::<EXCLUSIVE>() is Ok <==> self.wf() && CHANNELS * self.width
                <= isize::MAX,
            self.to_ndarray3::<EXCLUSIVE>() is Ok ==> {
                &&& self.to_ndarray3::<EXCLUSIVE>().unwrap().in_bounds(self.data@.len() as int)
                &&& forall|c: int, y: int, x: int|
                    self.to_ndarray3::<EXCLUSIVE>().unwrap().contains(c, y, x) == self.contains(
                        x,
                        y,
                        c,
                    )
                &&& forall|c: int, y: int, x: int| #[trigger]
                    self.to_ndarray3::<EXCLUSIVE>().unwrap().index(c, y, x) == self.sample_index(
                        x,
                        y,
                        c,
                    )
            },
    {
        if CHANNELS * self.width <= isize::MAX {
            self.lemma_packed_view3::<EXCLUSIVE>();
        }
    }

    /// The array view of three axes onto the samples.
    pub fn view3<const EXCLUSIVE: bool>(&self) -> (r: Result<View3<EXCLUSIVE>, ConvertError>)
        ensures
            r == self.to_ndarray3::<EXCLUSIVE>(),
    {
        assert(CHANNELS * self.width <= 0xff * 0xffff_ffff) by (nonlinear_arith)
            requires
                0 <= CHANNELS <= 0xff,
                0 <= self.width <= 0xffff_ffff,
        ;
        if (CHANNELS as u128) * (self.width as u128) > usize::MAX as u128 {
            return Err(ConvertError::ShapeMismatch);
        }
        self.sample_layout().view3::<EXCLUSIVE>(self.data.len())
    }
}

impl<T> ImageBuffer<T, 1> {
    /// The array view of two axes onto the samples, where there is one.
    pub open spec fn to_ndarray2<const EXCLUSIVE: bool>(self) -> Result<
        View2<EXCLUSIVE>,
        ConvertError,
    > {
        SampleLayout::packed(1, self.width, self.height).to_ndarray2::<EXCLUSIVE>(
            self.data@.len() as int,
        )
    }

    /// There is a view of two axes exactly when the buffer holds every
    /// pixel and a row is no longer than a signed stride. It reaches each
    /// sample of the buffer: `(y, x)` stands for the pixel at `(x, y)`.
    pub proof fn lemma_to_ndarray2<const EXCLUSIVE: bool>(self)
        ensures
            self.to_ndarray2::<EXCLUSIVE>() is Ok <==> self.wf() && self.width <= isize::MAX,
            self.to_ndarray2::<EXCLUSIVE>() is Ok ==> {
                &&& self.to_ndarray2::<EXCLUSIVE>().unwrap().in_bounds(self.data@.len() as int)
                &&& forall|y: int, x: int|
                    self.to_ndarray2::<EXCLUSIVE>().unwrap().contains(y, x) == self.contains(
                        x,
                        y,
                        0,
                    )
                &&& forall|y: int, x: int| #[trigger]
                    self.to_ndarray2::<EXCLUSIVE>().unwrap().index(y, x) == self.sample_index(
                        x,
                        y,
                        0,
                    )
            },
    {
        let len = self.data@.len() as int;
        let layout = SampleLayout::packed(1, self.width, self.height);
        if self.width <= isize::MAX {
            self.lemma_packed_view3::<EXCLUSIVE>();
            let v = layout.array2::<EXCLUSIVE>();
            let cube = layout.array3::<EXCLUSIVE>();
            assert forall|y: int, x: int| #[trigger] v.index(y, x) == self.sample_index(x, y, 0) by {
                assert(cube.index(0, y, x) == self.sample_index(x, y, 0));
            }
            if cube.in_bounds(len) {
                assert forall|y: int, x: int| v.contains(y, x) implies 0 <= #[trigger] v.index(y, x)
                    < len by {
                    assert(cube.layout().contains(0, y, x));
                    assert(cube.layout().index(0, y, x) == v.index(y, x));
                }
            }
            if v.in_bounds(len) {
                assert forall|c: int, y: int, x: int| cube.layout().contains(c, y, x) implies 0
                    <= #[trigger] cube.layout().index(c, y, x) < len by {
                    assert(v.contains(y, x));
                    assert(cube.layout().index(c, y, x) == v.index(y, x));
                }
            }
        }
    }

    /// The array view of two axes onto the samples.
    pub fn view2<const EXCLUSIVE: bool>(&self) -> (r: Result<View2<EXCLUSIVE>, ConvertError>)
        ensures
            r == self.to_ndarray2::<EXCLUSIVE>(),
    {
        assert(1 * self.width == self.width) by (nonlinear_arith);
        self.sample_layout().view2::<EXCLUSIVE>(self.data.len())
    }
}

impl<T> IntoNdarray2 for ImageBuffer<T, 1> {
    type Out = Result<Array2<T>, ConvertError>;

    /// The array of `(height, width)` over the same buffer: it shows at
    /// `(y, x)` the sample of the pixel at `(x, y)`. It is refused with
    /// `ShapeMismatch` where the buffer does not hold every pixel.
    fn into_ndarray2(self) -> (r: Self::Out)
        ensures
            r is Ok <==> self.wf() && self.width <= isize::MAX,
            r matches Err(e) ==> self.to_ndarray2::<false>() == Err::<ArrayView2, _>(e),
            r matches Ok(a) ==> {
                &&& Ok::<_, ConvertError>(a.view()) == self.to_ndarray2::<false>()
                &&& a.data@ == self.data@
                &&& a.wf()
                &&& a.agrees_with_gray(self)
            },
    {
        proof {
            self.lemma_to_ndarray2::<false>();
        }
        let view = self.view2::<false>();
        match view {
            Err(e) => Err(e),
            Ok(v) => Ok(
                Array2 { data: self.data, offset: v.offset, dim: v.dim, strides: v.strides },
            ),
        }
    }
}

impl<T> AsNdarray2 for ImageBuffer<T, 1> {
    type Out = Result<ArrayView2, ConvertError>;

    /// The shared view of `(height, width)` onto the samples: it reaches at
    /// `(y, x)` the sample of the pixel at `(x, y)`, inside the buffer.
    fn as_ndarray2(&self) -> (r: Self::Out)
        ensures
            r == self.to_ndarray2::<false>(),
            r is Ok <==> self.wf() && self.width <= isize::MAX,
            r matches Ok(v) ==> {
                &&& v.in_bounds(self.data@.len() as int)
                &&& forall|y: int, x: int| #[trigger]
                    v.index(y, x) == self.sample_index(x, y, 0)
            },
    {
        proof {
            self.lemma_to_ndarray2::<false>();
        }
        self.view2::<false>()
    }
}

impl<T> AsNdarray2Mut for ImageBuffer<T, 1> {
    type Out = Result<ArrayViewMut2, ConvertError>;

    /// The exclusive view of `(height, width)` onto the samples: it reaches
    /// at `(y, x)` the sample of the pixel at `(x, y)`, inside the buffer.
    /// The image itself is left as it is.
    fn as_ndarray2_mut(&mut self) -> (r: Self::Out)
        ensures
            *final(self) == *old(self),
            r == old(self).to_ndarray2::<true>(),
            r is Ok <==> old(self).wf() && old(self).width <= isize::MAX,
            r matches Ok(v) ==> {
                &&& v.in_bounds(old(self).data@.len() as int)
                &&& forall|y: int, x: int| #[trigger]
                    v.index(y, x) == old(self).sample_index(x, y, 0)
            },
    {
        proof {
            self.lemma_to_ndarray2::<true>();
        }
        self.view2::<true>()
    }
}

impl<T, const CHANNELS: u8> IntoNdarray3 for ImageBuffer<T, CHANNELS> {
    type Out = Result<Array3<T>, ConvertError>;

    /// The array of `(channels, height, width)` over the same buffer: it
    /// shows at `(c, y, x)` channel `c` of the pixel at `(x, y)`. It is
    /// refused with `ShapeMismatch` where the buffer does not hold every
    /// pixel.
    fn into_ndarray3(self) -> (r: Self::Out)
        ensures
            r is Ok <==> self.wf() && CHANNELS * self.width <= isize::MAX,
            r matches Err(e) ==> self.to_ndarray3::<false>() == Err::<ArrayView3, _>(e),
            r matches Ok(a) ==> {
                &&& Ok::<_, ConvertError>(a.view()) == self.to_ndarray3::<false>()
                &&& a.data@ == self.data@
                &&& a.wf()
                &&& a.agrees_with_image(self)
            },
    {
        proof {
            self.lemma_to_ndarray3::<false>();
        }
        let view = self.view3::<false>();
        match view {
            Err(e) => Err(e),
            Ok(v) => Ok(
                Array3 { data: self.data, offset: v.offset, dim: v.dim, strides: v.strides },
            ),
        }
    }
}

impl<T, const CHANNELS: u8> AsNdarray3 for ImageBuffer<T, CHANNELS> {
    type Out = Result<ArrayView3, ConvertError>;

    /// The shared view of `(channels, height, width)` onto the samples: it
    /// reaches at `(c, y, x)` channel `c` of the pixel at `(x, y)`, inside
    /// the buffer.
    fn as_ndarray3(&self) -> (r: Self::Out)
        ensures
            r == self.to_ndarray3::<false>(),
            r is Ok <==> self.wf() && CHANNELS * self.width <= isize::MAX,
            r matches Ok(v) ==> {
                &&& v.in_bounds(self.data@.len() as int)
                &&& forall|c: int, y: int, x: int| #[trigger]
                    v.index(c, y, x) == self.sample_index(x, y, c)
            },
    {
        proof {
            self.lemma_to_ndarray3::<false>();
        }
        self.view3::<false>()
    }
}

impl<T, const CHANNELS: u8> AsNdarray3Mut for ImageBuffer<T, CHANNELS> {
    type Out = Result<ArrayViewMut3, ConvertError>;

    /// The exclusive view of `(channels, height, width)` onto the samples:
    /// it reaches at `(c, y, x)` channel `c` of the pixel at `(x, y)`,
    /// inside the buffer. The image itself is left as it is.
    fn as_ndarray3_mut(&mut self) -> (r: Self::Out)
        ensures
            *final(self) == *old(self),
            r == old(self).to_ndarray3::<true>(),
            r is Ok <==> old(self).wf() && CHANNELS * old(self).width <= isize::MAX,
            r matches Ok(v) ==> {
                &&& v.in_bounds(old(self).data@.len() as int)
                &&& forall|c: int, y: int, x: int| #[trigger]
                    v.index(c, y, x) == old(self).sample_index(x, y, c)
            },
    {
        proof {
            self.lemma_to_ndarray3::<true>();
        }
        self.view3::<true>()
    }
}

} // verus!
