//! Arrays seen as pixel buffers.
//!
//! The array has the channel as its first axis; the pixel buffer keeps the
//! channels of one pixel side by side. Where the strides of the array
//! already say so, its buffer is handed over. Where they do not, a new
//! buffer is filled: each sample is read through the strides of the array
//! and written at its place in the packed rows of the image.

use vstd::prelude::*;
use crate::array::{Array2, Array3};
use crate::error::ConvertError;
use crate::image::ImageBuffer;
use crate::strided::{lemma_packed_index_bound, packed_index};
use crate::toimage::{ToImageGray, ToImageLuma, ToImageRgb, ToImageRgba};

verus! {

impl<T> Array3<T> {
    /// The array has the shape `(CHANNELS, height, width)` of the image and
    /// shows at `(c, y, x)` channel `c` of the pixel at `(x, y)`.
    pub open spec fn agrees_with_image<const CHANNELS: u8>(
        self,
        img: ImageBuffer<T, CHANNELS>,
    ) -> bool {
        &&& img.wf()
        &&& self.dim.0 == CHANNELS
        &&& self.dim.1 == img.height
        &&& self.dim.2 == img.width
        &&& forall|c: int, y: int, x: int| #[trigger]
            img.contains(x, y, c) ==> img.sample(x, y, c) == self.at(c, y, x)
    }

    /// The extents are those of an image of `channels` channels.
    pub open spec fn is_image_shape(self, channels: u8) -> bool {
        &&& self.dim.0 == channels
        &&& self.dim.1 <= u32::MAX
        &&& self.dim.2 <= u32::MAX
        &&& channels * self.dim.2 <= usize::MAX
    }

    /// The strides are those of packed rows of pixels, on every axis along
    /// which there is a step to take, and the first element stands first.
    pub open spec fn is_channel_last(self) -> bool {
        &&& self.offset == 0
        &&& self.dim.0 <= 1 || self.strides.0 == 1
        &&& self.dim.1 <= 1 || self.strides.1 == self.dim.0 * self.dim.2
        &&& self.dim.2 <= 1 || self.strides.2 == self.dim.0
    }

    /// Whether the strides are those of packed rows of pixels.
    pub fn channel_last(&self) -> (r: bool)
        ensures
            r == self.is_channel_last(),
    {
        assert(self.dim.0 * self.dim.2 <= 0xffff_ffff_ffff_ffff * 0xffff_ffff_ffff_ffff)
            by (nonlinear_arith)
            requires
                0 <= self.dim.0 <= 0xffff_ffff_ffff_ffff,
                0 <= self.dim.2 <= 0xffff_ffff_ffff_ffff,
        ;
        let row: u128 = (self.dim.0 as u128) * (self.dim.2 as u128);
        self.offset == 0 && (self.dim.0 <= 1 || self.strides.0 == 1) && (self.dim.1 <= 1 || (
        self.strides.1 >= 0 && self.strides.1 as u128 == row)) && (self.dim.2 <= 1 || (
        self.strides.2 >= 0 && self.strides.2 as usize == self.dim.0))
    }

    /// In an array whose strides are those of packed rows of pixels, the
    /// element at `(c, y, x)` stands where the image keeps channel `c` of
    /// the pixel at `(x, y)`.
    pub proof fn lemma_channel_last(self, c: int, y: int, x: int)
        requires
            self.is_channel_last(),
            self.view().contains(c, y, x),
        ensures
            self.view().index(c, y, x) == packed_index(
                self.dim.2 as int,
                self.dim.0 as int,
                y,
                x,
                c,
            ),
    {
        let (d0, d1, d2) = (self.dim.0 as int, self.dim.1 as int, self.dim.2 as int);
        assert(c * self.strides.0 == c) by (nonlinear_arith)
            requires
                0 <= c < d0,
                d0 <= 1 || self.strides.0 == 1,
        ;
        assert(y * self.strides.1 == y * (d0 * d2)) by (nonlinear_arith)
            requires
                0 <= y < d1,
                d1 <= 1 || self.strides.1 == d0 * d2,
        ;
        assert(x * self.strides.2 == x * d0) by (nonlinear_arith)
            requires
                0 <= x < d2,
                d2 <= 1 || self.strides.2 == d0,
        ;
        assert(c + y * (d0 * d2) + x * d0 == (y * d2 + x) * d0 + c) by (nonlinear_arith);
    }

    /// The image of `CHANNELS` channels that shows channel `c` of the pixel
    /// at `(x, y)` where the array shows `(c, y, x)`.
    ///
    /// It is refused with `ChannelMismatch` exactly when the first axis does
    /// not have `CHANNELS` elements, and otherwise with `ShapeMismatch`
    /// exactly when an element lies outside the buffer or an extent is no
    /// extent of an image. An array whose strides are those of packed rows
    /// of pixels hands its buffer over.
    pub fn into_image<const CHANNELS: u8>(self) -> (r: Result<
        ImageBuffer<T, CHANNELS>,
        ConvertError,
    >) where T: Copy
        ensures
            r is Ok <==> self.is_image_shape(CHANNELS) && self.wf(),
            r matches Err(e) ==> e == (if self.dim.0 != CHANNELS {
                ConvertError::ChannelMismatch
            } else {
                ConvertError::ShapeMismatch
            }),
            r matches Ok(img) ==> {
                &&& self.agrees_with_image(img)
                &&& self.is_channel_last() ==> img.data@ == self.data@
                &&& !self.is_channel_last() ==> img.data@.len() == img.sample_count()
            },
    {
        let (channels, rows, cols) = self.dim;
        if channels != CHANNELS as usize {
            return Err(ConvertError::ChannelMismatch);
        }
        if rows > u32::MAX as usize || cols > u32::MAX as usize {
            return Err(ConvertError::ShapeMismatch);
        }
        assert(CHANNELS * cols <= 0xff * 0xffff_ffff) by (nonlinear_arith)
            requires
                0 <= CHANNELS <= 0xff,
                0 <= cols <= 0xffff_ffff,
        ;
        if (CHANNELS as u128) * (cols as u128) > usize::MAX as u128 {
            return Err(ConvertError::ShapeMismatch);
        }
        if !self.is_well_formed() {
            return Err(ConvertError::ShapeMismatch);
        }
        let height: u32 = rows as u32;
        let width: u32 = cols as u32;
        if self.channel_last() {
            let ghost old_self = self;
            let img = ImageBuffer::<T, CHANNELS> { width, height, data: self.data };
            proof {
                assert forall|c: int, y: int, x: int| #[trigger]
                    img.contains(x, y, c) implies img.sample(x, y, c) == old_self.at(c, y, x) by {
                    old_self.lemma_channel_last(c, y, x);
                }
                if rows > 0 && cols > 0 && channels > 0 {
                    let (c, y, x) = (channels - 1, rows - 1, cols - 1);
                    assert(old_self.view().layout().contains(c, y, x));
                    old_self.lemma_channel_last(c, y, x);
                    assert(packed_index(cols as int, channels as int, y, x, c) + 1 == channels
                        * cols * rows) by (nonlinear_arith)
                        requires
                            c == channels - 1,
                            y == rows - 1,
                            x == cols - 1,
                    ;
                    assert(old_self.view().layout().index(c, y, x) < old_self.data@.len());
                } else {
                    assert(channels * cols * rows == 0) by (nonlinear_arith)
                        requires
                            rows == 0 || cols == 0 || channels == 0,
                    ;
                }
            }
            return Ok(img);
        }
        let layout = self.view().to_layout().to_rotated();
        proof {
            self.view().layout().lemma_rotated(self.data@.len() as int);
        }
        let out: Vec<T> = layout.gather(self.data.as_slice());
        proof {
            assert(layout.size() == channels * cols * rows) by (nonlinear_arith)
                requires
                    layout.size() == rows * cols * channels,
            ;
            assert forall|c: int, y: int, x: int|
                0 <= c < channels && 0 <= y < rows && 0 <= x < cols implies #[trigger] out@[packed_index(
                cols as int,
                channels as int,
                y,
                x,
                c,
            )] == self.at(c, y, x) by {
                assert(layout.contains(y, x, c));
                assert(layout.index(y, x, c) == self.view().layout().index(c, y, x));
                lemma_packed_index_bound(rows as int, cols as int, channels as int, y, x, c);
            }
        }
        let img = ImageBuffer::<T, CHANNELS> { width, height, data: out };
        proof {
            assert forall|c: int, y: int, x: int| #[trigger]
                img.contains(x, y, c) implies img.sample(x, y, c) == self.at(c, y, x) by {
                assert(img.sample(x, y, c) == out@[packed_index(
                    cols as int,
                    channels as int,
                    y,
                    x,
                    c,
                )]);
            }
        }
        Ok(img)
    }
}

impl<T> Array2<T> {
    /// The array has the shape `(height, width)` of the image and shows at
    /// `(y, x)` the sample of the pixel at `(x, y)`.
    pub open spec fn agrees_with_gray(self, img: ImageBuffer<T, 1>) -> bool {
        &&& img.wf()
        &&& self.dim.0 == img.height
        &&& self.dim.1 == img.width
        &&& forall|y: int, x: int| #[trigger]
            img.contains(x, y, 0) ==> img.sample(x, y, 0) == self.at(y, x)
    }

    /// The array of three axes with one channel that shows at `(0, y, x)`
    /// what this one shows at `(y, x)`.
    pub open spec fn with_channel_axis(self) -> Array3<T> {
        Array3 {
            data: self.data,
            offset: self.offset,
            dim: (1, self.dim.0, self.dim.1),
            strides: (1, self.strides.0, self.strides.1),
        }
    }

    /// With a leading axis of one channel the elements stay where they are.
    pub proof fn lemma_with_channel_axis(self)
        ensures
            self.with_channel_axis().wf() == self.wf(),
            forall|y: int, x: int| #[trigger]
                self.with_channel_axis().view().index(0, y, x) == self.view().index(y, x),
    {
        let a = self.with_channel_axis();
        let len = self.data@.len() as int;
        if self.wf() {
            assert forall|c: int, y: int, x: int| a.view().layout().contains(c, y, x) implies 0
                <= #[trigger] a.view().layout().index(c, y, x) < len by {
                assert(self.view().contains(y, x));
                assert(a.view().layout().index(c, y, x) == self.view().index(y, x));
            }
        }
        if a.wf() {
            assert forall|y: int, x: int| self.view().contains(y, x) implies 0
                <= #[trigger] self.view().index(y, x) < len by {
                assert(a.view().layout().contains(0, y, x));
                assert(a.view().layout().index(0, y, x) == self.view().index(y, x));
            }
        }
    }
}

impl<T: Copy> ToImageLuma for Array3<T> {
    type Out = Result<ImageBuffer<T, 1>, ConvertError>;

    /// The image of one channel of a `(1, height, width)` array: the pixel
    /// at `(x, y)` holds the element at `(0, y, x)`.
    fn into_image_luma(self) -> (r: Self::Out)
        ensures
            r is Ok <==> self.is_image_shape(1) && self.wf(),
            r matches Err(e) ==> e == (if self.dim.0 != 1 {
                ConvertError::ChannelMismatch
            } else {
                ConvertError::ShapeMismatch
            }),
            r matches Ok(img) ==> {
                &&& self.agrees_with_image(img)
                &&& self.is_channel_last() ==> img.data@ == self.data@
                &&& !self.is_channel_last() ==> img.data@.len() == img.sample_count()
            },
    {
        self.into_image::<1>()
    }
}

impl<T: Copy> ToImageRgb for Array3<T> {
    type Out = Result<ImageBuffer<T, 3>, ConvertError>;

    /// The image of three channels of a `(3, height, width)` array: channel
    /// `c` of the pixel at `(x, y)` holds the element at `(c, y, x)`.
    fn into_image_rgb(self) -> (r: Self::Out)
        ensures
            r is Ok <==> self.is_image_shape(3) && self.wf(),
            r matches Err(e) ==> e == (if self.dim.0 != 3 {
                ConvertError::ChannelMismatch
            } else {
                ConvertError::ShapeMismatch
            }),
            r matches Ok(img) ==> {
                &&& self.agrees_with_image(img)
                &&& self.is_channel_last() ==> img.data@ == self.data@
                &&& !self.is_channel_last() ==> img.data@.len() == img.sample_count()
            },
    {
        self.into_image::<3>()
    }
}

impl<T: Copy> ToImageRgba for Array3<T> {
    type Out = Result<ImageBuffer<T, 4>, ConvertError>;

    /// The image of four channels of a `(4, height, width)` array: channel
    /// `c` of the pixel at `(x, y)` holds the element at `(c, y, x)`.
    fn into_image_rgba(self) -> (r: Self::Out)
        ensures
            r is Ok <==> self.is_image_shape(4) && self.wf(),
            r matches Err(e) ==> e == (if self.dim.0 != 4 {
                ConvertError::ChannelMismatch
            } else {
                ConvertError::ShapeMismatch
            }),
            r matches Ok(img) ==> {
                &&& self.agrees_with_image(img)
                &&& self.is_channel_last() ==> img.data@ == self.data@
                &&& !self.is_channel_last() ==> img.data@.len() == img.sample_count()
            },
    {
        self.into_image::<4>()
    }
}

impl<T: Copy> ToImageGray for Array2<T> {
    type Out = Result<ImageBuffer<T, 1>, ConvertError>;

    /// The image of one channel of a `(height, width)` array: the pixel at
    /// `(x, y)` holds the element at `(y, x)`. It is refused with
    /// `ShapeMismatch` exactly when an element lies outside the buffer or an
    /// extent is no extent of an image. An array in row-major order hands
    /// its buffer over.
    fn into_image_gray(self) -> (r: Self::Out)
        ensures
            r is Ok <==> self.dim.0 <= u32::MAX && self.dim.1 <= u32::MAX && self.wf(),
            r matches Err(e) ==> e == ConvertError::ShapeMismatch,
            r matches Ok(img) ==> {
                &&& self.agrees_with_gray(img)
                &&& self.with_channel_axis().is_channel_last() ==> img.data@ == self.data@
                &&& !self.with_channel_axis().is_channel_last() ==> img.data@.len()
                    == img.sample_count()
            },
    {
        proof {
            self.lemma_with_channel_axis();
        }
        let ghost old_self = self;
        let cube = Array3 {
            data: self.data,
            offset: self.offset,
            dim: (1, self.dim.0, self.dim.1),
            strides: (1, self.strides.0, self.strides.1),
        };
        proof {
            assert(cube.data@ == old_self.with_channel_axis().data@);
            assert(cube.view() == old_self.with_channel_axis().view());
        }
        let r = cube.into_image::<1>();
        proof {
            if r is Ok {
                let img = r.unwrap();
                assert forall|y: int, x: int| #[trigger]
                    img.contains(x, y, 0) implies img.sample(x, y, 0) == old_self.at(y, x) by {
                    assert(img.sample(x, y, 0) == cube.at(0, y, x));
                    assert(cube.view().index(0, y, x) == old_self.view().index(y, x));
                }
            }
        }
        r
    }
}

impl<T: Copy> ToImageLuma for Array2<T> {
    type Out = Result<ImageBuffer<T, 1>, ConvertError>;

    /// The image of one channel of a `(height, width)` array: the pixel at
    /// `(x, y)` holds the element at `(y, x)`. It is refused with
    /// `ShapeMismatch` exactly when an element lies outside the buffer or an
    /// extent is no extent of an image. An array in row-major order hands
    /// its buffer over.
    fn into_image_luma(self) -> (r: Self::Out)
        ensures
            r is Ok <==> self.dim.0 <= u32::MAX && self.dim.1 <= u32::MAX && self.wf(),
            r matches Err(e) ==> e == ConvertError::ShapeMismatch,
            r matches Ok(img) ==> {
                &&& self.agrees_with_gray(img)
                &&& self.with_channel_axis().is_channel_last() ==> img.data@ == self.data@
                &&& !self.with_channel_axis().is_channel_last() ==> img.data@.len()
                    == img.sample_count()
            },
    {
        self.into_image_gray()
    }
}

} // verus!
