//! Pixel buffers in the pixel convention: `width` columns and `height`
//! rows of pixels, the samples of one pixel side by side.
//!
//! The sample of channel `c` of the pixel at column `x` of row `y` lies at
//! `(y * width + x) * CHANNELS + c`.

use vstd::prelude::*;
use crate::strided::{lemma_packed_index_bound, packed_index};

verus! {

/// Strides and extents of a buffer of samples.
#[derive(Clone, Copy, Debug, PartialEq, Eq, Structural)]
pub struct SampleLayout {
    /// Number of channels of a pixel.
    pub channels: u8,
    /// Distance from a sample to the one in the next channel.
    pub channel_stride: usize,
    /// Number of pixels in a row.
    pub width: u32,
    /// Distance from a sample to the one in the next column.
    pub width_stride: usize,
    /// Number of rows.
    pub height: u32,
    /// Distance from a sample to the one in the next row.
    pub height_stride: usize,
}

/// Owned buffer of pixels of `CHANNELS` samples each.
#[derive(Debug, PartialEq, Eq)]
pub struct ImageBuffer<T, const CHANNELS: u8> {
    pub width: u32,
    pub height: u32,
    pub data: Vec<T>,
}

/// One channel of 8 bits.
pub type GrayImage = ImageBuffer<u8, 1>;

/// Red, green and blue of 8 bits each.
pub type RgbImage = ImageBuffer<u8, 3>;

/// Red, green, blue and alpha of 8 bits each.
pub type RgbaImage = ImageBuffer<u8, 4>;

impl SampleLayout {
    /// The layout of an image packed row by row.
    pub open spec fn packed(channels: u8, width: u32, height: u32) -> SampleLayout {
        SampleLayout {
            channels,
            channel_stride: 1,
            width,
            width_stride: channels as usize,
            height,
            height_stride: (channels * width) as usize,
        }
    }
}

/// `image::flat::SampleLayout::row_major_packed`: for an image packed row
/// by row it returns the extents as given, 1 as the stride between channels,
/// `channels` as the stride between columns and `channels * width` as the
/// stride between rows. It panics where that product is no `usize`, which
/// the precondition leaves out.
#[verifier::external_body]
fn row_major_packed(channels: u8, width: u32, height: u32) -> (r: SampleLayout)
    requires
        channels * width <= usize::MAX,
    ensures
        r == SampleLayout::packed(channels, width, height),
{
    let layout = image::flat::SampleLayout::row_major_packed(channels, width, height);
    SampleLayout {
        channels: layout.channels,
        channel_stride: layout.channel_stride,
        width: layout.width,
        width_stride: layout.width_stride,
        height: layout.height,
        height_stride: layout.height_stride,
    }
}

impl<T, const CHANNELS: u8> ImageBuffer<T, CHANNELS> {
    /// Number of samples that the pixels take.
    pub open spec fn sample_count(self) -> int {
        CHANNELS * self.width * self.height
    }

    /// A row can be addressed and the buffer holds every pixel.
    pub open spec fn wf(self) -> bool {
        CHANNELS * self.width <= usize::MAX && self.sample_count() <= self.data@.len()
    }

    /// Whether `(x, y)` is a pixel and `c` one of its channels.
    pub open spec fn contains(self, x: int, y: int, c: int) -> bool {
        0 <= x < self.width && 0 <= y < self.height && 0 <= c < CHANNELS
    }

    /// Position in the buffer of channel `c` of the pixel at `(x, y)`.
    pub open spec fn sample_index(self, x: int, y: int, c: int) -> int {
        packed_index(self.width as int, CHANNELS as int, y, x, c)
    }

    /// Channel `c` of the pixel at `(x, y)`.
    pub open spec fn sample(self, x: int, y: int, c: int) -> T {
        self.data@[self.sample_index(x, y, c)]
    }

    /// The samples of the pixels lie inside the buffer.
    pub proof fn lemma_sample_index(self, x: int, y: int, c: int)
        requires
            self.wf(),
            self.contains(x, y, c),
        ensures
            0 <= self.sample_index(x, y, c) < self.sample_count() <= self.data@.len(),
    {
        lemma_packed_index_bound(
            self.height as int,
            self.width as int,
            CHANNELS as int,
            y,
            x,
            c,
        );
        assert(self.height * self.width * CHANNELS == CHANNELS * self.width * self.height)
            by (nonlinear_arith);
    }

    /// Whether a row can be addressed and the buffer holds every pixel.
    pub fn is_well_formed(&self) -> (r: bool)
        ensures
            r == self.wf(),
    {
        assert(CHANNELS * self.width <= 0xff * 0xffff_ffff) by (nonlinear_arith)
            requires
                0 <= CHANNELS <= 0xff,
                0 <= self.width <= 0xffff_ffff,
        ;
        let row: u128 = (CHANNELS as u128) * (self.width as u128);
        if row > usize::MAX as u128 {
            return false;
        }
        assert(row * self.height <= 0xffff_ffff_ffff_ffff * 0xffff_ffff) by (nonlinear_arith)
            requires
                0 <= row <= 0xffff_ffff_ffff_ffff,
                0 <= self.height <= 0xffff_ffff,
        ;
        let count: u128 = row * (self.height as u128);
        count <= self.data.len() as u128
    }

    /// Strides and extents of the samples.
    pub fn sample_layout(&self) -> (r: SampleLayout)
        requires
            CHANNELS * self.width <= usize::MAX,
        ensures
            r == SampleLayout::packed(CHANNELS, self.width, self.height),
    {
        row_major_packed(CHANNELS, self.width, self.height)
    }
}

impl<T, const CHANNELS: u8> ImageBuffer<T, CHANNELS> {
    /// The image of `width` by `height` pixels over `data`, where a row can
    /// be addressed and `data` holds every pixel.
    pub fn from_raw(width: u32, height: u32, data: Vec<T>) -> (r: Option<Self>)
        ensures
            r is Some <==> CHANNELS * width <= usize::MAX && CHANNELS * width * height
                <= data@.len(),
            r matches Some(img) ==> img.width == width && img.height == height && img.data@
                == data@ && img.wf(),
    {
        let img = ImageBuffer::<T, CHANNELS> { width, height, data };
        if img.is_well_formed() {
            Some(img)
        } else {
            None
        }
    }

    /// Width and height in pixels.
    pub fn dimensions(&self) -> (r: (u32, u32))
        ensures
            r == (self.width, self.height),
    {
        (self.width, self.height)
    }

    /// Channel `c` of the pixel at `(x, y)`, where there is such a sample
    /// and the buffer holds every pixel.
    pub fn get(&self, x: u32, y: u32, c: u8) -> (r: Option<&T>)
        ensures
            r == (if self.contains(x as int, y as int, c as int) && self.wf() {
                Some(&self.sample(x as int, y as int, c as int))
            } else {
                None
            }),
    {
        if x < self.width && y < self.height && c < CHANNELS && self.is_well_formed() {
            let len: usize = self.data.len();
            proof {
                self.lemma_sample_index(x as int, y as int, c as int);
                let q = y * self.width + x;
                assert(0 <= y * self.width <= q) by (nonlinear_arith)
                    requires
                        q == y * self.width + x,
                        0 <= x,
                        0 <= y,
                        0 <= self.width,
                ;
                assert(q <= q * CHANNELS) by (nonlinear_arith)
                    requires
                        0 <= q,
                        1 <= CHANNELS,
                ;
                assert(self.sample_index(x as int, y as int, c as int) == q * CHANNELS + c);
            }
            let pixel: usize = y as usize * self.width as usize + x as usize;
            let p: usize = pixel * CHANNELS as usize + c as usize;
            Some(&self.data[p])
        } else {
            None
        }
    }
}

} // verus!
