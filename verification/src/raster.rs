//! The pixel buffer that the aggregator reads: an 8-bit RGB image of the `image` crate.

use crate::color::Rgb8;
use vstd::prelude::*;

verus! {

/// What a pixel buffer holds: its width, and its rows of pixels from top to
/// bottom, each row from left to right.
pub struct Raster {
    pub width: nat,
    pub rows: Seq<Seq<Rgb8>>,
}

impl Raster {
    /// The number of rows.
    pub open spec fn height(self) -> nat {
        self.rows.len()
    }

    /// Every row is as long as the raster is wide.
    pub open spec fn wf(self) -> bool {
        forall|y: int| 0 <= y < self.rows.len() ==> (#[trigger] self.rows[y]).len() == self.width
    }
}

/// The raster of `width` by `height` pixels that the bytes of `data` spell out
/// row by row, three bytes to a pixel.
pub open spec fn raster_of(width: nat, height: nat, data: Seq<u8>) -> Raster {
    Raster {
        width,
        rows: Seq::new(
            height,
            |y: int|
                Seq::new(
                    width,
                    |x: int|
                        (
                            data[3 * (y * width + x)],
                            data[3 * (y * width + x) + 1],
                            data[3 * (y * width + x) + 2],
                        ),
                ),
        ),
    }
}

/// An 8-bit RGB image, held as an `image::RgbImage`. What it holds goes by
/// the names [`buffer_width`] and [`buffer_rows`], or, taken together, by its
/// view.
#[verifier::external_body]
pub struct RgbBuffer {
    inner: image::RgbImage,
}

/// The rows of a buffer from top to bottom, each row holding its pixels from
/// left to right.
pub uninterp spec fn buffer_rows(buffer: RgbBuffer) -> Seq<Seq<Rgb8>>;

/// The number of pixels in each row of a buffer.
pub uninterp spec fn buffer_width(buffer: RgbBuffer) -> nat;

impl View for RgbBuffer {
    type V = Raster;

    open spec fn view(&self) -> Raster {
        Raster { width: buffer_width(*self), rows: buffer_rows(*self) }
    }
}

/// `image::ImageBuffer::from_raw`: a buffer over `data`, given when and only
/// when `data` holds at least three bytes for each of the `width * height`
/// pixels. Pixel `(x, y)` is then read from the three bytes that start at
/// index `3 * (y * width + x)`.
#[verifier::external_body]
fn raw_buffer(width: u32, height: u32, data: Vec<u8>) -> (buffer: Option<RgbBuffer>)
    ensures
        buffer is Some <==> 3 * width * height <= data@.len(),
        buffer matches Some(b) ==> buffer_width(b) == width && buffer_rows(b) == raster_of(
            width as nat,
            height as nat,
            data@,
        ).rows,
{
    match image::RgbImage::from_raw(width, height, data) {
        Some(inner) => Some(RgbBuffer { inner }),
        None => None,
    }
}

/// `image::ImageBuffer::width`: the width the buffer was made with, which is
/// the length of each of its rows.
#[verifier::external_body]
fn raw_width(buffer: &RgbBuffer) -> (width: u32)
    ensures
        width == buffer_width(*buffer),
        forall|y: int|
            0 <= y < buffer_rows(*buffer).len() ==> (#[trigger] buffer_rows(*buffer)[y]).len()
                == width,
{
    buffer.inner.width()
}

/// `image::ImageBuffer::height`: the number of rows.
#[verifier::external_body]
fn raw_height(buffer: &RgbBuffer) -> (height: u32)
    ensures
        height == buffer_rows(*buffer).len(),
{
    buffer.inner.height()
}

/// `image::ImageBuffer::get_pixel`: the pixel in column `x` of row `y`. The
/// outside function panics outside the image, so both must lie inside it.
#[verifier::external_body]
fn raw_pixel(buffer: &RgbBuffer, x: u32, y: u32) -> (pixel: Rgb8)
    requires
        x < buffer_width(*buffer),
        y < buffer_rows(*buffer).len(),
    ensures
        pixel == buffer_rows(*buffer)[y as int][x as int],
{
    let p = buffer.inner.get_pixel(x, y).0;
    (p[0], p[1], p[2])
}

impl RgbBuffer {
    /// A buffer of `width` by `height` pixels over the bytes of `data`, three
    /// to a pixel, row by row. `None` when `data` is too short for that many
    /// pixels.
    pub fn from_raw(width: u32, height: u32, data: Vec<u8>) -> (buffer: Option<RgbBuffer>)
        ensures
            buffer is Some <==> 3 * width * height <= data@.len(),
            buffer matches Some(b) ==> b@ == raster_of(width as nat, height as nat, data@)
                && b@.wf(),
    {
        raw_buffer(width, height, data)
    }

    /// The width and the height of the image, in pixels.
    pub fn dimensions(&self) -> (dims: (u32, u32))
        ensures
            dims.0 == self@.width,
            dims.1 == self@.height(),
            self@.wf(),
    {
        (raw_width(self), raw_height(self))
    }

    /// The pixel in column `x` of row `y`, or `None` outside the image.
    pub fn pixel(&self, x: u32, y: u32) -> (pixel: Option<Rgb8>)
        ensures
            pixel == if x < self@.width && y < self@.height() {
                Some(self@.rows[y as int][x as int])
            } else {
                None
            },
    {
        if x < raw_width(self) && y < raw_height(self) {
            Some(self.get_pixel(x, y))
        } else {
            None
        }
    }

    /// The pixel in column `x` of row `y` of an image that holds it.
    pub fn get_pixel(&self, x: u32, y: u32) -> (pixel: Rgb8)
        requires
            x < self@.width,
            y < self@.height(),
        ensures
            pixel == self@.rows[y as int][x as int],
    {
        raw_pixel(self, x, y)
    }
}

} // verus!
