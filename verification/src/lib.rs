//! Block-averaged rendering of raster images as runs of coloured terminal glyphs.
//!
//! An image is cut into blocks of pixels ([`grid`]), each block is averaged
//! to one colour ([`aggregate`]), each row of the resulting grid is cut into
//! runs of equal colours ([`rle`]), and each run becomes a stretch of glyphs
//! in that colour ([`render`]). [`pipeline`] does all of it in one call.
//! [`raster`] holds the pixel buffer that is read, [`color`] the accumulators
//! that average it, and [`source`] tells where an image is to be fetched from
//! and decodes what was fetched.

pub mod aggregate;
pub mod color;
pub mod grid;
pub mod pipeline;
pub mod raster;
pub mod render;
pub mod rle;
pub mod source;
