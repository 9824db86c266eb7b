//! A glyph-mosaic engine: turns a bitmap image into a mosaic of character
//! glyphs. Each tile of the source image is replaced by the glyph whose
//! rendered appearance is closest to the tile under a luminance metric,
//! re-rendered in the tile's average color over its average brightness.

use vstd::prelude::*;

pub mod buffer;
pub mod compositor;
pub mod glyphs;
pub mod matcher;
pub mod metric;
pub mod sampler;

verus! {

/// One RGB pixel: three 8-bit channels.
#[derive(Clone, Copy, PartialEq, Eq, Structural, Debug)]
pub struct Rgb {
    pub r: u8,
    pub g: u8,
    pub b: u8,
}

impl Rgb {
    pub fn new(r: u8, g: u8, b: u8) -> (p: Rgb)
        ensures
            p == (Rgb { r, g, b }),
    {
        Rgb { r, g, b }
    }
}

} // verus!
