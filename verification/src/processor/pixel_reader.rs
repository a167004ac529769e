//! Format-independent access to single pixels of a raw frame buffer.

use crate::common::color::Color;
use crate::processor::sampling::RegionSampler;
use vstd::prelude::*;

verus! {

/// Reads pixels straight from a raw frame buffer without allocating.
pub trait PixelReader {
    /// The colour that `read_pixel` returns for `(x, y)`.
    spec fn spec_read_pixel(&self, data: Seq<u8>, x: nat, y: nat, width: nat) -> Color;

    /// Whether the position of `(x, y)` can be computed without overflow.
    spec fn read_fits(&self, x: nat, y: nat, width: nat) -> bool;

    /// Reads the pixel at `(x, y)` of a `width`-wide frame buffer.
    fn read_pixel(&self, data: &[u8], x: u32, y: u32, width: u32) -> (c: Color)
        requires
            self.read_fits(x as nat, y as nat, width as nat),
        ensures
            c == self.spec_read_pixel(data@, x as nat, y as nat, width as nat),
    ;
}

/// Samples every visited pixel through a reader.
pub struct EveryPixel<'a, R: PixelReader>(pub &'a R);

impl<'a, R: PixelReader> RegionSampler for EveryPixel<'a, R> {
    open spec fn spec_sample(&self, data: Seq<u8>, width: nat) -> spec_fn(nat, nat) -> Option<Color> {
        |x: nat, y: nat| Some(self.0.spec_read_pixel(data, x, y, width))
    }

    open spec fn sample_fits(&self, x: nat, y: nat, width: nat) -> bool {
        self.0.read_fits(x, y, width)
    }

    fn sample(&self, data: &[u8], x: u32, y: u32, width: u32) -> (r: Option<Color>) {
        Some(self.0.read_pixel(data, x, y, width))
    }
}

} // verus!
