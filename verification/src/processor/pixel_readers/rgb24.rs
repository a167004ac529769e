//! Reading pixels of RGB24 frames.

use crate::common::color::Color;
use crate::processor::pixel_reader::PixelReader;
use vstd::prelude::*;

verus! {

/// Byte offset of pixel `(x, y)` in a `width`-wide RGB24 buffer.
pub open spec fn rgb24_offset(x: nat, y: nat, width: nat) -> nat {
    (y * width + x) * 3
}

/// The colour of pixel `(x, y)` of an RGB24 buffer, or `None` when its three
/// bytes do not all lie within the buffer.
pub open spec fn rgb24_pixel(data: Seq<u8>, x: nat, y: nat, width: nat) -> Option<Color> {
    let off: int = rgb24_offset(x, y, width) as int;
    if off + 2 >= data.len() {
        None
    } else {
        Some(Color { r: data[off], g: data[off + 1], b: data[off + 2] })
    }
}

/// Reads pixel `(x, y)` of an RGB24 buffer, `None` past its end.
pub fn read_rgb24(data: &[u8], x: u32, y: u32, width: u32) -> (r: Option<Color>)
    requires
        rgb24_offset(x as nat, y as nat, width as nat) <= u32::MAX,
    ensures
        r == rgb24_pixel(data@, x as nat, y as nat, width as nat),
{
    proof {
        assert(y * width <= y * width + x);
        assert(y * width + x <= (y * width + x) * 3);
    }
    let offset = ((y * width + x) * 3) as usize;
    let len = data.len();
    if offset >= len || len - offset <= 2 {
        return None;
    }
    Some(Color::new(data[offset], data[offset + 1], data[offset + 2]))
}

/// Zero-copy pixel reader for RGB24 frames: three bytes per pixel, R G B.
#[derive(Debug, Clone, Copy, Default)]
pub struct Rgb24Reader;

impl PixelReader for Rgb24Reader {
    /// Pixels past the end of the buffer read as black.
    open spec fn spec_read_pixel(&self, data: Seq<u8>, x: nat, y: nat, width: nat) -> Color {
        match rgb24_pixel(data, x, y, width) {
            Some(c) => c,
            None => Color { r: 0, g: 0, b: 0 },
        }
    }

    open spec fn read_fits(&self, x: nat, y: nat, width: nat) -> bool {
        rgb24_offset(x, y, width) <= u32::MAX
    }

    fn read_pixel(&self, data: &[u8], x: u32, y: u32, width: u32) -> (c: Color) {
        match read_rgb24(data, x, y, width) {
            Some(c) => c,
            None => Color::black(),
        }
    }
}

} // verus!
