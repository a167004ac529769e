//! A decoded frame of colours with its visible viewport.

use crate::common::color::Color;
use std::sync::Arc;
use vstd::prelude::*;

verus! {

/// A rectangle within a frame.
#[derive(Debug, Clone, Copy, PartialEq, Eq, Structural)]
pub struct Viewport {
    pub x: u32,
    pub y: u32,
    pub width: u32,
    pub height: u32,
}

/// The viewport covering a whole `width` x `height` frame.
pub open spec fn full_frame_viewport(width: u32, height: u32) -> Viewport {
    Viewport { x: 0, y: 0, width, height }
}

/// Whether `v` covers exactly a whole `width` x `height` frame.
pub open spec fn spec_is_full_frame(v: Viewport, width: u32, height: u32) -> bool {
    v.x == 0 && v.y == 0 && v.width == width && v.height == height
}

impl Viewport {
    /// The viewport covering a whole `width` x `height` frame.
    pub fn full_frame(width: u32, height: u32) -> (v: Viewport)
        ensures
            v == full_frame_viewport(width, height),
    {
        Viewport { x: 0, y: 0, width, height }
    }

    /// Whether this viewport covers exactly a whole `frame_width` x
    /// `frame_height` frame.
    pub fn is_full_frame(&self, frame_width: u32, frame_height: u32) -> (r: bool)
        ensures
            r == spec_is_full_frame(*self, frame_width, frame_height),
    {
        self.x == 0 && self.y == 0 && self.width == frame_width && self.height == frame_height
    }
}

/// The full-frame viewport of a frame is recognised as full-frame for that
/// frame, and it is the only viewport that is.
pub proof fn lemma_full_frame_is_full_frame(width: u32, height: u32, v: Viewport)
    ensures
        spec_is_full_frame(full_frame_viewport(width, height), width, height),
        spec_is_full_frame(v, width, height) ==> v == full_frame_viewport(width, height),
{
}

/// Decoded colour frame with its visible viewport.
#[derive(Debug)]
pub struct ColorFrame {
    /// Row-major colours (`width * height` of them when complete).
    pub pixels: Arc<Vec<Color>>,
    /// Physical frame dimensions.
    pub width: u32,
    pub height: u32,
    /// Visible viewport (the full frame by default).
    pub viewport: Viewport,
}

/// The pixel at viewport-relative `(x, y)`: `None` outside the physical
/// frame or past the end of the pixel data.
pub open spec fn spec_get_pixel(frame: ColorFrame, x: nat, y: nat) -> Option<Color> {
    let abs_x = frame.viewport.x + x;
    let abs_y = frame.viewport.y + y;
    if abs_x >= frame.width || abs_y >= frame.height {
        None
    } else {
        let idx: int = abs_y * frame.width + abs_x;
        if idx < frame.pixels@.len() {
            Some(frame.pixels@[idx])
        } else {
            None
        }
    }
}

/// Whether [`ColorFrame::get_pixel`] can compute the absolute position and
/// index of viewport-relative `(x, y)` in 32 bits.
pub open spec fn get_pixel_fits(frame: ColorFrame, x: nat, y: nat) -> bool {
    &&& frame.viewport.x + x <= u32::MAX
    &&& frame.viewport.y + y <= u32::MAX
    &&& frame.width * frame.height <= u32::MAX
}

impl ColorFrame {
    /// A frame of decoded pixels with a full-frame viewport.
    pub fn new(pixels: Vec<Color>, width: u32, height: u32) -> (f: ColorFrame)
        ensures
            f.pixels@ == pixels@,
            f.width == width,
            f.height == height,
            f.viewport == full_frame_viewport(width, height),
    {
        ColorFrame {
            pixels: Arc::new(pixels),
            width,
            height,
            viewport: Viewport::full_frame(width, height),
        }
    }

    /// The pixel at viewport-relative coordinates.
    pub fn get_pixel(&self, x: u32, y: u32) -> (r: Option<Color>)
        requires
            get_pixel_fits(*self, x as nat, y as nat),
        ensures
            r == spec_get_pixel(*self, x as nat, y as nat),
    {
        let abs_x = self.viewport.x + x;
        let abs_y = self.viewport.y + y;
        if abs_x >= self.width || abs_y >= self.height {
            return None;
        }
        proof {
            assert(abs_y * self.width + abs_x < self.width * self.height) by (nonlinear_arith)
                requires
                    abs_x < self.width,
                    abs_y < self.height,
            ;
            assert(abs_y * self.width <= abs_y * self.width + abs_x);
        }
        let idx = (abs_y * self.width + abs_x) as usize;
        let pixels = self.pixels.as_slice();
        if idx < pixels.len() {
            Some(pixels[idx])
        } else {
            None
        }
    }

    /// Width of the viewport.
    pub fn viewport_width(&self) -> (r: u32)
        ensures
            r == self.viewport.width,
    {
        self.viewport.width
    }

    /// Height of the viewport.
    pub fn viewport_height(&self) -> (r: u32)
        ensures
            r == self.viewport.height,
    {
        self.viewport.height
    }
}

impl Clone for ColorFrame {
    /// Another handle on the same pixels, with the same dimensions and
    /// viewport.
    fn clone(&self) -> (r: ColorFrame)
        ensures
            r == *self,
    {
        ColorFrame {
            pixels: Arc::clone(&self.pixels),
            width: self.width,
            height: self.height,
            viewport: self.viewport,
        }
    }
}

} // verus!
