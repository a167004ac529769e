//! A raw frame plus the viewport downstream nodes read from.

use crate::capture::yuyv::{pair_offset_fits, spec_yuyv_pixel_to_rgb, yuyv_pixel_to_rgb};
use crate::capture::{Frame, PixelFormat};
use crate::common::color::Color;
use crate::capture::yuyv::{packed_luma_at, packed_pair_offset};
use crate::processor::pixel_readers::rgb24::rgb24_pixel;
use vstd::prelude::*;

verus! {

/// A rectangle within a frame.
#[derive(Debug, Clone, Copy, PartialEq, Eq, Structural)]
pub struct Viewport {
    pub x: u32,
    pub y: u32,
    pub width: u32,
    pub height: u32,
}

impl Viewport {
    /// The viewport covering a whole `width` x `height` frame.
    pub fn full_frame(width: u32, height: u32) -> (v: Viewport)
        ensures
            v == (Viewport { x: 0, y: 0, width, height }),
    {
        Viewport { x: 0, y: 0, width, height }
    }
}

/// Index of pixel `(x, y)` in a row-major grid of the given width.
pub open spec fn pixel_index(x: nat, y: nat, width: nat) -> nat {
    y * width + x
}

/// Whether the byte index of in-bounds pixel `(x, y)` can be computed in
/// 32 bits (and, for three-byte formats, the end of the pixel in a `usize`).
pub open spec fn luma_index_fits(frame: Frame, x: nat, y: nat) -> bool {
    x < frame.width && y < frame.height ==> match frame.format {
        PixelFormat::YUYV => pixel_index(x, y, frame.width as nat) * 2 <= u32::MAX,
        PixelFormat::RGB24 | PixelFormat::BGR24 => {
            &&& pixel_index(x, y, frame.width as nat) * 3 <= u32::MAX
            &&& pixel_index(x, y, frame.width as nat) * 3 + 3 <= usize::MAX
        },
        PixelFormat::MJPEG => true,
    }
}

/// Brightness of pixel `(x, y)` read straight from the raw bytes: the luma
/// byte for YUYV, the integer mean of the three channels for 24-bit formats,
/// and 0 (black) out of bounds, past the end of the data, or for MJPEG.
pub open spec fn spec_luma_at(frame: Frame, x: nat, y: nat) -> u8 {
    let data = frame.bytes();
    if x >= frame.width || y >= frame.height {
        0u8
    } else {
        match frame.format {
            PixelFormat::YUYV => {
                let idx: int = (pixel_index(x, y, frame.width as nat) * 2) as int;
                if idx < data.len() {
                    data[idx]
                } else {
                    0u8
                }
            },
            PixelFormat::RGB24 | PixelFormat::BGR24 => {
                let idx: int = (pixel_index(x, y, frame.width as nat) * 3) as int;
                if idx + 3 <= data.len() {
                    ((data[idx] + data[idx + 1] + data[idx + 2]) / 3) as u8
                } else {
                    0u8
                }
            },
            PixelFormat::MJPEG => 0u8,
        }
    }
}

/// Brightness (luma) of pixel `(x, y)` read directly from the raw frame data.
///
/// YUYV stores full-range luma at every even byte, so band and change
/// detection never need a colour conversion. Out-of-bounds coordinates read
/// as black.
pub fn luma_at(frame: &Frame, x: u32, y: u32) -> (r: u8)
    requires
        luma_index_fits(*frame, x as nat, y as nat),
    ensures
        r == spec_luma_at(*frame, x as nat, y as nat),
{
    if x >= frame.width || y >= frame.height {
        return 0;
    }
    proof {
        assert(y * frame.width + x < frame.width * frame.height) by (nonlinear_arith)
            requires
                x < frame.width,
                y < frame.height,
        ;
        assert(y * frame.width <= y * frame.width + x);
    }
    let data = frame.as_slice();
    match frame.format {
        PixelFormat::YUYV => {
            let idx = ((y * frame.width + x) * 2) as usize;
            if idx < data.len() {
                data[idx]
            } else {
                0
            }
        },
        PixelFormat::RGB24 | PixelFormat::BGR24 => {
            let idx = ((y * frame.width + x) * 3) as usize;
            if idx + 3 <= data.len() {
                ((data[idx] as u16 + data[idx + 1] as u16 + data[idx + 2] as u16) / 3) as u8
            } else {
                0
            }
        },
        PixelFormat::MJPEG => 0,
    }
}

/// Coordinates outside the frame read as black, whatever the format.
pub proof fn lemma_luma_out_of_bounds_black(frame: Frame, x: nat, y: nat)
    requires
        x >= frame.width || y >= frame.height,
    ensures
        spec_luma_at(frame, x, y) == 0,
{
}

/// The luma of a 24-bit pixel is the integer mean of the three channels of
/// that pixel as the RGB24 reader reads it (bytes `3 * (y * width + x)`
/// onward), and black when those bytes are not all in the data.
pub proof fn lemma_luma_of_24bit_pixel(frame: Frame, x: nat, y: nat)
    requires
        frame.format == PixelFormat::RGB24 || frame.format == PixelFormat::BGR24,
        x < frame.width,
        y < frame.height,
    ensures
        match rgb24_pixel(frame.bytes(), x, y, frame.width as nat) {
            Some(c) => spec_luma_at(frame, x, y) == ((c.r + c.g + c.b) / 3) as u8,
            None => spec_luma_at(frame, x, y) == 0,
        },
{
}

/// The luma of a YUYV pixel is the Y byte of its pixel pair, the pair lying
/// at `y * 2 * width + (x / 2) * 4` as in the whole-frame layout: Y0 for
/// even columns, Y1 for odd ones.
pub proof fn lemma_luma_of_yuyv_pixel(frame: Frame, x: nat, y: nat)
    requires
        frame.format == PixelFormat::YUYV,
        x < frame.width,
        y < frame.height,
        packed_pair_offset(2 * frame.width as nat, x, y) + 3 < frame.bytes().len(),
    ensures
        spec_luma_at(frame, x, y) == packed_luma_at(frame.bytes(), 2 * frame.width as nat, x, y),
{
    let w = frame.width as nat;
    assert(pixel_index(x, y, w) * 2 == packed_pair_offset(2 * w, x, y) + if x % 2 == 0 {
        0int
    } else {
        2int
    }) by (nonlinear_arith)
        requires
            pixel_index(x, y, w) == y * w + x,
            packed_pair_offset(2 * w, x, y) == y * (2 * w) + (x / 2) * 4,
    ;
}

/// A raw frame plus the viewport that downstream nodes read from.
///
/// Pixels stay in the capture format; consumers decode only what they touch.
#[derive(Debug)]
pub struct ViewFrame {
    pub frame: Frame,
    pub viewport: Viewport,
}

/// Whether the byte index of pixel `(x, y)` of a frame can be computed by
/// [`ViewFrame::pixel_srgb`] without overflow.
pub open spec fn srgb_index_fits(frame: Frame, x: nat, y: nat) -> bool {
    match frame.format {
        PixelFormat::YUYV => pair_offset_fits(x, y, frame.width as nat),
        PixelFormat::RGB24 => {
            &&& pixel_index(x, y, frame.width as nat) * 3 <= u32::MAX
            &&& pixel_index(x, y, frame.width as nat) * 3 + 3 <= usize::MAX
        },
        PixelFormat::BGR24 | PixelFormat::MJPEG => true,
    }
}

/// The sRGB colour of pixel `(x, y)` (absolute coordinates): decoded for
/// YUYV, read for RGB24 when the pixel lies within the data, and `None`
/// otherwise (BGR24 and MJPEG are not decoded).
pub open spec fn spec_pixel_srgb(frame: Frame, x: nat, y: nat) -> Option<Color> {
    let data = frame.bytes();
    match frame.format {
        PixelFormat::YUYV => {
            let (r, g, b) = spec_yuyv_pixel_to_rgb(data, x, y, frame.width as nat);
            Some(Color { r, g, b })
        },
        PixelFormat::RGB24 => {
            let idx: int = (pixel_index(x, y, frame.width as nat) * 3) as int;
            if idx + 3 <= data.len() {
                Some(Color { r: data[idx], g: data[idx + 1], b: data[idx + 2] })
            } else {
                None
            }
        },
        PixelFormat::BGR24 | PixelFormat::MJPEG => None,
    }
}

impl ViewFrame {
    /// Wraps a frame with a viewport covering all of it.
    pub fn new(frame: Frame) -> (v: ViewFrame)
        ensures
            v.frame == frame,
            v.viewport == (Viewport { x: 0, y: 0, width: frame.width, height: frame.height }),
    {
        let viewport = Viewport::full_frame(frame.width, frame.height);
        ViewFrame { frame, viewport }
    }

    /// Width of the viewport.
    pub fn viewport_width(&self) -> (r: u32)
        ensures
            r == self.viewport.width,
    {
        self.viewport.width
    }

    /// Height of the viewport.
    pub fn viewport_height(&self) -> (r: u32)
        ensures
            r == self.viewport.height,
    {
        self.viewport.height
    }

    /// Decodes a single pixel (absolute coordinates) to sRGB.
    pub fn pixel_srgb(&self, x: u32, y: u32) -> (r: Option<Color>)
        requires
            srgb_index_fits(self.frame, x as nat, y as nat),
        ensures
            r == spec_pixel_srgb(self.frame, x as nat, y as nat),
    {
        match self.frame.format {
            PixelFormat::YUYV => {
                let (r, g, b) = yuyv_pixel_to_rgb(self.frame.as_slice(), x, y, self.frame.width);
                Some(Color::new(r, g, b))
            },
            PixelFormat::RGB24 => {
                proof {
                    assert(y * self.frame.width <= y * self.frame.width + x);
                }
                let data = self.frame.as_slice();
                let idx = ((y * self.frame.width + x) * 3) as usize;
                if idx + 3 <= data.len() {
                    Some(Color::new(data[idx], data[idx + 1], data[idx + 2]))
                } else {
                    None
                }
            },
            PixelFormat::BGR24 | PixelFormat::MJPEG => None,
        }
    }
}

impl Clone for ViewFrame {
    /// The same frame and viewport.
    fn clone(&self) -> (r: ViewFrame)
        ensures
            r == *self,
    {
        ViewFrame { frame: self.frame.clone(), viewport: self.viewport }
    }
}

} // verus!
