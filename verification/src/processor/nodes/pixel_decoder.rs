//! Decoding raw frames into colour arrays.

use crate::capture::yuyv::{yuyv_converted, yuyv_frame_convertible, yuyv_to_rgb};
use crate::capture::{vec_filled, Frame, PixelFormat};
use crate::common::color::{spec_black, Color};
use crate::processor::frames::color_frame::{full_frame_viewport, spec_get_pixel, ColorFrame, Viewport};
use crate::processor::pixel_reader::PixelReader;
use crate::processor::pixel_readers::rgb24::Rgb24Reader;
use crate::processor::pipeline::Node;
use vstd::prelude::*;

verus! {

/// Pixel `i` of a packed RGB24 buffer, black when its bytes do not all lie
/// within the buffer.
pub open spec fn rgb24_color_at(data: Seq<u8>, i: int) -> Color {
    if i * 3 + 2 < data.len() {
        Color { r: data[i * 3], g: data[i * 3 + 1], b: data[i * 3 + 2] }
    } else {
        Color { r: 0, g: 0, b: 0 }
    }
}

/// The first `count` pixels of a packed RGB buffer as colours.
pub open spec fn rgb_triples(rgb: Seq<u8>, count: nat) -> Seq<Color> {
    Seq::new(count, |i: int| rgb24_color_at(rgb, i))
}

/// The first `count` pixels of a packed RGB buffer, which holds at least
/// that many.
pub fn colors_from_rgb(rgb: &[u8], count: usize) -> (r: Vec<Color>)
    requires
        count * 3 <= rgb@.len(),
    ensures
        r@ == rgb_triples(rgb@, count as nat),
{
    let len = rgb.len();
    let mut colors: Vec<Color> = Vec::with_capacity(count);
    let mut i: usize = 0;
    while i < count
        invariant
            i <= count,
            count * 3 <= rgb@.len(),
            len == rgb@.len(),
            colors@.len() == i,
            forall|k: int| 0 <= k < i ==> #[trigger] colors@[k] == rgb24_color_at(rgb@, k),
        decreases count - i,
    {
        proof {
            assert(i * 3 + 3 <= count * 3) by (nonlinear_arith)
                requires
                    i < count,
            ;
        }
        let offset = i * 3;
        colors.push(Color::new(rgb[offset], rgb[offset + 1], rgb[offset + 2]));
        i = i + 1;
    }
    proof {
        assert(colors@ =~= rgb_triples(rgb@, count as nat));
    }
    colors
}

/// Decodes raw pixel data into an array of colours.
#[derive(Debug)]
pub struct PixelDecoder;

/// Whether a frame can be decoded: an addressable pixel count and, for YUYV,
/// a frame that converts as a whole.
pub open spec fn decodable(frame: Frame) -> bool {
    &&& frame.width * frame.height <= u32::MAX
    &&& frame.width * frame.height * 3 <= usize::MAX
    &&& frame.format == PixelFormat::YUYV ==> yuyv_frame_convertible(
        frame.bytes().len(),
        frame.width as nat,
        frame.height as nat,
    )
}

impl PixelDecoder {
    /// A decoder.
    pub fn new() -> (d: PixelDecoder) {
        PixelDecoder
    }

    /// RGB24 pixels as colours, black for pixels past the end of the data.
    pub fn decode_rgb24(&self, data: &[u8], width: u32, height: u32) -> (r: Vec<Color>)
        requires
            width * height <= u32::MAX,
            width * height * 3 <= usize::MAX,
        ensures
            r@ == rgb_triples(data@, (width * height) as nat),
    {
        let pixel_count = (width * height) as usize;
        let mut colors: Vec<Color> = Vec::with_capacity(pixel_count);
        let mut i: usize = 0;
        while i < pixel_count
            invariant
                i <= pixel_count,
                pixel_count == width * height,
                pixel_count * 3 <= usize::MAX,
                colors@.len() == i,
                forall|k: int| 0 <= k < i ==> #[trigger] colors@[k] == rgb24_color_at(data@, k),
            decreases pixel_count - i,
        {
            let offset = i * 3;
            if offset + 2 < data.len() {
                colors.push(Color::new(data[offset], data[offset + 1], data[offset + 2]));
            } else {
                colors.push(Color::black());
            }
            i = i + 1;
        }
        proof {
            assert(colors@ =~= rgb_triples(data@, (width * height) as nat));
        }
        colors
    }

    /// YUYV pixels as colours, converting the whole frame at once with the
    /// `yuv` crate (one colour per pixel).
    pub fn decode_yuyv(&self, data: &[u8], width: u32, height: u32) -> (r: Vec<Color>)
        requires
            yuyv_frame_convertible(data@.len(), width as nat, height as nat),
            width * height <= u32::MAX,
        ensures
            r@.len() == width * height,
            exists|rgb: Seq<u8>|
                #[trigger] yuyv_converted(data@, width as nat, height as nat, rgb) && r@ == rgb_triples(
                    rgb,
                    (width * height) as nat,
                ),
    {
        let rgb_data = yuyv_to_rgb(data, width as usize, height as usize);
        let pixel_count = (width * height) as usize;
        let colors = colors_from_rgb(rgb_data.as_slice(), pixel_count);
        proof {
            assert(yuyv_converted(data@, width as nat, height as nat, rgb_data@));
        }
        colors
    }
}

impl Node<Frame, ColorFrame> for PixelDecoder {
    open spec fn accepts(&self, input: Frame) -> bool {
        decodable(input)
    }

    /// Decodes RGB24 and YUYV frames; other formats decode to black.
    fn process(&mut self, input: Frame) -> (out: ColorFrame)
        ensures
            out.width == input.width,
            out.height == input.height,
            out.viewport == (Viewport { x: 0, y: 0, width: input.width, height: input.height }),
            out.pixels@.len() == input.width * input.height,
            input.format == PixelFormat::RGB24 ==> out.pixels@ == rgb_triples(
                input.bytes(),
                (input.width * input.height) as nat,
            ),
            input.format == PixelFormat::YUYV ==> exists|rgb: Seq<u8>|
                #[trigger] yuyv_converted(input.bytes(), input.width as nat, input.height as nat, rgb)
                    && out.pixels@ == rgb_triples(rgb, (input.width * input.height) as nat),
            (input.format == PixelFormat::BGR24 || input.format == PixelFormat::MJPEG) ==> forall|
                i: int,
            |
                0 <= i < out.pixels@.len() ==> #[trigger] out.pixels@[i] == spec_black(),
    {
        let pixels = match input.format {
            PixelFormat::RGB24 => self.decode_rgb24(input.as_slice(), input.width, input.height),
            PixelFormat::YUYV => self.decode_yuyv(input.as_slice(), input.width, input.height),
            PixelFormat::BGR24 | PixelFormat::MJPEG => {
                vec_filled(Color::black(), (input.width * input.height) as usize)
            },
        };
        ColorFrame::new(pixels, input.width, input.height)
    }
}

/// Decoding a whole RGB24 frame and reading one pixel in place agree: every
/// in-bounds pixel of the decoded colour frame is the colour the zero-copy
/// reader reads at the same position of the raw data.
pub proof fn lemma_decoded_rgb24_matches_reader(data: Seq<u8>, frame: ColorFrame, x: nat, y: nat)
    requires
        frame.pixels@ == rgb_triples(data, (frame.width * frame.height) as nat),
        frame.viewport == full_frame_viewport(frame.width, frame.height),
        x < frame.width,
        y < frame.height,
    ensures
        spec_get_pixel(frame, x, y) == Some(Rgb24Reader.spec_read_pixel(data, x, y, frame.width as nat)),
{
    assert(y * frame.width + x < frame.width * frame.height) by (nonlinear_arith)
        requires
            x < frame.width,
            y < frame.height,
    ;
}

} // verus!
