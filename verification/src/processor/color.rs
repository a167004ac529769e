//! Region averages over raw frames that skip pixels past the end of the data.

use crate::capture::yuyv::{pair_offset, pair_offset_fits, spec_yuyv_pixel_to_rgb, yuyv_pixel_to_rgb};
use crate::common::color::Color;
use crate::processor::pixel_readers::rgb24::{read_rgb24, rgb24_offset, rgb24_pixel};
use crate::processor::sampling::{average_region, region_average, region_fits, sample_count, RegionSampler};
use vstd::prelude::*;

verus! {

/// RGB24 samples: pixels past the end of the buffer are skipped.
pub struct Rgb24Samples;

impl RegionSampler for Rgb24Samples {
    open spec fn spec_sample(&self, data: Seq<u8>, width: nat) -> spec_fn(nat, nat) -> Option<Color> {
        |x: nat, y: nat| rgb24_pixel(data, x, y, width)
    }

    open spec fn sample_fits(&self, x: nat, y: nat, width: nat) -> bool {
        rgb24_offset(x, y, width) <= u32::MAX
    }

    fn sample(&self, data: &[u8], x: u32, y: u32, width: u32) -> (r: Option<Color>) {
        read_rgb24(data, x, y, width)
    }
}

/// The colour of YUYV pixel `(x, y)`, or `None` when its pair does not lie
/// within the buffer.
pub open spec fn yuyv_pixel(data: Seq<u8>, x: nat, y: nat, width: nat) -> Option<Color> {
    if pair_offset(x, y, width) + 3 >= data.len() {
        None
    } else {
        let (r, g, b) = spec_yuyv_pixel_to_rgb(data, x, y, width);
        Some(Color { r, g, b })
    }
}

/// YUYV samples, converted inline: pixels whose pair lies past the end of
/// the buffer are skipped.
pub struct YuyvSamples;

impl RegionSampler for YuyvSamples {
    open spec fn spec_sample(&self, data: Seq<u8>, width: nat) -> spec_fn(nat, nat) -> Option<Color> {
        |x: nat, y: nat| yuyv_pixel(data, x, y, width)
    }

    open spec fn sample_fits(&self, x: nat, y: nat, width: nat) -> bool {
        pair_offset_fits(x, y, width)
    }

    fn sample(&self, data: &[u8], x: u32, y: u32, width: u32) -> (r: Option<Color>) {
        proof {
            assert(y * width <= pair_offset(x as nat, y as nat, width as nat)) by (nonlinear_arith)
                requires
                    pair_offset(x as nat, y as nat, width as nat) == (y * width + (x / 2) * 2) * 2,
            ;
        }
        let offset = ((y * width + (x / 2) * 2) * 2) as usize;
        let len = data.len();
        if offset >= len || len - offset <= 3 {
            return None;
        }
        let (r, g, b) = yuyv_pixel_to_rgb(data, x, y, width);
        Some(Color::new(r, g, b))
    }
}

/// Average colour of a region of an RGB24 buffer, reading every fourth
/// pixel of every fourth row and skipping pixels past the end of the data;
/// black when nothing was read.
pub fn average_color_in_region_rgb(
    rgb_data: &[u8],
    width: u32,
    x_start: u32,
    y_start: u32,
    x_end: u32,
    y_end: u32,
) -> (c: Color)
    requires
        region_fits(
            &Rgb24Samples,
            width as nat,
            x_start as nat,
            sample_count(x_start as nat, x_end as nat),
            y_start as nat,
            sample_count(y_start as nat, y_end as nat),
        ),
        sample_count(y_start as nat, y_end as nat) * sample_count(x_start as nat, x_end as nat) * 255
            <= u64::MAX,
    ensures
        c == region_average(
            &Rgb24Samples,
            rgb_data@,
            width as nat,
            x_start as nat,
            y_start as nat,
            x_end as nat,
            y_end as nat,
        ),
{
    average_region(&Rgb24Samples, rgb_data, width, x_start, y_start, x_end, y_end)
}

/// Average colour of a region of a YUYV buffer, converting every fourth
/// pixel of every fourth row inline (BT.601) and skipping pixels whose pair
/// lies past the end of the data; black when nothing was read.
pub fn average_color_in_region_yuyv(
    yuyv_data: &[u8],
    width: u32,
    x_start: u32,
    y_start: u32,
    x_end: u32,
    y_end: u32,
) -> (c: Color)
    requires
        region_fits(
            &YuyvSamples,
            width as nat,
            x_start as nat,
            sample_count(x_start as nat, x_end as nat),
            y_start as nat,
            sample_count(y_start as nat, y_end as nat),
        ),
        sample_count(y_start as nat, y_end as nat) * sample_count(x_start as nat, x_end as nat) * 255
            <= u64::MAX,
    ensures
        c == region_average(
            &YuyvSamples,
            yuyv_data@,
            width as nat,
            x_start as nat,
            y_start as nat,
            x_end as nat,
            y_end as nat,
        ),
{
    average_region(&YuyvSamples, yuyv_data, width, x_start, y_start, x_end, y_end)
}

} // verus!
