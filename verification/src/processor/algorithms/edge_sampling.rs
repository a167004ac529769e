//! Edge sampling: averaging colours of edge regions.

use crate::common::color::Color;
use crate::processor::pixel_reader::{EveryPixel, PixelReader};
use crate::processor::sampling::{average_region, region_average, region_fits, sample_count};
use vstd::prelude::*;

verus! {

/// Edge sampling algorithm: divides each screen edge into segments and
/// averages the colour of each segment from a configurable depth inward.
#[derive(Debug, Clone, Copy, Default)]
pub struct EdgeSamplingAlgorithm;

impl EdgeSamplingAlgorithm {
    /// Average colour of the region `x_start..x_end` x `y_start..y_end`,
    /// reading every fourth pixel of every fourth row through `reader`;
    /// black for an empty region.
    pub fn average_color_in_region<R: PixelReader>(
        data: &[u8],
        width: u32,
        x_start: u32,
        y_start: u32,
        x_end: u32,
        y_end: u32,
        reader: &R,
    ) -> (c: Color)
        requires
            region_fits(
                &EveryPixel(reader),
                width as nat,
                x_start as nat,
                sample_count(x_start as nat, x_end as nat),
                y_start as nat,
                sample_count(y_start as nat, y_end as nat),
            ),
            sample_count(y_start as nat, y_end as nat) * sample_count(x_start as nat, x_end as nat) * 255
                <= u64::MAX,
        ensures
            c == region_average(
                &EveryPixel(reader),
                data@,
                width as nat,
                x_start as nat,
                y_start as nat,
                x_end as nat,
                y_end as nat,
            ),
    {
        let sampler = EveryPixel(reader);
        average_region(&sampler, data, width, x_start, y_start, x_end, y_end)
    }
}

} // verus!
