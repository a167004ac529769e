//! Reading pixels of YUYV frames.

use crate::capture::yuyv::{pair_offset_fits, spec_yuyv_pixel_to_rgb, yuyv_converted, yuyv_pixel_to_rgb, yuyv_to_rgb};
use crate::common::color::Color;
use core::ops::Range;
use crate::processor::pixel_reader::PixelReader;
use vstd::prelude::*;

verus! {

/// Zero-copy pixel reader for YUYV frames, converting each pixel inline
/// (BT.601, the same formula as the whole-frame conversion).
#[derive(Debug, Clone, Copy, Default)]
pub struct YuyvReader;

impl PixelReader for YuyvReader {
    /// Pixels whose pair lies outside the buffer read as black.
    open spec fn spec_read_pixel(&self, data: Seq<u8>, x: nat, y: nat, width: nat) -> Color {
        let (r, g, b) = spec_yuyv_pixel_to_rgb(data, x, y, width);
        Color { r, g, b }
    }

    open spec fn read_fits(&self, x: nat, y: nat, width: nat) -> bool {
        pair_offset_fits(x, y, width)
    }

    fn read_pixel(&self, data: &[u8], x: u32, y: u32, width: u32) -> (c: Color) {
        let (r, g, b) = yuyv_pixel_to_rgb(data, x, y, width);
        Color::new(r, g, b)
    }
}

/// First column of the pixel pair holding column `x`.
pub open spec fn aligned_start(x: nat) -> nat {
    (x / 2) * 2
}

/// End of the pixel pair holding the last column before `x_end`.
pub open spec fn aligned_end(x_end: nat) -> nat {
    ((x_end + 1) / 2) * 2
}

/// Number of elements of a half-open range, 0 when it is empty.
pub open spec fn range_len(start: nat, end: nat) -> nat {
    if end > start {
        (end - start) as nat
    } else {
        0
    }
}

/// Byte offset of the aligned start of row `y` of a region.
pub open spec fn region_row_start(y: nat, width: nat, x_aligned: nat) -> nat {
    (y * width + x_aligned) * 2
}

/// Whether rows `y0 .. y0 + count` of a region, `2 * aligned_width` bytes
/// each, all lie within the buffer.
pub open spec fn rows_within(data_len: nat, width: nat, x_aligned: nat, aligned_width: nat, y0: nat, count: nat) -> bool {
    forall|k: nat|
        k < count ==> #[trigger] region_row_start(y0 + k, width, x_aligned) + aligned_width * 2 <= data_len
}

/// Rows `y0 .. y0 + count` of a region, concatenated.
pub open spec fn region_rows(data: Seq<u8>, width: nat, x_aligned: nat, aligned_width: nat, y0: nat, count: nat) -> Seq<u8>
    decreases count,
{
    if count == 0 {
        Seq::empty()
    } else {
        let start = region_row_start((y0 + count - 1) as nat, width, x_aligned) as int;
        region_rows(data, width, x_aligned, aligned_width, y0, (count - 1) as nat) + data.subrange(
            start,
            start + aligned_width * 2,
        )
    }
}

/// Copies rows `y_start..y_end` of the aligned columns of a region out of a
/// YUYV buffer; `None` when a row runs past the end of the buffer.
pub fn extract_yuyv_region(
    data: &[u8],
    width: u32,
    x_aligned: u32,
    aligned_width: usize,
    y_start: u32,
    y_end: u32,
) -> (r: Option<Vec<u8>>)
    requires
        y_start < y_end,
        forall|y: nat|
            y_start <= y < y_end ==> #[trigger] region_row_start(y, width as nat, x_aligned as nat) <= u32::MAX,
        forall|y: nat|
            y_start <= y < y_end ==> #[trigger] region_row_start(y, width as nat, x_aligned as nat)
                + aligned_width * 2 <= usize::MAX,
        aligned_width * 2 * (y_end - y_start) <= usize::MAX,
    ensures
        r is None <==> !rows_within(
            data@.len(),
            width as nat,
            x_aligned as nat,
            aligned_width as nat,
            y_start as nat,
            (y_end - y_start) as nat,
        ),
        r matches Some(bytes) ==> bytes@ == region_rows(
            data@,
            width as nat,
            x_aligned as nat,
            aligned_width as nat,
            y_start as nat,
            (y_end - y_start) as nat,
        ),
{
    proof {
        assert(aligned_width * 2 <= aligned_width * 2 * (y_end - y_start)) by (nonlinear_arith)
            requires
                y_start < y_end,
        ;
    }
    let mut region: Vec<u8> = Vec::with_capacity(aligned_width * 2 * ((y_end - y_start) as usize));
    let mut y: u32 = y_start;
    while y < y_end
        invariant
            y_start <= y <= y_end,
            forall|yy: nat|
                y_start <= yy < y_end ==> #[trigger] region_row_start(yy, width as nat, x_aligned as nat)
                    <= u32::MAX,
            forall|yy: nat|
                y_start <= yy < y_end ==> #[trigger] region_row_start(yy, width as nat, x_aligned as nat)
                    + aligned_width * 2 <= usize::MAX,
            rows_within(
                data@.len(),
                width as nat,
                x_aligned as nat,
                aligned_width as nat,
                y_start as nat,
                (y - y_start) as nat,
            ),
            region@ == region_rows(
                data@,
                width as nat,
                x_aligned as nat,
                aligned_width as nat,
                y_start as nat,
                (y - y_start) as nat,
            ),
        decreases y_end - y,
    {
        proof {
            assert(region_row_start(y as nat, width as nat, x_aligned as nat) <= u32::MAX);
            assert(region_row_start(y as nat, width as nat, x_aligned as nat) + aligned_width * 2
                <= usize::MAX);
            assert(y * width * 2 + x_aligned * 2 == (y * width + x_aligned) * 2) by (nonlinear_arith);
            assert(y * width <= y * width * 2) by (nonlinear_arith);
        }
        let row_start = (y * width * 2 + x_aligned * 2) as usize;
        let row_end = row_start + aligned_width * 2;
        if row_end > data.len() {
            proof {
                let k = (y - y_start) as nat;
                assert(y_start + k == y);
                assert(!(region_row_start(y_start as nat + k, width as nat, x_aligned as nat)
                    + aligned_width * 2 <= data@.len()));
            }
            return None;
        }
        let mut i: usize = row_start;
        let ghost before = region@;
        while i < row_end
            invariant
                row_start <= i <= row_end,
                row_end <= data@.len(),
                region@ == before + data@.subrange(row_start as int, i as int),
            decreases row_end - i,
        {
            region.push(data[i]);
            proof {
                assert(data@.subrange(row_start as int, i + 1) =~= data@.subrange(row_start as int, i as int).push(
                    data@[i as int],
                ));
            }
            i = i + 1;
        }
        proof {
            let n = (y - y_start) as nat;
            assert((y_start + n) as nat == y);
            assert(region@ =~= region_rows(
                data@,
                width as nat,
                x_aligned as nat,
                aligned_width as nat,
                y_start as nat,
                n + 1,
            ));
            assert forall|k: nat| k < n + 1 implies #[trigger] region_row_start(
                y_start as nat + k,
                width as nat,
                x_aligned as nat,
            ) + aligned_width * 2 <= data@.len() by {
                if k == n {
                    assert(y_start + k == y);
                }
            }
        }
        y = y + 1;
    }
    Some(region)
}

/// Colour `i` of a `region_width`-wide region read from a converted RGB
/// region `aligned_width` pixels wide, starting `x_offset` pixels in; black
/// past the end of the RGB data.
pub open spec fn region_color(rgb: Seq<u8>, aligned_width: nat, x_offset: nat, region_width: nat, i: int) -> Color {
    let row = i / region_width as int;
    let col = i % region_width as int;
    let off = (row * aligned_width + col + x_offset) * 3;
    if off + 2 < rgb.len() {
        Color { r: rgb[off], g: rgb[off + 1], b: rgb[off + 2] }
    } else {
        Color { r: 0, g: 0, b: 0 }
    }
}

/// The colours of a `region_width` x `region_height` region out of a
/// converted RGB region `aligned_width` pixels wide, `x_offset` pixels in.
pub fn colors_from_region_rgb(
    rgb: &[u8],
    region_width: usize,
    region_height: usize,
    aligned_width: usize,
    x_offset: usize,
) -> (r: Vec<Color>)
    requires
        region_width > 0,
        region_width + x_offset <= aligned_width,
        aligned_width * region_height * 3 <= usize::MAX,
    ensures
        r@ == Seq::new(
            (region_width * region_height) as nat,
            |i: int| region_color(rgb@, aligned_width as nat, x_offset as nat, region_width as nat, i),
        ),
{
    proof {
        assert(region_width * region_height <= aligned_width * region_height) by (nonlinear_arith)
            requires
                region_width <= aligned_width,
        ;
        assert(aligned_width * region_height <= aligned_width * region_height * 3) by (nonlinear_arith);
    }
    let mut colors: Vec<Color> = Vec::with_capacity(region_width * region_height);
    let mut y: usize = 0;
    while y < region_height
        invariant
            y <= region_height,
            region_width > 0,
            region_width + x_offset <= aligned_width,
            aligned_width * region_height * 3 <= usize::MAX,
            colors@.len() == y * region_width,
            forall|i: int|
                0 <= i < y * region_width ==> #[trigger] colors@[i] == region_color(
                    rgb@,
                    aligned_width as nat,
                    x_offset as nat,
                    region_width as nat,
                    i,
                ),
        decreases region_height - y,
    {
        let mut x: usize = 0;
        while x < region_width
            invariant
                x <= region_width,
                y < region_height,
                region_width > 0,
                region_width + x_offset <= aligned_width,
                aligned_width * region_height * 3 <= usize::MAX,
                colors@.len() == y * region_width + x,
                forall|i: int|
                    0 <= i < y * region_width + x ==> #[trigger] colors@[i] == region_color(
                        rgb@,
                        aligned_width as nat,
                        x_offset as nat,
                        region_width as nat,
                        i,
                    ),
            decreases region_width - x,
        {
            proof {
                assert((y * aligned_width + x + x_offset) * 3 + 3 <= aligned_width * region_height * 3)
                    by (nonlinear_arith)
                    requires
                        y < region_height,
                        x < region_width,
                        region_width + x_offset <= aligned_width,
                ;
                let i = y * region_width + x;
                vstd::arithmetic::div_mod::lemma_fundamental_div_mod_converse(
                    i as int,
                    region_width as int,
                    y as int,
                    x as int,
                );
            }
            let src_x = x + x_offset;
            let offset = (y * aligned_width + src_x) * 3;
            if offset + 2 < rgb.len() {
                colors.push(Color::new(rgb[offset], rgb[offset + 1], rgb[offset + 2]));
            } else {
                colors.push(Color::black());
            }
            x = x + 1;
        }
        proof {
            assert(y * region_width + region_width == (y + 1) * region_width) by (nonlinear_arith);
        }
        y = y + 1;
    }
    proof {
        assert(region_height * region_width == region_width * region_height) by (nonlinear_arith);
        assert(colors@ =~= Seq::new(
            (region_width * region_height) as nat,
            |i: int| region_color(rgb@, aligned_width as nat, x_offset as nat, region_width as nat, i),
        ));
    }
    colors
}

/// Whether [`YuyvReader::read_region`] can run on a region without overflow.
pub open spec fn region_read_fits(width: nat, x_start: nat, x_end: nat, y_start: nat, y_end: nat) -> bool {
    range_len(x_start, x_end) > 0 && range_len(y_start, y_end) > 0 ==> {
        let xa = aligned_start(x_start);
        let aw = (aligned_end(x_end) - xa) as nat;
        let rh = range_len(y_start, y_end);
        &&& aligned_end(x_end) <= u32::MAX
        &&& forall|y: nat| y_start <= y < y_end ==> #[trigger] region_row_start(y, width, xa) <= u32::MAX
        &&& forall|y: nat|
            y_start <= y < y_end ==> #[trigger] region_row_start(y, width, xa) + aw * 2 <= usize::MAX
        &&& aw * 3 <= u32::MAX
        &&& aw * rh * 3 <= isize::MAX
    }
}

impl YuyvReader {
    /// Reads a whole region at once: copies its aligned rows and converts
    /// them with the `yuv` crate, then picks the region's columns.
    ///
    /// Empty for an empty region or when a row runs past the end of the
    /// data; otherwise one colour per pixel of the region, row by row.
    pub fn read_region(
        &self,
        data: &[u8],
        width: u32,
        height: u32,
        x_range: Range<u32>,
        y_range: Range<u32>,
    ) -> (r: Vec<Color>)
        requires
            region_read_fits(
                width as nat,
                x_range.start as nat,
                x_range.end as nat,
                y_range.start as nat,
                y_range.end as nat,
            ),
        ensures
            ({
                let rw = range_len(x_range.start as nat, x_range.end as nat);
                let rh = range_len(y_range.start as nat, y_range.end as nat);
                let xa = aligned_start(x_range.start as nat);
                let aw = (aligned_end(x_range.end as nat) - xa) as nat;
                &&& (rw == 0 || rh == 0) ==> r@.len() == 0
                &&& (rw > 0 && rh > 0 && !rows_within(data@.len(), width as nat, xa, aw, y_range.start as nat, rh))
                    ==> r@.len() == 0
                &&& (rw > 0 && rh > 0 && rows_within(data@.len(), width as nat, xa, aw, y_range.start as nat, rh))
                    ==> r@.len() == rw * rh && exists|rgb: Seq<u8>|
                    #[trigger] yuyv_converted(
                        region_rows(data@, width as nat, xa, aw, y_range.start as nat, rh),
                        aw,
                        rh,
                        rgb,
                    ) && r@ == Seq::new(
                        rw * rh,
                        |i: int| region_color(rgb, aw, (x_range.start - xa) as nat, rw, i),
                    )
            }),
    {
        let x_start = x_range.start;
        let x_end = x_range.end;
        let y_start = y_range.start;
        let y_end = y_range.end;
        let region_width: usize = if x_end > x_start {
            (x_end - x_start) as usize
        } else {
            0
        };
        let region_height: usize = if y_end > y_start {
            (y_end - y_start) as usize
        } else {
            0
        };
        if region_width == 0 || region_height == 0 {
            return Vec::new();
        }
        let x_start_aligned = (x_start / 2) * 2;
        let x_end_aligned = ((x_end / 2) + (x_end % 2)) * 2;
        proof {
            assert(x_end / 2 + x_end % 2 == (x_end + 1) / 2);
        }
        let aligned_width = (x_end_aligned - x_start_aligned) as usize;
        proof {
            assert(aligned_width * 2 * region_height <= aligned_width * region_height * 3) by (nonlinear_arith);
        }
        let region = match extract_yuyv_region(data, width, x_start_aligned, aligned_width, y_start, y_end) {
            Some(region) => region,
            None => {
                return Vec::new();
            },
        };
        proof {
            lemma_region_rows_len(
                data@,
                width as nat,
                x_start_aligned as nat,
                aligned_width as nat,
                y_start as nat,
                region_height as nat,
            );
            assert(aligned_width * 2 * region_height == aligned_width * region_height * 2) by (nonlinear_arith);
            assert(aligned_width * region_height * 3 == (aligned_width * region_height) * 3) by (nonlinear_arith);
        }
        let rgb_region = yuyv_to_rgb(region.as_slice(), aligned_width, region_height);
        let x_offset = (x_start - x_start_aligned) as usize;
        let colors = colors_from_region_rgb(rgb_region.as_slice(), region_width, region_height, aligned_width, x_offset);
        proof {
            assert(yuyv_converted(region@, aligned_width as nat, region_height as nat, rgb_region@));
        }
        colors
    }
}

/// The concatenated rows of a region hold `2 * aligned_width` bytes each.
pub proof fn lemma_region_rows_len(data: Seq<u8>, width: nat, x_aligned: nat, aligned_width: nat, y0: nat, count: nat)
    requires
        rows_within(data.len(), width, x_aligned, aligned_width, y0, count),
    ensures
        region_rows(data, width, x_aligned, aligned_width, y0, count).len() == aligned_width * 2 * count,
    decreases count,
{
    if count > 0 {
        let k = (count - 1) as nat;
        assert(y0 + k == (y0 + count - 1) as nat);
        assert(region_row_start(y0 + k, width, x_aligned) + aligned_width * 2 <= data.len());
        lemma_region_rows_len(data, width, x_aligned, aligned_width, y0, k);
        let start = region_row_start((y0 + count - 1) as nat, width, x_aligned) as int;
        assert(data.subrange(start, start + aligned_width * 2).len() == aligned_width * 2);
        assert(region_rows(data, width, x_aligned, aligned_width, y0, count) == region_rows(
            data,
            width,
            x_aligned,
            aligned_width,
            y0,
            k,
        ) + data.subrange(start, start + aligned_width * 2));
        assert(aligned_width * 2 * k + aligned_width * 2 == aligned_width * 2 * count) by (nonlinear_arith)
            requires
                k + 1 == count,
        ;
    } else {
        assert(aligned_width * 2 * count == 0) by (nonlinear_arith)
            requires
                count == 0,
        ;
    }
}

} // verus!
