//! YUYV (4:2:2) to RGB conversion.
//!
//! YUYV stores two pixels in four bytes, `[Y0 U Y1 V]`: each pixel has its
//! own luma and the pair shares its chroma.

use crate::capture::vec_filled;
use vstd::prelude::*;

verus! {

/// Red coefficient of V, scaled by 1024 (BT.601: 1.402).
pub const V_TO_R: i32 = 1437;
/// Green coefficient of U, scaled by 1024 (BT.601: 0.344136).
pub const U_TO_G: i32 = 352;
/// Green coefficient of V, scaled by 1024 (BT.601: 0.714136).
pub const V_TO_G: i32 = 731;
/// Blue coefficient of U, scaled by 1024 (BT.601: 1.772).
pub const U_TO_B: i32 = 1814;

/// `v` clamped into `0..=255`.
pub open spec fn clamp_u8(v: int) -> u8 {
    if v < 0 {
        0u8
    } else if v > 255 {
        255u8
    } else {
        v as u8
    }
}

/// BT.601 red channel from luma and centred V, with 10-bit fixed-point
/// coefficients and rounding toward negative infinity.
pub open spec fn bt601_red(luma: int, v: int) -> u8 {
    clamp_u8(luma + (v * V_TO_R) / 1024)
}

/// BT.601 green channel from luma and centred U and V.
pub open spec fn bt601_green(luma: int, u: int, v: int) -> u8 {
    clamp_u8(luma - (u * U_TO_G + v * V_TO_G) / 1024)
}

/// BT.601 blue channel from luma and centred U.
pub open spec fn bt601_blue(luma: int, u: int) -> u8 {
    clamp_u8(luma + (u * U_TO_B) / 1024)
}

/// Byte offset of the YUYV pair that holds pixel `(x, y)`.
pub open spec fn pair_offset(x: nat, y: nat, width: nat) -> nat {
    (y * width + (x / 2) * 2) * 2
}

/// Whether the pair offset of `(x, y)` can be computed in 32 bits.
pub open spec fn pair_offset_fits(x: nat, y: nat, width: nat) -> bool {
    pair_offset(x, y, width) <= u32::MAX
}

/// The RGB value of pixel `(x, y)` of a `width`-wide YUYV buffer, or black
/// when its pair lies (even partly) outside the buffer.
pub open spec fn spec_yuyv_pixel_to_rgb(data: Seq<u8>, x: nat, y: nat, width: nat) -> (u8, u8, u8) {
    let off: int = pair_offset(x, y, width) as int;
    if off + 3 >= data.len() {
        (0u8, 0u8, 0u8)
    } else {
        let luma: int = if x % 2 == 0 { data[off] as int } else { data[off + 2] as int };
        let u: int = data[off + 1] - 128;
        let v: int = data[off + 3] - 128;
        (bt601_red(luma, v), bt601_green(luma, u, v), bt601_blue(luma, u))
    }
}

/// A pixel whose pair does not lie wholly within the buffer converts to
/// black.
pub proof fn lemma_pixel_outside_buffer_black(data: Seq<u8>, x: nat, y: nat, width: nat)
    requires
        pair_offset(x, y, width) + 3 >= data.len(),
    ensures
        spec_yuyv_pixel_to_rgb(data, x, y, width) == (0u8, 0u8, 0u8),
{
}

/// With neutral chroma (U = V = 128) a pixel converts to grey at its own
/// luma.
pub proof fn lemma_neutral_chroma_is_grey(data: Seq<u8>, x: nat, y: nat, width: nat)
    requires
        pair_offset(x, y, width) + 3 < data.len(),
        data[pair_offset(x, y, width) + 1int] == 128,
        data[pair_offset(x, y, width) + 3int] == 128,
    ensures
        ({
            let off = pair_offset(x, y, width) as int;
            let luma = if x % 2 == 0 { data[off] } else { data[off + 2] };
            spec_yuyv_pixel_to_rgb(data, x, y, width) == (luma, luma, luma)
        }),
{
}

/// Inside a `width` x `height` frame of `2 * width * height` bytes (whole
/// pixel pairs per row), a single pixel is converted from the pair the
/// whole-frame layout puts it in: the pair at `y * 2 * width + (x / 2) * 4`,
/// its own Y byte and the pair's U and V.
pub proof fn lemma_pixel_reads_its_pair(data: Seq<u8>, x: nat, y: nat, width: nat, height: nat)
    requires
        width % 2 == 0,
        x < width,
        y < height,
        data.len() == 2 * width * height,
    ensures
        ({
            let p = packed_pair_offset(2 * width, x, y) as int;
            let l = packed_luma_at(data, 2 * width, x, y) as int;
            let u = data[p + 1] - 128;
            let v = data[p + 3] - 128;
            spec_yuyv_pixel_to_rgb(data, x, y, width) == (bt601_red(l, v), bt601_green(l, u, v), bt601_blue(l, u))
        }),
{
    assert(pair_offset(x, y, width) == packed_pair_offset(2 * width, x, y)) by (nonlinear_arith)
        requires
            pair_offset(x, y, width) == (y * width + (x / 2) * 2) * 2,
            packed_pair_offset(2 * width, x, y) == y * (2 * width) + (x / 2) * 4,
    ;
    assert(packed_pair_offset(2 * width, x, y) + 3 < 2 * width * height) by (nonlinear_arith)
        requires
            packed_pair_offset(2 * width, x, y) == y * (2 * width) + (x / 2) * 4,
            width % 2 == 0,
            x < width,
            y < height,
    ;
}

/// Floor division by 1024, as an arithmetic shift.
fn shr10(p: i32) -> (r: i32)
    requires
        -1_000_000 <= p <= 1_000_000,
    ensures
        r == p / 1024,
{
    let r = p >> 10u32;
    assert(p >> 10u32 == p / 1024) by (bit_vector)
        requires
            -1_000_000 <= p <= 1_000_000,
    ;
    r
}

/// `v` clamped into `0..=255`.
fn clamp_to_u8(v: i32) -> (r: u8)
    ensures
        r == clamp_u8(v as int),
{
    if v < 0 {
        0
    } else if v > 255 {
        255
    } else {
        v as u8
    }
}

/// Converts one pixel of a YUYV buffer to RGB (BT.601, 10-bit fixed point).
///
/// Returns black when the pixel's pair lies outside the buffer.
pub fn yuyv_pixel_to_rgb(yuyv_data: &[u8], x: u32, y: u32, width: u32) -> (r: (u8, u8, u8))
    requires
        pair_offset_fits(x as nat, y as nat, width as nat),
    ensures
        r == spec_yuyv_pixel_to_rgb(yuyv_data@, x as nat, y as nat, width as nat),
{
    let pixel_pair_x = (x / 2) * 2;
    proof {
        assert(y * width <= pair_offset(x as nat, y as nat, width as nat)) by (nonlinear_arith)
            requires
                pair_offset(x as nat, y as nat, width as nat) == (y * width + (x / 2) * 2) * 2,
        ;
    }
    let yuyv_offset = ((y * width + pixel_pair_x) * 2) as usize;
    let len = yuyv_data.len();
    if yuyv_offset >= len || len - yuyv_offset <= 3 {
        return (0, 0, 0);
    }
    let y_value: i32 = if x % 2 == 0 {
        yuyv_data[yuyv_offset] as i32
    } else {
        yuyv_data[yuyv_offset + 2] as i32
    };
    let u: i32 = yuyv_data[yuyv_offset + 1] as i32 - 128;
    let v: i32 = yuyv_data[yuyv_offset + 3] as i32 - 128;

    let r = clamp_to_u8(y_value + shr10(v * V_TO_R));
    let g = clamp_to_u8(y_value - shr10(u * U_TO_G + v * V_TO_G));
    let b = clamp_to_u8(y_value + shr10(u * U_TO_B));
    (r, g, b)
}


/// The error type of the `yuv` crate.
#[verifier::external_type_specification]
#[verifier::external_body]
pub struct ExYuvError(yuv::YuvError);

/// Smallest row stride (in bytes) that `yuv` accepts for a packed 4:2:2
/// image of the given width: two bytes per pixel, rounded up to whole pairs.
pub open spec fn min_packed_stride(width: nat) -> nat {
    if width % 2 == 0 {
        2 * width
    } else {
        2 * (width + 1)
    }
}

/// Whether `yuv` accepts a packed 4:2:2 source of `len` bytes with the given
/// stride and dimensions.
pub open spec fn packed422_accepted(len: nat, stride: nat, width: nat, height: nat) -> bool {
    &&& width > 0
    &&& height > 0
    &&& stride <= isize::MAX
    &&& width <= isize::MAX
    &&& height <= isize::MAX
    &&& stride * height <= isize::MAX
    &&& width * height <= isize::MAX
    &&& stride >= min_packed_stride(width)
    &&& len == stride * height
}

/// Whether `yuv` accepts an RGB destination of `len` bytes with the given
/// stride and dimensions.
pub open spec fn rgb_destination_accepted(len: nat, stride: nat, width: nat, height: nat) -> bool {
    &&& width > 0
    &&& height > 0
    &&& width <= isize::MAX
    &&& height <= isize::MAX
    &&& width * height <= isize::MAX
    &&& width * height * 3 <= isize::MAX
    &&& len >= stride * (height - 1) + width * 3
    &&& stride >= width * 3
}

/// Byte offset of the pixel pair holding pixel `(x, y)` of a packed 4:2:2
/// image whose rows start every `stride` bytes.
pub open spec fn packed_pair_offset(stride: nat, x: nat, y: nat) -> nat {
    y * stride + (x / 2) * 4
}

/// Whether the pair of pixel `(x, y)` carries neutral chroma (U = V = 128).
pub open spec fn neutral_chroma_at(src: Seq<u8>, stride: nat, x: nat, y: nat) -> bool {
    let p = packed_pair_offset(stride, x, y) as int;
    src[p + 1] == 128 && src[p + 3] == 128
}

/// The luma byte of pixel `(x, y)`: Y0 of its pair for even columns, Y1 for
/// odd ones.
pub open spec fn packed_luma_at(src: Seq<u8>, stride: nat, x: nat, y: nat) -> u8 {
    let p = packed_pair_offset(stride, x, y) as int;
    if x % 2 == 0 {
        src[p]
    } else {
        src[p + 2]
    }
}

/// A pixel with neutral chroma is grey at its own luma in the RGB output:
/// its three bytes at `y * rgb_stride + x * 3` all equal its Y byte.
pub open spec fn neutral_pixel_grey(src: Seq<u8>, stride: nat, rgb: Seq<u8>, rgb_stride: nat, x: nat, y: nat) -> bool {
    neutral_chroma_at(src, stride, x, y) ==> {
        let o = (y * rgb_stride + x * 3) as int;
        let l = packed_luma_at(src, stride, x, y);
        &&& rgb[o] == l
        &&& rgb[o + 1] == l
        &&& rgb[o + 2] == l
    }
}

/// BT.601 full-range coefficients of the `yuv` crate at precision 6
/// (scaled by 64 and rounded): luma, V to red, U to blue, V and U to green.
pub const YUV_Y_COEF: i32 = 64;
pub const YUV_CR_COEF: i32 = 90;
pub const YUV_CB_COEF: i32 = 113;
pub const YUV_G_COEF_1: i32 = 46;
pub const YUV_G_COEF_2: i32 = 22;

/// One output channel of the `yuv` crate: a precision-6 sum, plus the
/// rounding constant `k` of the path taken, shifted down by 6 and clamped
/// into `0..=255`.
pub open spec fn yuv_channel(sum: int, k: int) -> u8 {
    clamp_u8((sum + k) / 64)
}

/// Pixel `(x, y)` converted with rounding constant `k`: its three bytes at
/// `y * rgb_stride + x * 3` hold red, green and blue from its luma and the
/// centred chroma of its pair.
pub open spec fn pixel_converted_with(
    src: Seq<u8>,
    stride: nat,
    rgb: Seq<u8>,
    rgb_stride: nat,
    x: nat,
    y: nat,
    k: int,
) -> bool {
    let p = packed_pair_offset(stride, x, y) as int;
    let l = packed_luma_at(src, stride, x, y) as int;
    let cb = src[p + 1] - 128;
    let cr = src[p + 3] - 128;
    let o = (y * rgb_stride + x * 3) as int;
    &&& rgb[o] == yuv_channel(YUV_Y_COEF * l + YUV_CR_COEF * cr, k)
    &&& rgb[o + 1] == yuv_channel(YUV_Y_COEF * l - YUV_G_COEF_1 * cr - YUV_G_COEF_2 * cb, k)
    &&& rgb[o + 2] == yuv_channel(YUV_Y_COEF * l + YUV_CB_COEF * cb, k)
}

/// Pixel `(x, y)` converted by one of the crate's paths: the scalar and NEON
/// paths round with 32, the SSE and AVX2 paths with 31.
pub open spec fn pixel_converted(src: Seq<u8>, stride: nat, rgb: Seq<u8>, rgb_stride: nat, x: nat, y: nat) -> bool {
    pixel_converted_with(src, stride, rgb, rgb_stride, x, y, 31)
        || pixel_converted_with(src, stride, rgb, rgb_stride, x, y, 32)
}

/// What holds of a whole-frame YUYV conversion on every path of the `yuv`
/// crate: three bytes per pixel, each pixel converted by the BT.601
/// full-range formula at precision 6 with the rounding of one of the paths.
pub open spec fn yuyv_converted(src: Seq<u8>, width: nat, height: nat, rgb: Seq<u8>) -> bool {
    &&& rgb.len() == width * height * 3
    &&& forall|x: nat, y: nat|
        x < width && y < height ==> #[trigger] pixel_converted(src, width * 2, rgb, width * 3, x, y)
}

/// A converted pixel whose pair has neutral chroma is grey at exactly its
/// luma, on every path.
pub proof fn lemma_converted_neutral_is_grey(
    src: Seq<u8>,
    stride: nat,
    rgb: Seq<u8>,
    rgb_stride: nat,
    x: nat,
    y: nat,
)
    requires
        pixel_converted(src, stride, rgb, rgb_stride, x, y),
    ensures
        neutral_pixel_grey(src, stride, rgb, rgb_stride, x, y),
{
    if neutral_chroma_at(src, stride, x, y) {
        let l = packed_luma_at(src, stride, x, y) as int;
        assert((64 * l + 31) / 64 == l) by (nonlinear_arith)
            requires
                0 <= l <= 255,
        ;
        assert((64 * l + 32) / 64 == l) by (nonlinear_arith)
            requires
                0 <= l <= 255,
        ;
    }
}

/// A whole frame converts every neutral-chroma pixel to grey at its luma.
pub proof fn lemma_converted_frame_neutral_grey(src: Seq<u8>, width: nat, height: nat, rgb: Seq<u8>)
    requires
        yuyv_converted(src, width, height, rgb),
    ensures
        forall|x: nat, y: nat|
            x < width && y < height ==> #[trigger] neutral_pixel_grey(src, width * 2, rgb, width * 3, x, y),
{
    assert forall|x: nat, y: nat| x < width && y < height implies #[trigger] neutral_pixel_grey(
        src,
        width * 2,
        rgb,
        width * 3,
        x,
        y,
    ) by {
        assert(pixel_converted(src, width * 2, rgb, width * 3, x, y));
        lemma_converted_neutral_is_grey(src, width * 2, rgb, width * 3, x, y);
    }
}

/// Calls `yuv::yuyv422_to_rgb` (full range, BT.601) on a packed source and an
/// RGB destination.
///
/// Trusted: the call returns `Ok` exactly when its size checks pass
/// (`check_yuv_packed422` and `check_rgba_destination` in the crate's
/// source), leaves the destination untouched when they fail, and never
/// changes the destination's length. On success, when the destination holds
/// whole rows for every row, each pixel is written by the formula of
/// `pixel_converted`: the crate derives the coefficients 64, 90, 113, 46 and
/// 22 for BT.601 full range at precision 6, and every path (scalar, SSE,
/// AVX2, NEON) computes `clamp((sum + k) >> 6)` with `k` 32 or 31. Which
/// path runs depends on the machine's features, so the rounding constant of
/// a pixel is not fixed. Bytes outside the rows' pixels are not stated.
#[verifier::external_body]
fn yuv_yuyv422_to_rgb(
    yuy: &[u8],
    yuy_stride: u32,
    width: u32,
    height: u32,
    rgb: &mut Vec<u8>,
    rgb_stride: u32,
) -> (r: Result<(), yuv::YuvError>)
    requires
        2 * (width + 1) <= usize::MAX,
        height > 0 ==> rgb_stride * (height - 1) + width * 3 <= usize::MAX,
    ensures
        r is Ok <==> packed422_accepted(yuy@.len(), yuy_stride as nat, width as nat, height as nat)
            && rgb_destination_accepted(old(rgb)@.len(), rgb_stride as nat, width as nat, height as nat),
        final(rgb)@.len() == old(rgb)@.len(),
        r is Err ==> final(rgb)@ == old(rgb)@,
        r is Ok && old(rgb)@.len() >= rgb_stride * height ==> forall|x: nat, y: nat|
            x < width && y < height ==> #[trigger] pixel_converted(
                yuy@,
                yuy_stride as nat,
                final(rgb)@,
                rgb_stride as nat,
                x,
                y,
            ),
{
    let image = yuv::YuvPackedImage { yuy, yuy_stride, width, height };
    yuv::yuyv422_to_rgb(&image, rgb, rgb_stride, yuv::YuvRange::Full, yuv::YuvStandardMatrix::Bt601)
}

/// Whether a `width` x `height` YUYV buffer of `len` bytes can be converted
/// as a whole: non-empty, whole pixel pairs per row, exactly two bytes per
/// pixel, and the RGB result addressable.
pub open spec fn yuyv_frame_convertible(len: nat, width: nat, height: nat) -> bool {
    &&& width > 0
    &&& height > 0
    &&& width % 2 == 0
    &&& len == width * 2 * height
    &&& width * 3 <= u32::MAX
    &&& height <= u32::MAX
    &&& width * height * 3 <= isize::MAX
}

/// Converts a whole YUYV frame to packed RGB24 (BT.601, full range) with the
/// `yuv` crate.
///
/// The result holds three bytes per pixel, row after row, each converted by
/// the crate's BT.601 full-range formula (see `pixel_converted`).
pub fn yuyv_to_rgb(yuyv_data: &[u8], width: usize, height: usize) -> (r: Vec<u8>)
    requires
        yuyv_frame_convertible(yuyv_data@.len(), width as nat, height as nat),
    ensures
        r@.len() == width * height * 3,
        yuyv_converted(yuyv_data@, width as nat, height as nat, r@),
{
    proof {
        assert(width * height * 3 == (width * height) * 3) by (nonlinear_arith);
        assert(width * height <= width * height * 3) by (nonlinear_arith);
        assert(width * 2 * height == (width * 2) * height) by (nonlinear_arith);
        assert(width <= width * height) by (nonlinear_arith) requires height > 0;
        assert(height <= width * height) by (nonlinear_arith) requires width > 0;
        assert((width * 3) * (height - 1) + width * 3 == width * height * 3) by (nonlinear_arith)
            requires height > 0;
        assert((width * 2) * height <= width * height * 3) by (nonlinear_arith);
        assert(width * 2 <= (width * 2) * height) by (nonlinear_arith) requires height > 0;
    }
    let rgb_size = width * height * 3;
    let mut rgb_data = vec_filled(0u8, rgb_size);
    let yuy_stride = (width * 2) as u32;
    let rgb_stride = (width * 3) as u32;
    let converted = yuv_yuyv422_to_rgb(
        yuyv_data,
        yuy_stride,
        width as u32,
        height as u32,
        &mut rgb_data,
        rgb_stride,
    );
    proof {
        assert(packed422_accepted(yuyv_data@.len(), yuy_stride as nat, width as nat, height as nat));
        assert(rgb_destination_accepted(rgb_size as nat, rgb_stride as nat, width as nat, height as nat));
        assert(rgb_size >= rgb_stride * height) by (nonlinear_arith)
            requires
                rgb_size == width * height * 3,
                rgb_stride == width * 3,
        ;
    }
    match converted {
        Ok(()) => {},
        Err(_) => {
            assert(false);
        },
    }
    rgb_data
}

} // verus!
