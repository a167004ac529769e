//! Black-band (letterbox / pillarbox) detection by brightness projection.

use super::rank::{
    count_equal, is_rank_value, lemma_count_equal_remove, lemma_rank_value_exists,
    lemma_rank_value_same_counts, rank_value, select_rank,
};
use crate::processor::sampling::{lemma_stride_exit, stride_count};
use crate::common::color::Color;
use crate::processor::frames::color_frame::{full_frame_viewport, ColorFrame, Viewport};
use vstd::prelude::*;

verus! {

/// Brightness of a colour: the integer mean of its three channels.
pub open spec fn brightness(c: Color) -> u8 {
    ((c.r + c.g + c.b) / 3) as u8
}

/// Brightness of each colour of a sequence.
pub open spec fn brightnesses(pixels: Seq<Color>) -> Seq<u8> {
    pixels.map_values(|c: Color| brightness(c))
}

/// Median brightness of a pixel sample: the brightness at index `len / 2`
/// once sorted ascending (the upper median for even lengths), 0 when empty.
pub open spec fn spec_median_brightness(pixels: Seq<Color>) -> u8 {
    if pixels.len() == 0 {
        0u8
    } else {
        rank_value(brightnesses(pixels), (pixels.len() / 2) as int)
    }
}

/// Median brightness of pixel samples (0 for no samples).
pub fn median_brightness(pixels: &[Color]) -> (r: u8)
    ensures
        r == spec_median_brightness(pixels@),
{
    let len = pixels.len();
    if len == 0 {
        return 0;
    }
    let mut values: Vec<u8> = Vec::with_capacity(len);
    let mut i: usize = 0;
    while i < len
        invariant
            i <= len,
            len == pixels@.len(),
            values@ =~= brightnesses(pixels@.take(i as int)),
        decreases len - i,
    {
        let c = pixels[i];
        let v = ((c.r as u16 + c.g as u16 + c.b as u16) / 3) as u8;
        values.push(v);
        proof {
            assert(brightnesses(pixels@.take(i + 1)) =~= brightnesses(pixels@.take(i as int)).push(v));
        }
        i = i + 1;
    }
    proof {
        assert(pixels@.take(len as int) =~= pixels@);
    }
    select_rank(values.as_slice(), len / 2)
}

/// The pixels at indices `start + j * step` for `j < count`, skipping those
/// past the end of `pixels`.
pub open spec fn strided_samples(pixels: Seq<Color>, start: int, step: int, count: nat) -> Seq<Color>
    decreases count,
{
    if count == 0 {
        Seq::empty()
    } else {
        let prev = strided_samples(pixels, start, step, (count - 1) as nat);
        let idx = start + (count - 1) * step;
        if 0 <= idx < pixels.len() {
            prev.push(pixels[idx])
        } else {
            prev
        }
    }
}

/// The pixels at positions `0, step, 2 * step, ... < bound` scaled by
/// `scale` and offset by `start`, skipping indices past the end.
fn collect_strided(pixels: &[Color], start: u64, step: u64, scale: u64, bound: u64) -> (r: Vec<Color>)
    requires
        step > 0,
        step <= u32::MAX,
        bound <= u32::MAX,
        start + bound * scale <= 0x1_0000_0000_0000,
    ensures
        r@ == strided_samples(pixels@, start as int, step * scale, stride_count(bound as nat, step as nat)),
{
    let mut samples: Vec<Color> = Vec::new();
    let mut p: u64 = 0;
    let ghost mut j: nat = 0;
    while p < bound
        invariant
            step > 0,
            step <= u32::MAX,
            bound <= u32::MAX,
            start + bound * scale <= 0x1_0000_0000_0000,
            p == j * step,
            j == 0 || (j - 1) * step < bound,
            samples@ == strided_samples(pixels@, start as int, step * scale, j),
        decreases bound + step - p,
    {
        proof {
            assert(p * scale <= bound * scale) by (nonlinear_arith)
                requires
                    p < bound,
            ;
            assert(start + j * (step * scale) == start + p * scale) by (nonlinear_arith)
                requires
                    p == j * step,
            ;
        }
        let idx = start + p * scale;
        if idx < pixels.len() as u64 {
            samples.push(pixels[idx as usize]);
        }
        proof {
            assert(samples@ == strided_samples(pixels@, start as int, step * scale, j + 1));
        }
        p = p + step;
        proof {
            assert(p == (j + 1) * step) by (nonlinear_arith)
                requires
                    p == j * step + step,
            ;
            j = j + 1;
        }
    }
    proof {
        lemma_stride_exit(p as int, j as int, step as int, bound as int);
    }
    samples
}

/// Per-row median brightness, each row sampled at every `stride`-th column.
pub open spec fn row_projection(frame: ColorFrame, stride: nat) -> Seq<u8> {
    Seq::new(
        frame.height as nat,
        |y: int|
            spec_median_brightness(
                strided_samples(
                    frame.pixels@,
                    y * frame.width,
                    stride as int,
                    stride_count(frame.width as nat, stride),
                ),
            ),
    )
}

/// Per-column median brightness, each column sampled at every `stride`-th row.
pub open spec fn col_projection(frame: ColorFrame, stride: nat) -> Seq<u8> {
    Seq::new(
        frame.width as nat,
        |x: int|
            spec_median_brightness(
                strided_samples(
                    frame.pixels@,
                    x,
                    (stride * frame.width) as int,
                    stride_count(frame.height as nat, stride),
                ),
            ),
    )
}

/// The dark threshold of a brightness distribution: the value at the
/// `percentile`-th percentile (index `len * percentile / 100`, clamped to the
/// last element) once sorted, capped at 50 so that uniform content is never
/// taken for a band; 0 for an empty distribution.
pub open spec fn spec_percentile_threshold(s: Seq<u8>, percentile: u8) -> u8 {
    if s.len() == 0 {
        0u8
    } else {
        let idx: int = (s.len() * percentile) as int / 100;
        let k: int = if idx < s.len() { idx } else { s.len() - 1 };
        let v = rank_value(s, k);
        if v > 50 {
            50u8
        } else {
            v
        }
    }
}

/// Length of the run of values at most `t` at the start of `s`.
pub open spec fn leading_run(s: Seq<u8>, t: u8) -> nat
    decreases s.len(),
{
    if s.len() == 0 {
        0
    } else if s[0] <= t {
        1 + leading_run(s.drop_first(), t)
    } else {
        0
    }
}

/// Length of the run of values at most `t` at the end of `s`.
pub open spec fn trailing_run(s: Seq<u8>, t: u8) -> nat
    decreases s.len(),
{
    if s.len() == 0 {
        0
    } else if s.last() <= t {
        1 + trailing_run(s.drop_last(), t)
    } else {
        0
    }
}

/// A run counts as a band only when it reaches the minimum band size.
pub open spec fn band_of(run: nat, min_band_size: nat) -> nat {
    if run >= min_band_size {
        run
    } else {
        0
    }
}

/// `a - b`, saturating at 0.
pub open spec fn saturating_sub(a: nat, b: nat) -> nat {
    if a < b {
        0
    } else {
        (a - b) as nat
    }
}

/// Detects black bands using brightness projections.
///
/// Every `detection_interval` frames the bands are measured again, and the
/// resulting viewport is smoothed against the previous one; frames in
/// between reuse the last smoothed viewport.
#[derive(Debug)]
pub struct BandDetector {
    brightness_percentile: u8,
    min_band_size: u32,
    detection_interval: u32,
    sample_stride: u32,
    frame_count: u32,
    smoothed_viewport: Option<Viewport>,
}

impl BandDetector {
    /// The brightness percentile used for the dark threshold.
    pub closed spec fn percentile(&self) -> u8 {
        self.brightness_percentile
    }

    /// The minimum size of a band, in rows or columns.
    pub closed spec fn min_band(&self) -> nat {
        self.min_band_size as nat
    }

    /// How many frames pass between two detections.
    pub closed spec fn interval(&self) -> nat {
        self.detection_interval as nat
    }

    /// Sampling stride of the projections.
    pub closed spec fn stride(&self) -> nat {
        self.sample_stride as nat
    }

    /// Number of frames processed so far.
    pub closed spec fn frames_seen(&self) -> nat {
        self.frame_count as nat
    }

    /// The viewport of the last detection, once there was one.
    pub closed spec fn smoothed(&self) -> Option<Viewport> {
        self.smoothed_viewport
    }

    /// The top band of a frame.
    pub open spec fn top_band(&self, frame: ColorFrame) -> nat {
        let rows = row_projection(frame, self.stride());
        band_of(leading_run(rows, spec_percentile_threshold(rows, self.percentile())), self.min_band())
    }

    /// The bottom band of a frame.
    pub open spec fn bottom_band(&self, frame: ColorFrame) -> nat {
        let rows = row_projection(frame, self.stride());
        band_of(trailing_run(rows, spec_percentile_threshold(rows, self.percentile())), self.min_band())
    }

    /// The left band of a frame.
    pub open spec fn left_band(&self, frame: ColorFrame) -> nat {
        let cols = col_projection(frame, self.stride());
        band_of(leading_run(cols, spec_percentile_threshold(cols, self.percentile())), self.min_band())
    }

    /// The right band of a frame.
    pub open spec fn right_band(&self, frame: ColorFrame) -> nat {
        let cols = col_projection(frame, self.stride());
        band_of(trailing_run(cols, spec_percentile_threshold(cols, self.percentile())), self.min_band())
    }

    /// The viewport left once the four bands are cut off.
    pub open spec fn spec_detect_viewport(&self, frame: ColorFrame) -> Viewport {
        Viewport {
            x: self.left_band(frame) as u32,
            y: self.top_band(frame) as u32,
            width: saturating_sub(frame.width as nat, self.left_band(frame) + self.right_band(frame)) as u32,
            height: saturating_sub(frame.height as nat, self.top_band(frame) + self.bottom_band(frame)) as u32,
        }
    }

    /// Whether detection can run on a frame: a positive stride, an
    /// addressable pixel grid, and band sums that fit in 32 bits.
    pub open spec fn can_detect(&self, frame: ColorFrame) -> bool {
        &&& self.stride() > 0
        &&& frame.width * frame.height <= u32::MAX
        &&& self.left_band(frame) + self.right_band(frame) <= u32::MAX
        &&& self.top_band(frame) + self.bottom_band(frame) <= u32::MAX
    }

    /// A detector with the given percentile, minimum band size, detection
    /// interval and projection stride, before any frame.
    pub fn new(
        brightness_percentile: u8,
        min_band_size: u32,
        detection_interval: u32,
        sample_stride: u32,
    ) -> (d: BandDetector)
        ensures
            d.percentile() == brightness_percentile,
            d.min_band() == min_band_size,
            d.interval() == detection_interval,
            d.stride() == sample_stride,
            d.frames_seen() == 0,
            d.smoothed() is None,
    {
        BandDetector {
            brightness_percentile,
            min_band_size,
            detection_interval,
            sample_stride,
            frame_count: 0,
            smoothed_viewport: None,
        }
    }

    /// Median brightness of each row, sampling every `sample_stride`-th pixel.
    pub fn build_row_projection(&self, frame: &ColorFrame) -> (r: Vec<u8>)
        requires
            self.stride() > 0,
            frame.width * frame.height <= u32::MAX,
        ensures
            r@ == row_projection(*frame, self.stride()),
    {
        let mut projection: Vec<u8> = Vec::new();
        let pixels = frame.pixels.as_slice();
        let mut y: u32 = 0;
        while y < frame.height
            invariant
                self.stride() > 0,
                frame.width * frame.height <= u32::MAX,
                pixels@ == frame.pixels@,
                y <= frame.height,
                projection@.len() == y,
                forall|i: int| 0 <= i < y ==> #[trigger] projection@[i] == row_projection(*frame, self.stride())[i],
            decreases frame.height - y,
        {
            proof {
                assert((y + 1) * frame.width <= frame.height * frame.width) by (nonlinear_arith)
                    requires
                        y < frame.height,
                ;
                assert(y * frame.width + frame.width == (y + 1) * frame.width) by (nonlinear_arith);
            }
            let start = y as u64 * frame.width as u64;
            let samples = collect_strided(pixels, start, self.sample_stride as u64, 1, frame.width as u64);
            proof {
                assert(self.sample_stride as nat * 1 == self.sample_stride as nat);
            }
            let m = median_brightness(samples.as_slice());
            projection.push(m);
            y = y + 1;
        }
        proof {
            assert(projection@ =~= row_projection(*frame, self.stride()));
        }
        projection
    }

    /// Median brightness of each column, sampling every `sample_stride`-th pixel.
    pub fn build_col_projection(&self, frame: &ColorFrame) -> (r: Vec<u8>)
        requires
            self.stride() > 0,
            frame.width * frame.height <= u32::MAX,
        ensures
            r@ == col_projection(*frame, self.stride()),
    {
        let mut projection: Vec<u8> = Vec::new();
        let pixels = frame.pixels.as_slice();
        let mut x: u32 = 0;
        while x < frame.width
            invariant
                self.stride() > 0,
                frame.width * frame.height <= u32::MAX,
                pixels@ == frame.pixels@,
                x <= frame.width,
                projection@.len() == x,
                forall|i: int| 0 <= i < x ==> #[trigger] projection@[i] == col_projection(*frame, self.stride())[i],
            decreases frame.width - x,
        {
            proof {
                assert(frame.height * frame.width == frame.width * frame.height) by (nonlinear_arith);
            }
            let samples = collect_strided(
                pixels,
                x as u64,
                self.sample_stride as u64,
                frame.width as u64,
                frame.height as u64,
            );
            let m = median_brightness(samples.as_slice());
            projection.push(m);
            x = x + 1;
        }
        proof {
            assert(projection@ =~= col_projection(*frame, self.stride()));
        }
        projection
    }

    /// The dark threshold of a brightness distribution (see
    /// [`spec_percentile_threshold`]).
    pub fn calculate_percentile_threshold(&self, brightness: &[u8]) -> (r: u8)
        ensures
            r == spec_percentile_threshold(brightness@, self.percentile()),
    {
        let len = brightness.len();
        if len == 0 {
            return 0;
        }
        proof {
            assert(len as u128 * self.brightness_percentile as u128 <= 0xffff_ffff_ffff_ffff * 255)
                by (nonlinear_arith)
                requires
                    len <= 0xffff_ffff_ffff_ffffu64,
                    self.brightness_percentile <= 255,
            ;
        }
        let idx = (len as u128 * self.brightness_percentile as u128) / 100;
        let k: usize = if idx < len as u128 {
            idx as usize
        } else {
            len - 1
        };
        let v = select_rank(brightness, k);
        if v > 50 {
            50
        } else {
            v
        }
    }

    /// Size of the dark run at the start of a projection, or 0 when it is
    /// shorter than the minimum band size.
    pub fn find_band_from_start(&self, brightness: &[u8], threshold: u8) -> (r: u32)
        requires
            brightness@.len() <= u32::MAX,
        ensures
            r == band_of(leading_run(brightness@, threshold), self.min_band()),
    {
        let len = brightness.len();
        let mut band_size: u32 = 0;
        let mut i: usize = 0;
        proof {
            assert(brightness@.skip(0) =~= brightness@);
        }
        while i < len
            invariant
                i <= len,
                len == brightness@.len(),
                len <= u32::MAX,
                band_size == i,
                leading_run(brightness@, threshold) == i + leading_run(brightness@.skip(i as int), threshold),
            ensures
                band_size == leading_run(brightness@, threshold),
            decreases len - i,
        {
            proof {
                assert(brightness@.skip(len as int).len() == 0);
            }
            if brightness[i] <= threshold {
                proof {
                    assert(brightness@.skip(i as int).drop_first() =~= brightness@.skip(i + 1));
                }
                band_size = band_size + 1;
                i = i + 1;
            } else {
                proof {
                    assert(brightness@.skip(i as int)[0] == brightness@[i as int]);
                    assert(leading_run(brightness@.skip(i as int), threshold) == 0);
                }
                break;
            }
        }
        if band_size >= self.min_band_size {
            band_size
        } else {
            0
        }
    }

    /// Size of the dark run at the end of a projection, or 0 when it is
    /// shorter than the minimum band size.
    pub fn find_band_from_end(&self, brightness: &[u8], threshold: u8) -> (r: u32)
        requires
            brightness@.len() <= u32::MAX,
        ensures
            r == band_of(trailing_run(brightness@, threshold), self.min_band()),
    {
        let len = brightness.len();
        let mut band_size: u32 = 0;
        let mut i: usize = len;
        proof {
            assert(brightness@.take(len as int) =~= brightness@);
        }
        while i > 0
            invariant
                i <= len,
                len == brightness@.len(),
                len <= u32::MAX,
                band_size == len - i,
                trailing_run(brightness@, threshold) == (len - i) + trailing_run(brightness@.take(i as int), threshold),
            ensures
                band_size == trailing_run(brightness@, threshold),
            decreases i,
        {
            if brightness[i - 1] <= threshold {
                proof {
                    assert(brightness@.take(i as int).drop_last() =~= brightness@.take(i - 1));
                }
                band_size = band_size + 1;
                i = i - 1;
            } else {
                proof {
                    assert(brightness@.take(i as int).last() == brightness@[i - 1]);
                    assert(trailing_run(brightness@.take(i as int), threshold) == 0);
                }
                break;
            }
        }
        if band_size >= self.min_band_size {
            band_size
        } else {
            0
        }
    }

    /// The viewport left once the dark bands on all four sides are cut off.
    pub fn detect_viewport(&self, frame: &ColorFrame) -> (v: Viewport)
        requires
            self.can_detect(*frame),
        ensures
            v == self.spec_detect_viewport(*frame),
    {
        let row_brightness = self.build_row_projection(frame);
        let col_brightness = self.build_col_projection(frame);

        let row_threshold = self.calculate_percentile_threshold(row_brightness.as_slice());
        let col_threshold = self.calculate_percentile_threshold(col_brightness.as_slice());

        let top = self.find_band_from_start(row_brightness.as_slice(), row_threshold);
        let bottom = self.find_band_from_end(row_brightness.as_slice(), row_threshold);
        let left = self.find_band_from_start(col_brightness.as_slice(), col_threshold);
        let right = self.find_band_from_end(col_brightness.as_slice(), col_threshold);

        Viewport {
            x: left,
            y: top,
            width: frame.width.saturating_sub(left + right),
            height: frame.height.saturating_sub(top + bottom),
        }
    }

    /// Processes one frame: every `detection_interval`-th frame the bands are
    /// detected again and the new viewport is `smooth(previous, detected)`
    /// (or the detected one for the first detection); other frames reuse the
    /// last viewport, if any.
    pub fn process<F: Fn(Viewport, Viewport) -> Viewport>(&mut self, input: ColorFrame, smooth: F) -> (out: ColorFrame)
        requires
            old(self).frames_seen() < u32::MAX,
            old(self).interval() > 0,
            (old(self).frames_seen() + 1) % old(self).interval() == 0 ==> old(self).can_detect(input),
            forall|p: Viewport, d: Viewport| smooth.requires((p, d)),
        ensures
            final(self).frames_seen() == old(self).frames_seen() + 1,
            final(self).percentile() == old(self).percentile(),
            final(self).min_band() == old(self).min_band(),
            final(self).interval() == old(self).interval(),
            final(self).stride() == old(self).stride(),
            out.pixels == input.pixels,
            out.width == input.width,
            out.height == input.height,
            (old(self).frames_seen() + 1) % old(self).interval() == 0 ==> {
                let detected = old(self).spec_detect_viewport(input);
                &&& final(self).smoothed() == Some(out.viewport)
                &&& match old(self).smoothed() {
                    None => out.viewport == detected,
                    Some(prev) => smooth.ensures((prev, detected), out.viewport),
                }
            },
            (old(self).frames_seen() + 1) % old(self).interval() != 0 ==> {
                &&& final(self).smoothed() == old(self).smoothed()
                &&& out.viewport == match old(self).smoothed() {
                    Some(vp) => vp,
                    None => input.viewport,
                }
            },
    {
        let mut output = input;
        self.frame_count = self.frame_count + 1;
        if self.frame_count % self.detection_interval == 0 {
            let detected = self.detect_viewport(&output);
            let smoothed = match self.smoothed_viewport {
                Some(prev) => smooth(prev, detected),
                None => detected,
            };
            self.smoothed_viewport = Some(smoothed);
            output.viewport = smoothed;
        } else {
            match self.smoothed_viewport {
                Some(vp) => {
                    output.viewport = vp;
                },
                None => {},
            }
        }
        output
    }
}

/// The median of a non-empty sample is the brightness of one of its pixels,
/// with at most half of the sample darker than it and more than half at
/// most as bright.
pub proof fn lemma_median_is_sample(pixels: Seq<Color>)
    requires
        pixels.len() > 0,
    ensures
        exists|i: int| 0 <= i < pixels.len() && brightness(pixels[i]) == spec_median_brightness(pixels),
        is_rank_value(brightnesses(pixels), (pixels.len() / 2) as int, spec_median_brightness(pixels)),
{
    let b = brightnesses(pixels);
    lemma_rank_value_exists(b, (pixels.len() / 2) as int);
    let i = choose|i: int| 0 <= i < b.len() && b[i] == rank_value(b, (pixels.len() / 2) as int);
    assert(brightness(pixels[i]) == b[i]);
}

/// Two pixel samples holding the same pixels, in any order, have the same
/// count of every brightness.
proof fn lemma_brightness_counts_reordered(p: Seq<Color>, q: Seq<Color>, b: int)
    requires
        p.to_multiset() == q.to_multiset(),
    ensures
        count_equal(brightnesses(p), b) == count_equal(brightnesses(q), b),
        p.len() == q.len(),
    decreases p.len(),
{
    broadcast use vstd::seq_lib::group_to_multiset_ensures;
    broadcast use vstd::multiset::group_multiset_axioms;

    assert(p.to_multiset().len() == p.len());
    assert(q.to_multiset().len() == q.len());
    if p.len() == 0 {
        assert(q.len() == 0);
        assert(brightnesses(q) =~= Seq::<u8>::empty());
        assert(brightnesses(p) =~= Seq::<u8>::empty());
    } else {
        let a = p.last();
        let t = p.drop_last();
        assert(p =~= t.push(a));
        assert(p.to_multiset() =~= t.to_multiset().insert(a));
        assert(q.to_multiset().count(a) > 0);
        assert(q.contains(a));
        let j = choose|j: int| 0 <= j < q.len() && q[j] == a;
        let r = q.remove(j);
        assert(r.to_multiset() =~= q.to_multiset().remove(a));
        assert(r.to_multiset() =~= t.to_multiset());
        lemma_brightness_counts_reordered(t, r, b);
        assert(brightnesses(p).drop_last() =~= brightnesses(t));
        assert(brightnesses(p).last() == brightness(a));
        assert(brightnesses(q).remove(j) =~= brightnesses(r));
        lemma_count_equal_remove(brightnesses(q), j, b);
        assert(brightnesses(q)[j] == brightness(a));
    }
}

/// The median brightness does not depend on the order of the pixels: any
/// reordering of a sample has the same median.
pub proof fn lemma_median_order_independent(p: Seq<Color>, q: Seq<Color>)
    requires
        p.to_multiset() == q.to_multiset(),
    ensures
        spec_median_brightness(p) == spec_median_brightness(q),
{
    lemma_brightness_counts_reordered(p, q, 0);
    if p.len() > 0 {
        assert forall|b: int| 0 <= b < 256 implies #[trigger] count_equal(brightnesses(p), b) == count_equal(
            brightnesses(q),
            b,
        ) by {
            lemma_brightness_counts_reordered(p, q, b);
        }
        lemma_rank_value_same_counts(brightnesses(p), brightnesses(q), (p.len() / 2) as int);
    }
}

/// A run at the start or end of a sequence is never longer than it.
pub proof fn lemma_runs_bounded(s: Seq<u8>, t: u8)
    ensures
        leading_run(s, t) <= s.len(),
        trailing_run(s, t) <= s.len(),
    decreases s.len(),
{
    if s.len() > 0 {
        lemma_runs_bounded(s.drop_first(), t);
        lemma_runs_bounded(s.drop_last(), t);
    }
}

/// The run at the start of a sequence: every value in it is at most the
/// threshold, and the value right after it is above.
pub proof fn lemma_leading_run_exact(s: Seq<u8>, t: u8)
    ensures
        leading_run(s, t) <= s.len(),
        forall|c: int| 0 <= c < leading_run(s, t) ==> #[trigger] s[c] <= t,
        leading_run(s, t) < s.len() ==> s[leading_run(s, t) as int] > t,
    decreases s.len(),
{
    if s.len() > 0 && s[0] <= t {
        let r = s.drop_first();
        lemma_leading_run_exact(r, t);
        assert forall|c: int| 0 <= c < leading_run(s, t) implies #[trigger] s[c] <= t by {
            if c > 0 {
                assert(s[c] == r[c - 1]);
            }
        }
        if leading_run(s, t) < s.len() {
            assert(s[leading_run(s, t) as int] == r[leading_run(r, t) as int]);
        }
    }
}

/// The run at the end of a sequence: every value in it is at most the
/// threshold, and the value right before it is above.
pub proof fn lemma_trailing_run_exact(s: Seq<u8>, t: u8)
    ensures
        trailing_run(s, t) <= s.len(),
        forall|c: int| s.len() - trailing_run(s, t) <= c < s.len() ==> #[trigger] s[c] <= t,
        trailing_run(s, t) < s.len() ==> s[s.len() - 1 - trailing_run(s, t)] > t,
    decreases s.len(),
{
    if s.len() > 0 && s.last() <= t {
        let r = s.drop_last();
        lemma_trailing_run_exact(r, t);
        assert forall|c: int| s.len() - trailing_run(s, t) <= c < s.len() implies #[trigger] s[c] <= t by {
            if c < s.len() - 1 {
                assert(s[c] == r[c]);
            }
        }
        if trailing_run(s, t) < s.len() {
            assert(s[s.len() - 1 - trailing_run(s, t)] == r[r.len() - 1 - trailing_run(r, t)]);
        }
    }
}

/// The band at the start of a projection: all values before it are dark;
/// a band is at least the minimum size and is followed by a bright value;
/// no band means no dark prefix reaches the minimum size.
pub proof fn lemma_start_band(s: Seq<u8>, t: u8, min: nat)
    ensures
        ({
            let b = band_of(leading_run(s, t), min);
            &&& b <= s.len()
            &&& forall|c: int| 0 <= c < b ==> #[trigger] s[c] <= t
            &&& b > 0 ==> b >= min && (b < s.len() ==> s[b as int] > t)
            &&& b == 0 ==> forall|n: int|
                #![trigger s.subrange(0, n)]
                min <= n <= s.len() && n > 0 ==> exists|c: int| 0 <= c < n && #[trigger] s[c] > t
        }),
{
    lemma_leading_run_exact(s, t);
    let r = leading_run(s, t);
    let b = band_of(r, min);
    if b == 0 {
        assert forall|n: int|
            #![trigger s.subrange(0, n)]
            min <= n <= s.len() && n > 0 implies exists|c: int| 0 <= c < n && #[trigger] s[c] > t by {
            assert(r < n);
            assert(s[r as int] > t);
        }
    }
}

/// The band at the end of a projection: all values after its start are
/// dark; a band is at least the minimum size and is preceded by a bright
/// value; no band means no dark suffix reaches the minimum size.
pub proof fn lemma_end_band(s: Seq<u8>, t: u8, min: nat)
    ensures
        ({
            let b = band_of(trailing_run(s, t), min);
            &&& b <= s.len()
            &&& forall|c: int| s.len() - b <= c < s.len() ==> #[trigger] s[c] <= t
            &&& b > 0 ==> b >= min && (b < s.len() ==> s[s.len() - 1 - b] > t)
            &&& b == 0 ==> forall|n: int|
                #![trigger s.subrange(s.len() - n, s.len() as int)]
                min <= n <= s.len() && n > 0 ==> exists|c: int| s.len() - n <= c < s.len() && #[trigger] s[c] > t
        }),
{
    lemma_trailing_run_exact(s, t);
    let r = trailing_run(s, t);
    let b = band_of(r, min);
    if b == 0 {
        assert forall|n: int|
            #![trigger s.subrange(s.len() - n, s.len() as int)]
            min <= n <= s.len() && n > 0 implies exists|c: int| s.len() - n <= c < s.len() && #[trigger] s[c] > t by {
            assert(r < n);
            assert(s[s.len() - 1 - r] > t);
        }
    }
}

/// The detected viewport lies between the dark bands of the projections:
/// it starts right after the dark run at the start of the columns (and of
/// the rows), which is at least the minimum band size and followed by a
/// bright column (row), or starts at 0; and, when the two bands fit in the
/// frame, it ends right before the dark run at the end of the columns
/// (rows), which is likewise at least the minimum size and preceded by a
/// bright column (row).
pub proof fn lemma_viewport_between_bands(d: BandDetector, frame: ColorFrame)
    ensures
        ({
            let v = d.spec_detect_viewport(frame);
            let cols = col_projection(frame, d.stride());
            let rows = row_projection(frame, d.stride());
            let ct = spec_percentile_threshold(cols, d.percentile());
            let rt = spec_percentile_threshold(rows, d.percentile());
            let right = band_of(trailing_run(cols, ct), d.min_band());
            let bottom = band_of(trailing_run(rows, rt), d.min_band());
            &&& forall|c: int| 0 <= c < v.x ==> #[trigger] cols[c] <= ct
            &&& v.x > 0 ==> v.x >= d.min_band() && (v.x < frame.width ==> cols[v.x as int] > ct)
            &&& forall|c: int| 0 <= c < v.y ==> #[trigger] rows[c] <= rt
            &&& v.y > 0 ==> v.y >= d.min_band() && (v.y < frame.height ==> rows[v.y as int] > rt)
            &&& v.x + right <= frame.width ==> {
                &&& v.x + v.width == frame.width - right
                &&& forall|c: int| v.x + v.width <= c < frame.width ==> #[trigger] cols[c] <= ct
                &&& right > 0 ==> right >= d.min_band() && (right < frame.width ==> cols[frame.width - 1 - right] > ct)
            }
            &&& v.y + bottom <= frame.height ==> {
                &&& v.y + v.height == frame.height - bottom
                &&& forall|c: int| v.y + v.height <= c < frame.height ==> #[trigger] rows[c] <= rt
                &&& bottom > 0 ==> bottom >= d.min_band() && (bottom < frame.height ==> rows[frame.height - 1 - bottom] > rt)
            }
        }),
{
    let cols = col_projection(frame, d.stride());
    let rows = row_projection(frame, d.stride());
    let ct = spec_percentile_threshold(cols, d.percentile());
    let rt = spec_percentile_threshold(rows, d.percentile());
    lemma_start_band(cols, ct, d.min_band());
    lemma_end_band(cols, ct, d.min_band());
    lemma_start_band(rows, rt, d.min_band());
    lemma_end_band(rows, rt, d.min_band());
}

/// The dark threshold never exceeds 50, whatever the distribution.
pub proof fn lemma_threshold_capped(s: Seq<u8>, percentile: u8)
    ensures
        spec_percentile_threshold(s, percentile) <= 50,
{
}

/// The detected viewport always lies within the frame.
pub proof fn lemma_viewport_within_frame(d: BandDetector, frame: ColorFrame)
    ensures
        ({
            let v = d.spec_detect_viewport(frame);
            &&& v.x + v.width <= frame.width
            &&& v.y + v.height <= frame.height
        }),
{
    let rows = row_projection(frame, d.stride());
    let cols = col_projection(frame, d.stride());
    lemma_runs_bounded(rows, spec_percentile_threshold(rows, d.percentile()));
    lemma_runs_bounded(cols, spec_percentile_threshold(cols, d.percentile()));
}

/// Content whose every row and column is brighter than 50 is never cut: the
/// detected viewport is the whole frame.
pub proof fn lemma_bright_content_not_cut(d: BandDetector, frame: ColorFrame)
    requires
        forall|i: int| 0 <= i < frame.height ==> #[trigger] row_projection(frame, d.stride())[i] > 50,
        forall|i: int| 0 <= i < frame.width ==> #[trigger] col_projection(frame, d.stride())[i] > 50,
    ensures
        d.spec_detect_viewport(frame) == full_frame_viewport(frame.width, frame.height),
{
    let rows = row_projection(frame, d.stride());
    let cols = col_projection(frame, d.stride());
    let rt = spec_percentile_threshold(rows, d.percentile());
    let ct = spec_percentile_threshold(cols, d.percentile());
    if rows.len() > 0 {
        assert(rows[0] > 50);
        assert(rows.last() == rows[rows.len() - 1]);
        assert(rows[rows.len() - 1] > 50);
    }
    if cols.len() > 0 {
        assert(cols[0] > 50);
        assert(cols[cols.len() - 1] > 50);
    }
    assert(leading_run(rows, rt) == 0);
    assert(trailing_run(rows, rt) == 0);
    assert(leading_run(cols, ct) == 0);
    assert(trailing_run(cols, ct) == 0);
}

/// A run shorter than the minimum band size is no band, and a band is never
/// shorter than the minimum.
pub proof fn lemma_band_minimum(run: nat, min_band_size: nat)
    ensures
        run < min_band_size ==> band_of(run, min_band_size) == 0,
        band_of(run, min_band_size) == 0 || band_of(run, min_band_size) >= min_band_size,
{
}

} // verus!
