//! Strided sampling of pixel regions and averaging of colours.

use crate::common::color::Color;
use vstd::prelude::*;

verus! {

/// Number of positions `0, step, 2 * step, ...` below `len`.
pub open spec fn stride_count(len: nat, step: nat) -> nat {
    if step == 0 {
        0
    } else {
        ((len + step - 1) as nat / step) as nat
    }
}

/// A loop that visits `0, step, 2 * step, ...` while below `bound` ends
/// after exactly `stride_count(bound, step)` steps.
pub proof fn lemma_stride_exit(p: int, j: int, step: int, bound: int)
    requires
        step > 0,
        bound >= 0,
        j >= 0,
        p == j * step,
        p >= bound,
        j == 0 || (j - 1) * step < bound,
    ensures
        j == stride_count(bound as nat, step as nat),
{
    let c = bound + step - 1;
    let r = c - j * step;
    assert((j - 1) * step == j * step - step) by (nonlinear_arith);
    assert(0 <= r < step);
    vstd::arithmetic::div_mod::lemma_fundamental_div_mod_converse(c, step, j, r);
}

/// Grid step between sampled pixels of a region.
pub const SAMPLE_STEP: u32 = 4;

/// The samples of one row: `sample(x0 + 4 * i, y)` for `i < nx`, keeping
/// only those that exist, in visiting order.
pub open spec fn row_samples(sample: spec_fn(nat, nat) -> Option<Color>, x0: nat, nx: nat, y: nat) -> Seq<Color>
    decreases nx,
{
    if nx == 0 {
        Seq::empty()
    } else {
        let prev = row_samples(sample, x0, (nx - 1) as nat, y);
        match sample((x0 + SAMPLE_STEP * (nx - 1)) as nat, y) {
            Some(c) => prev.push(c),
            None => prev,
        }
    }
}

/// The samples of a region, row by row: rows `y0 + 4 * j` for `j < ny`.
pub open spec fn region_samples(
    sample: spec_fn(nat, nat) -> Option<Color>,
    x0: nat,
    nx: nat,
    y0: nat,
    ny: nat,
) -> Seq<Color>
    decreases ny,
{
    if ny == 0 {
        Seq::empty()
    } else {
        region_samples(sample, x0, nx, y0, (ny - 1) as nat) + row_samples(
            sample,
            x0,
            nx,
            (y0 + SAMPLE_STEP * (ny - 1)) as nat,
        )
    }
}

/// When every sample of a row exists, the row's samples are exactly the
/// samples at `(x0 + 4 * i, y)` for `i < nx`, in order.
pub proof fn lemma_row_samples_exact(sample: spec_fn(nat, nat) -> Option<Color>, x0: nat, nx: nat, y: nat)
    requires
        forall|i: nat| i < nx ==> (#[trigger] sample((x0 + SAMPLE_STEP * i) as nat, y)) is Some,
    ensures
        row_samples(sample, x0, nx, y).len() == nx,
        forall|i: nat|
            i < nx ==> Some(#[trigger] row_samples(sample, x0, nx, y)[i as int]) == sample(
                (x0 + SAMPLE_STEP * i) as nat,
                y,
            ),
    decreases nx,
{
    if nx > 0 {
        let k = (nx - 1) as nat;
        assert(sample((x0 + SAMPLE_STEP * k) as nat, y) is Some);
        lemma_row_samples_exact(sample, x0, k, y);
        let prev = row_samples(sample, x0, k, y);
        assert forall|i: nat| i < nx implies Some(#[trigger] row_samples(sample, x0, nx, y)[i as int])
            == sample((x0 + SAMPLE_STEP * i) as nat, y) by {
            if i < k {
                assert(row_samples(sample, x0, nx, y)[i as int] == prev[i as int]);
            }
        }
    }
}

/// When every sample of a region exists, the region's samples are exactly
/// the samples at `(x0 + 4 * i, y0 + 4 * j)` for `j < ny`, `i < nx`, row by
/// row: element `j * nx + i` is the sample at that point.
pub proof fn lemma_region_samples_exact(
    sample: spec_fn(nat, nat) -> Option<Color>,
    x0: nat,
    nx: nat,
    y0: nat,
    ny: nat,
)
    requires
        forall|i: nat, j: nat|
            i < nx && j < ny ==> (#[trigger] sample((x0 + SAMPLE_STEP * i) as nat, (y0 + SAMPLE_STEP * j) as nat)) is Some,
    ensures
        region_samples(sample, x0, nx, y0, ny).len() == ny * nx,
        forall|i: nat, j: nat|
            i < nx && j < ny ==> Some(#[trigger] region_samples(sample, x0, nx, y0, ny)[(j * nx + i) as int]) == sample(
                (x0 + SAMPLE_STEP * i) as nat,
                (y0 + SAMPLE_STEP * j) as nat,
            ),
    decreases ny,
{
    if ny > 0 {
        let k = (ny - 1) as nat;
        let yk = (y0 + SAMPLE_STEP * k) as nat;
        assert forall|i: nat| i < nx implies (#[trigger] sample((x0 + SAMPLE_STEP * i) as nat, yk)) is Some by {
            assert(sample((x0 + SAMPLE_STEP * i) as nat, (y0 + SAMPLE_STEP * k) as nat) is Some);
        }
        lemma_row_samples_exact(sample, x0, nx, yk);
        lemma_region_samples_exact(sample, x0, nx, y0, k);
        let prev = region_samples(sample, x0, nx, y0, k);
        let row = row_samples(sample, x0, nx, yk);
        assert(k * nx + nx == ny * nx) by (nonlinear_arith)
            requires
                k + 1 == ny,
        ;
        assert forall|i: nat, j: nat| i < nx && j < ny implies Some(
            #[trigger] region_samples(sample, x0, nx, y0, ny)[(j * nx + i) as int],
        ) == sample((x0 + SAMPLE_STEP * i) as nat, (y0 + SAMPLE_STEP * j) as nat) by {
            if j < k {
                assert(j * nx + i < k * nx) by (nonlinear_arith)
                    requires
                        j < k,
                        i < nx,
                ;
                assert(region_samples(sample, x0, nx, y0, ny)[(j * nx + i) as int] == prev[(j * nx + i) as int]);
            } else {
                assert(j == k);
                assert(region_samples(sample, x0, nx, y0, ny)[(j * nx + i) as int] == row[i as int]);
            }
        }
    } else {
        assert(ny * nx == 0) by (nonlinear_arith)
            requires
                ny == 0,
        ;
    }
}

/// The sample columns (or rows) between `start` and `end` are exactly the
/// positions `start + 4 * i` that lie before `end`.
pub proof fn lemma_sample_count_exact(start: nat, end: nat, i: nat)
    ensures
        i < sample_count(start, end) <==> start + SAMPLE_STEP * i < end,
{
    if start + SAMPLE_STEP * i < end {
        lemma_stride_within(i as int, 4, (end - start) as int);
    }
    if i < sample_count(start, end) {
        let len = (end - start) as int;
        let c = len + 3;
        vstd::arithmetic::div_mod::lemma_fundamental_div_mod(c, 4);
        assert(4 * i < len) by (nonlinear_arith)
            requires
                i < c / 4,
                c == 4 * (c / 4) + c % 4,
                0 <= c % 4 < 4,
                c == len + 3,
        ;
    }
}

/// Sum of the red channels of a colour sequence.
pub open spec fn red_sum(s: Seq<Color>) -> nat
    decreases s.len(),
{
    if s.len() == 0 {
        0
    } else {
        red_sum(s.drop_last()) + s.last().r as nat
    }
}

/// Sum of the green channels of a colour sequence.
pub open spec fn green_sum(s: Seq<Color>) -> nat
    decreases s.len(),
{
    if s.len() == 0 {
        0
    } else {
        green_sum(s.drop_last()) + s.last().g as nat
    }
}

/// Sum of the blue channels of a colour sequence.
pub open spec fn blue_sum(s: Seq<Color>) -> nat
    decreases s.len(),
{
    if s.len() == 0 {
        0
    } else {
        blue_sum(s.drop_last()) + s.last().b as nat
    }
}

/// Channel sums never exceed 255 per colour.
pub proof fn lemma_channel_sums_bounded(s: Seq<Color>)
    ensures
        red_sum(s) <= 255 * s.len(),
        green_sum(s) <= 255 * s.len(),
        blue_sum(s) <= 255 * s.len(),
    decreases s.len(),
{
    if s.len() > 0 {
        lemma_channel_sums_bounded(s.drop_last());
    }
}

/// The channel-wise integer mean of a colour sequence, black when empty.
pub open spec fn average_color(s: Seq<Color>) -> Color {
    if s.len() == 0 {
        Color { r: 0, g: 0, b: 0 }
    } else {
        Color {
            r: (red_sum(s) / s.len()) as u8,
            g: (green_sum(s) / s.len()) as u8,
            b: (blue_sum(s) / s.len()) as u8,
        }
    }
}

/// Channel sums of a sequence of one repeated colour are that colour's
/// channels times the length.
pub proof fn lemma_uniform_sums(s: Seq<Color>, c: Color)
    requires
        forall|i: int| 0 <= i < s.len() ==> #[trigger] s[i] == c,
    ensures
        red_sum(s) == s.len() * c.r,
        green_sum(s) == s.len() * c.g,
        blue_sum(s) == s.len() * c.b,
    decreases s.len(),
{
    if s.len() > 0 {
        let t = s.drop_last();
        assert forall|i: int| 0 <= i < t.len() implies #[trigger] t[i] == c by {
            assert(t[i] == s[i]);
        }
        lemma_uniform_sums(t, c);
        assert(s.last() == s[s.len() - 1]);
        assert((s.len() - 1) * c.r + c.r == s.len() * c.r) by (nonlinear_arith);
        assert((s.len() - 1) * c.g + c.g == s.len() * c.g) by (nonlinear_arith);
        assert((s.len() - 1) * c.b + c.b == s.len() * c.b) by (nonlinear_arith);
    }
}

/// The average of samples that all have one colour is that colour.
pub proof fn lemma_average_of_uniform(s: Seq<Color>, c: Color)
    requires
        s.len() > 0,
        forall|i: int| 0 <= i < s.len() ==> #[trigger] s[i] == c,
    ensures
        average_color(s) == c,
{
    lemma_uniform_sums(s, c);
    let n = s.len() as int;
    vstd::arithmetic::div_mod::lemma_div_multiples_vanish(c.r as int, n);
    vstd::arithmetic::div_mod::lemma_div_multiples_vanish(c.g as int, n);
    vstd::arithmetic::div_mod::lemma_div_multiples_vanish(c.b as int, n);
    assert(n * c.r == s.len() * c.r);
}

/// Number of sample columns (or rows) between `start` and `end`.
pub open spec fn sample_count(start: nat, end: nat) -> nat {
    if end <= start {
        0
    } else {
        stride_count((end - start) as nat, SAMPLE_STEP as nat)
    }
}

/// The mean of channel sums over `count` colours fits in a byte.
pub proof fn lemma_mean_fits(sum: nat, count: nat)
    requires
        count > 0,
        sum <= 255 * count,
    ensures
        sum / count <= 255,
{
    vstd::arithmetic::div_mod::lemma_div_is_ordered(sum as int, 255 * count as int, count as int);
    vstd::arithmetic::div_mod::lemma_div_multiples_vanish(255, count as int);
    assert(255 * count == count * 255) by (nonlinear_arith);
}

/// A position below `stride_count(bound, step)` steps is below `bound`, and
/// a step below `bound` is one of them.
pub proof fn lemma_stride_within(j: int, step: int, bound: int)
    requires
        step > 0,
        j >= 0,
        j * step < bound,
    ensures
        j < stride_count(bound as nat, step as nat),
{
    let c = bound + step - 1;
    vstd::arithmetic::div_mod::lemma_fundamental_div_mod(c, step);
    let q = c / step;
    let r = c % step;
    assert(j < q) by (nonlinear_arith)
        requires
            c == step * q + r,
            0 <= r < step,
            j * step < bound,
            c == bound + step - 1,
            step > 0,
    ;
}

/// Something that yields an optional colour for each pixel position.
pub trait RegionSampler {
    /// The sample at `(x, y)`, if any.
    spec fn spec_sample(&self, data: Seq<u8>, width: nat) -> spec_fn(nat, nat) -> Option<Color>;

    /// Whether the sample at `(x, y)` can be computed without overflow.
    spec fn sample_fits(&self, x: nat, y: nat, width: nat) -> bool;

    /// The sample at `(x, y)`, if any.
    fn sample(&self, data: &[u8], x: u32, y: u32, width: u32) -> (r: Option<Color>)
        requires
            self.sample_fits(x as nat, y as nat, width as nat),
        ensures
            r == (self.spec_sample(data@, width as nat))(x as nat, y as nat),
    ;
}

/// Whether every sampled point of a region can be computed.
pub open spec fn region_fits<S: RegionSampler>(
    sampler: &S,
    width: nat,
    x0: nat,
    nx: nat,
    y0: nat,
    ny: nat,
) -> bool {
    forall|i: nat, j: nat|
        i < nx && j < ny ==> #[trigger] sampler.sample_fits((x0 + SAMPLE_STEP * i) as nat, (y0 + SAMPLE_STEP * j) as nat, width)
}

/// The average of the samples of the region `x_start..x_end` x
/// `y_start..y_end`, visiting every fourth column of every fourth row.
pub open spec fn region_average<S: RegionSampler>(
    sampler: &S,
    data: Seq<u8>,
    width: nat,
    x_start: nat,
    y_start: nat,
    x_end: nat,
    y_end: nat,
) -> Color {
    average_color(
        region_samples(
            sampler.spec_sample(data, width),
            x_start,
            sample_count(x_start, x_end),
            y_start,
            sample_count(y_start, y_end),
        ),
    )
}

/// Averages the samples of a region, visiting every fourth column of every
/// fourth row; black when nothing was sampled.
pub fn average_region<S: RegionSampler>(
    sampler: &S,
    data: &[u8],
    width: u32,
    x_start: u32,
    y_start: u32,
    x_end: u32,
    y_end: u32,
) -> (c: Color)
    requires
        region_fits(
            sampler,
            width as nat,
            x_start as nat,
            sample_count(x_start as nat, x_end as nat),
            y_start as nat,
            sample_count(y_start as nat, y_end as nat),
        ),
        sample_count(y_start as nat, y_end as nat) * sample_count(x_start as nat, x_end as nat) * 255
            <= u64::MAX,
    ensures
        c == region_average(sampler, data@, width as nat, x_start as nat, y_start as nat, x_end as nat, y_end as nat),
{
    let ghost f = sampler.spec_sample(data@, width as nat);
    let ghost nx = sample_count(x_start as nat, x_end as nat);
    let ghost ny = sample_count(y_start as nat, y_end as nat);
    proof {
        assert(nx <= 0x4000_0000 && ny <= 0x4000_0000) by {
            if x_end > x_start {
                assert(((x_end - x_start + 3) as nat / 4) as nat <= 0x4000_0000);
            }
            if y_end > y_start {
                assert(((y_end - y_start + 3) as nat / 4) as nat <= 0x4000_0000);
            }
        }
    }
    let mut r_sum: u64 = 0;
    let mut g_sum: u64 = 0;
    let mut b_sum: u64 = 0;
    let mut count: u64 = 0;
    let ghost mut visited: Seq<Color> = Seq::empty();

    let mut y: u64 = y_start as u64;
    let ghost mut j: nat = 0;
    while y < y_end as u64
        invariant
            region_fits(sampler, width as nat, x_start as nat, nx, y_start as nat, ny),
            f == sampler.spec_sample(data@, width as nat),
            nx == sample_count(x_start as nat, x_end as nat),
            ny == sample_count(y_start as nat, y_end as nat),
            nx <= 0x4000_0000,
            ny <= 0x4000_0000,
            ny * nx * 255 <= u64::MAX,
            y == y_start + SAMPLE_STEP * j,
            j == 0 || y_start + SAMPLE_STEP * (j - 1) < y_end,
            visited == region_samples(f, x_start as nat, nx, y_start as nat, j),
            visited.len() <= j * nx,
            r_sum == red_sum(visited),
            g_sum == green_sum(visited),
            b_sum == blue_sum(visited),
            count == visited.len(),
        decreases y_end + SAMPLE_STEP - y,
    {
        proof {
            lemma_stride_within(j as int, 4, (y_end - y_start) as int);
            assert(j < ny);
        }
        let mut x: u64 = x_start as u64;
        let ghost mut i: nat = 0;
        while x < x_end as u64
            invariant
                region_fits(sampler, width as nat, x_start as nat, nx, y_start as nat, ny),
                f == sampler.spec_sample(data@, width as nat),
                nx == sample_count(x_start as nat, x_end as nat),
                nx <= 0x4000_0000,
                ny <= 0x4000_0000,
                ny * nx * 255 <= u64::MAX,
                j < ny,
                y == y_start + SAMPLE_STEP * j,
                y < y_end,
                x == x_start + SAMPLE_STEP * i,
                i == 0 || x_start + SAMPLE_STEP * (i - 1) < x_end,
                visited == region_samples(f, x_start as nat, nx, y_start as nat, j) + row_samples(
                    f,
                    x_start as nat,
                    i,
                    y as nat,
                ),
                visited.len() <= j * nx + i,
                r_sum == red_sum(visited),
                g_sum == green_sum(visited),
                b_sum == blue_sum(visited),
                count == visited.len(),
            decreases x_end + SAMPLE_STEP - x,
        {
            proof {
                lemma_stride_within(i as int, 4, (x_end - x_start) as int);
                assert(i < nx);
                assert(sampler.sample_fits((x_start + SAMPLE_STEP * i) as nat, (y_start + SAMPLE_STEP * j) as nat, width as nat));
                assert(j * nx + i < ny * nx) by (nonlinear_arith)
                    requires
                        i < nx,
                        j < ny,
                ;
                assert(255 * (j * nx + i + 1) <= ny * nx * 255) by (nonlinear_arith)
                    requires
                        j * nx + i < ny * nx,
                ;
                lemma_channel_sums_bounded(visited);
            }
            let s = sampler.sample(data, x as u32, y as u32, width);
            match s {
                Some(c) => {
                    r_sum = r_sum + c.r as u64;
                    g_sum = g_sum + c.g as u64;
                    b_sum = b_sum + c.b as u64;
                    count = count + 1;
                    proof {
                        let old_visited = visited;
                        visited = visited.push(c);
                        assert(visited.drop_last() =~= old_visited);
                    }
                },
                None => {},
            }
            proof {
                let prefix = region_samples(f, x_start as nat, nx, y_start as nat, j);
                assert(visited =~= prefix + row_samples(f, x_start as nat, i + 1, y as nat));
            }
            x = x + SAMPLE_STEP as u64;
            proof {
                i = i + 1;
            }
        }
        proof {
            if x_end > x_start {
                lemma_stride_exit((x - x_start) as int, i as int, 4, (x_end - x_start) as int);
            } else {
                assert(i == 0);
            }
            assert(i == nx);
            assert(visited =~= region_samples(f, x_start as nat, nx, y_start as nat, j + 1));
            assert(j * nx + nx == (j + 1) * nx) by (nonlinear_arith);
        }
        y = y + SAMPLE_STEP as u64;
        proof {
            j = j + 1;
        }
    }
    proof {
        if y_end > y_start {
            lemma_stride_exit((y - y_start) as int, j as int, 4, (y_end - y_start) as int);
        } else {
            assert(j == 0);
        }
        assert(j == ny);
    }
    if count == 0 {
        return Color::black();
    }
    proof {
        lemma_channel_sums_bounded(visited);
        lemma_mean_fits(red_sum(visited), visited.len());
        lemma_mean_fits(green_sum(visited), visited.len());
        lemma_mean_fits(blue_sum(visited), visited.len());
    }
    Color::new((r_sum / count) as u8, (g_sum / count) as u8, (b_sum / count) as u8)
}

} // verus!
