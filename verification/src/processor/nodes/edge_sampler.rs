//! Integer geometry of edge sampling: how deep the edge regions reach and
//! which rectangle of the viewport each edge segment covers.

use crate::common::Edge;
use vstd::prelude::*;

verus! {

/// `max(a, 1)`.
pub open spec fn at_least_one(a: nat) -> nat {
    if a > 1 {
        a
    } else {
        1
    }
}

/// A raw edge depth clamped into `1..=max(height / 2, 1)` and then capped
/// at `max(width / 2, 1)`.
pub open spec fn spec_clamp_depth(raw: nat, width: nat, height: nat) -> nat {
    let hi = at_least_one(height / 2);
    let d = if raw < 1 {
        1
    } else if raw > hi {
        hi
    } else {
        raw
    };
    if d < at_least_one(width / 2) {
        d
    } else {
        at_least_one(width / 2)
    }
}

/// Edge region depth in pixels for a `width` x `height` viewport, from the
/// requested depth: derived from the height so the band has the same
/// thickness on all four edges, and clamped so that opposing regions never
/// overlap.
pub fn clamp_depth(raw: u32, width: u32, height: u32) -> (d: u32)
    ensures
        d == spec_clamp_depth(raw as nat, width as nat, height as nat),
{
    let hi = if height / 2 > 1 {
        height / 2
    } else {
        1
    };
    let d = if raw < 1 {
        1
    } else if raw > hi {
        hi
    } else {
        raw
    };
    let wi = if width / 2 > 1 {
        width / 2
    } else {
        1
    };
    if d < wi {
        d
    } else {
        wi
    }
}

/// The rectangle `(x_start, y_start, x_end, y_end)` of one segment of an
/// edge, viewport-relative: the segment runs along the edge and the region
/// reaches `depth` pixels inward.
pub open spec fn spec_edge_region(
    edge: Edge,
    segment_start: nat,
    segment_end: nat,
    depth: nat,
    width: nat,
    height: nat,
) -> (int, int, int, int) {
    match edge {
        Edge::Top => (segment_start as int, 0, segment_end as int, depth as int),
        Edge::Bottom => (segment_start as int, height - depth, segment_end as int, height as int),
        Edge::Left => (0, segment_start as int, depth as int, segment_end as int),
        Edge::Right => (width - depth, segment_start as int, width as int, segment_end as int),
    }
}

/// The region of one edge segment (see [`spec_edge_region`]); the depth
/// must not exceed the dimension it is taken from.
pub fn edge_region(
    edge: Edge,
    segment_start: u32,
    segment_end: u32,
    depth: u32,
    width: u32,
    height: u32,
) -> (r: (u32, u32, u32, u32))
    requires
        edge == Edge::Bottom ==> depth <= height,
        edge == Edge::Right ==> depth <= width,
    ensures
        (r.0 as int, r.1 as int, r.2 as int, r.3 as int) == spec_edge_region(
            edge,
            segment_start as nat,
            segment_end as nat,
            depth as nat,
            width as nat,
            height as nat,
        ),
{
    match edge {
        Edge::Top => (segment_start, 0, segment_end, depth),
        Edge::Bottom => (segment_start, height - depth, segment_end, height),
        Edge::Left => (0, segment_start, depth, segment_end),
        Edge::Right => (width - depth, segment_start, width, segment_end),
    }
}

/// The clamped depth is at least one pixel, and on a viewport at least two
/// pixels in each direction, the regions of opposing edges never overlap.
pub proof fn lemma_depth_keeps_edges_apart(raw: nat, width: nat, height: nat)
    ensures
        spec_clamp_depth(raw, width, height) >= 1,
        height >= 2 ==> 2 * spec_clamp_depth(raw, width, height) <= height,
        width >= 2 ==> 2 * spec_clamp_depth(raw, width, height) <= width,
{
}

/// Within a viewport at least two pixels in each direction, the clamped
/// depth is a valid depth for every edge region.
pub proof fn lemma_depth_fits_regions(raw: nat, width: nat, height: nat)
    requires
        width >= 2,
        height >= 2,
    ensures
        spec_clamp_depth(raw, width, height) <= height,
        spec_clamp_depth(raw, width, height) <= width,
{
}

} // verus!
