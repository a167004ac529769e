//! Skipping frames that did not change since the last processed one.

use crate::capture::Frame;
use crate::processor::frames::view_frame::{luma_at, luma_index_fits, spec_luma_at};
use vstd::prelude::*;

verus! {

/// Grid resolution of the luma signature (GRID x GRID sample points).
pub const GRID: u32 = 16;

/// Row of grid row `gy`: the centre of its cell.
pub open spec fn grid_y(gy: nat, height: nat) -> nat {
    (gy * height + height / 2) / GRID as nat
}

/// Column of grid column `gx`: the centre of its cell.
pub open spec fn grid_x(gx: nat, width: nat) -> nat {
    (gx * width + width / 2) / GRID as nat
}

/// The sparse luma signature of a frame: the luma at the centre of each cell
/// of a GRID x GRID grid, row by row.
pub open spec fn spec_luma_signature(frame: Frame) -> Seq<u8> {
    Seq::new(
        (GRID * GRID) as nat,
        |i: int|
            spec_luma_at(
                frame,
                grid_x((i % GRID as int) as nat, frame.width as nat),
                grid_y((i / GRID as int) as nat, frame.height as nat),
            ),
    )
}

/// Whether the signature of a frame can be computed without overflow.
pub open spec fn signature_fits(frame: Frame) -> bool {
    &&& 15 * frame.width + frame.width / 2 <= u32::MAX
    &&& 15 * frame.height + frame.height / 2 <= u32::MAX
    &&& forall|gx: nat, gy: nat|
        gx < GRID && gy < GRID ==> #[trigger] luma_index_fits(
            frame,
            grid_x(gx, frame.width as nat),
            grid_y(gy, frame.height as nat),
        )
}

/// Sum of the absolute differences of the first `n` elements of two sequences.
pub open spec fn sum_abs_diff(a: Seq<u8>, b: Seq<u8>, n: nat) -> nat
    decreases n,
{
    if n == 0 {
        0
    } else {
        let i = n - 1;
        let d: int = a[i] - b[i];
        sum_abs_diff(a, b, (n - 1) as nat) + if d < 0 {
            (-d) as nat
        } else {
            d as nat
        }
    }
}

/// Detects whether a frame differs from the last *processed* frame, so the
/// pipeline can skip identical content (paused video, static desktop).
///
/// Compares a sparse luma signature against the signature of the last frame
/// that was processed, never against the last skipped one, so a slow fade
/// accumulates delta until it crosses the threshold. A skip cap forces
/// periodic reprocessing as a backstop.
///
/// The threshold is the sum of luma deltas over the whole grid above which a
/// frame counts as changed: a mean delta threshold `t` on the 0-255 scale is
/// the sum threshold `floor(t * GRID * GRID)`.
#[derive(Debug)]
pub struct ChangeDetector {
    delta_threshold: i64,
    max_skipped_frames: u32,
    signature: Vec<u8>,
    scratch: Vec<u8>,
    skipped: u32,
}

impl ChangeDetector {
    /// Signature of the last processed frame (empty before the first).
    pub closed spec fn signature(&self) -> Seq<u8> {
        self.signature@
    }

    /// Number of consecutive frames skipped since the last processed one.
    pub closed spec fn skipped(&self) -> nat {
        self.skipped as nat
    }

    /// Consecutive skips after which a frame is processed regardless.
    pub closed spec fn max_skipped(&self) -> nat {
        self.max_skipped_frames as nat
    }

    /// Sum of luma deltas above which a frame counts as changed.
    pub closed spec fn threshold(&self) -> int {
        self.delta_threshold as int
    }

    /// The detector's invariant: never more skips in a row than the cap, and
    /// a signature that is either absent or complete.
    pub closed spec fn wf(&self) -> bool {
        &&& self.skipped <= self.max_skipped_frames
        &&& (self.signature@.len() == 0 || self.signature@.len() == GRID * GRID)
    }

    /// Whether a frame counts as changed against the current state.
    pub open spec fn spec_changes(&self, frame: Frame) -> bool {
        let sig = spec_luma_signature(frame);
        ||| self.signature().len() != sig.len()
        ||| self.skipped() >= self.max_skipped()
        ||| sum_abs_diff(self.signature(), sig, sig.len()) > self.threshold()
    }

    /// A detector with the given grid-sum delta threshold and skip cap, before
    /// any frame.
    pub fn new(delta_threshold: i64, max_skipped_frames: u32) -> (d: ChangeDetector)
        ensures
            d.wf(),
            d.signature().len() == 0,
            d.skipped() == 0,
            d.max_skipped() == max_skipped_frames,
            d.threshold() == delta_threshold,
    {
        ChangeDetector {
            delta_threshold,
            max_skipped_frames,
            signature: Vec::new(),
            scratch: Vec::new(),
            skipped: 0,
        }
    }

    /// Returns true if the frame should be processed. Call exactly once per
    /// frame.
    ///
    /// A frame is processed when there is no signature yet, when the skip cap
    /// is reached, or when its signature differs from the last processed one
    /// by more than the threshold; only then does its signature become the
    /// reference.
    pub fn has_changed(&mut self, frame: &Frame) -> (changed: bool)
        requires
            old(self).wf(),
            signature_fits(*frame),
        ensures
            final(self).wf(),
            changed == old(self).spec_changes(*frame),
            changed ==> final(self).signature() == spec_luma_signature(*frame) && final(self).skipped()
                == 0,
            !changed ==> final(self).signature() == old(self).signature() && final(self).skipped()
                == old(self).skipped() + 1,
            final(self).max_skipped() == old(self).max_skipped(),
            final(self).threshold() == old(self).threshold(),
            detector_step(*old(self), *frame, changed, *final(self)),
    {
        self.scratch.clear();
        let mut gy: u32 = 0;
        while gy < GRID
            invariant
                gy <= GRID,
                signature_fits(*frame),
                self.signature@ == old(self).signature@,
                self.skipped == old(self).skipped,
                self.max_skipped_frames == old(self).max_skipped_frames,
                self.delta_threshold == old(self).delta_threshold,
                self.scratch@.len() == gy * GRID,
                forall|i: int|
                    0 <= i < gy * GRID ==> #[trigger] self.scratch@[i] == spec_luma_signature(*frame)[i],
            decreases GRID - gy,
        {
            proof {
                assert(gy * frame.height <= 15 * frame.height) by (nonlinear_arith)
                    requires
                        gy < 16,
                ;
            }
            let y = (gy * frame.height + frame.height / 2) / GRID;
            let mut gx: u32 = 0;
            while gx < GRID
                invariant
                    gx <= GRID,
                    gy < GRID,
                    y == grid_y(gy as nat, frame.height as nat),
                    signature_fits(*frame),
                    self.signature@ == old(self).signature@,
                    self.skipped == old(self).skipped,
                    self.max_skipped_frames == old(self).max_skipped_frames,
                    self.delta_threshold == old(self).delta_threshold,
                    self.scratch@.len() == gy * GRID + gx,
                    forall|i: int|
                        0 <= i < gy * GRID + gx ==> #[trigger] self.scratch@[i] == spec_luma_signature(
                            *frame,
                        )[i],
                decreases GRID - gx,
            {
                proof {
                    assert(gx * frame.width <= 15 * frame.width) by (nonlinear_arith)
                        requires
                            gx < 16,
                    ;
                }
                let x = (gx * frame.width + frame.width / 2) / GRID;
                proof {
                    assert(luma_index_fits(
                        *frame,
                        grid_x(gx as nat, frame.width as nat),
                        grid_y(gy as nat, frame.height as nat),
                    ));
                }
                let l = luma_at(frame, x, y);
                proof {
                    let i = gy * GRID + gx;
                    assert(i % GRID as int == gx && i / GRID as int == gy) by (nonlinear_arith)
                        requires
                            i == gy * 16 + gx,
                            gx < 16,
                    ;
                }
                self.scratch.push(l);
                gx = gx + 1;
            }
            gy = gy + 1;
        }
        proof {
            assert(self.scratch@ =~= spec_luma_signature(*frame));
        }

        let changed = if self.signature.len() != self.scratch.len() {
            true
        } else if self.skipped >= self.max_skipped_frames {
            true
        } else {
            let total = total_abs_diff(self.signature.as_slice(), self.scratch.as_slice());
            total as i64 > self.delta_threshold
        };

        if changed {
            std::mem::swap(&mut self.signature, &mut self.scratch);
            self.skipped = 0;
        } else {
            self.skipped = self.skipped + 1;
        }
        changed
    }
}

/// Sum of the absolute differences of two luma signatures of equal length.
fn total_abs_diff(a: &[u8], b: &[u8]) -> (r: u32)
    requires
        a@.len() == b@.len(),
        a@.len() <= GRID * GRID,
    ensures
        r == sum_abs_diff(a@, b@, a@.len()),
{
    let mut total: u32 = 0;
    let mut i: usize = 0;
    while i < a.len()
        invariant
            i <= a@.len(),
            a@.len() == b@.len(),
            a@.len() <= GRID * GRID,
            total == sum_abs_diff(a@, b@, i as nat),
            total <= 255 * i,
        decreases a@.len() - i,
    {
        let x = a[i];
        let y = b[i];
        let d: u32 = if x >= y {
            (x - y) as u32
        } else {
            (y - x) as u32
        };
        total = total + d;
        i = i + 1;
    }
    total
}

/// A sequence differs from itself by nothing.
pub proof fn lemma_sum_abs_diff_self(a: Seq<u8>, n: nat)
    ensures
        sum_abs_diff(a, a, n) == 0,
    decreases n,
{
    if n > 0 {
        lemma_sum_abs_diff_self(a, (n - 1) as nat);
    }
}

/// The change measure does not depend on which signature comes first.
pub proof fn lemma_sum_abs_diff_symmetric(a: Seq<u8>, b: Seq<u8>, n: nat)
    ensures
        sum_abs_diff(a, b, n) == sum_abs_diff(b, a, n),
    decreases n,
{
    if n > 0 {
        lemma_sum_abs_diff_symmetric(a, b, (n - 1) as nat);
    }
}

/// The change measure is at least the difference of any one cell, whichever
/// way that cell changed.
pub proof fn lemma_sum_abs_diff_covers_cell(a: Seq<u8>, b: Seq<u8>, n: nat, i: int)
    requires
        0 <= i < n,
    ensures
        sum_abs_diff(a, b, n) >= a[i] - b[i],
        sum_abs_diff(a, b, n) >= b[i] - a[i],
    decreases n,
{
    if i < n - 1 {
        lemma_sum_abs_diff_covers_cell(a, b, (n - 1) as nat, i);
    }
}

/// A frame whose signature differs from the reference in one cell, brighter
/// or darker, by more than the threshold is processed.
pub proof fn lemma_large_cell_change_processed(d: ChangeDetector, frame: Frame, i: int)
    requires
        d.signature().len() == GRID * GRID,
        0 <= i < GRID * GRID,
        d.signature()[i] - spec_luma_signature(frame)[i] > d.threshold()
            || spec_luma_signature(frame)[i] - d.signature()[i] > d.threshold(),
    ensures
        d.spec_changes(frame),
{
    let sig = spec_luma_signature(frame);
    lemma_sum_abs_diff_covers_cell(d.signature(), sig, sig.len(), i);
}

/// The first frame a detector sees is always processed.
pub proof fn lemma_first_frame_processed(d: ChangeDetector, frame: Frame)
    requires
        d.signature().len() == 0,
    ensures
        d.spec_changes(frame),
{
    assert(spec_luma_signature(frame).len() == GRID * GRID);
}

/// Once a frame was processed, the same content is skipped while the skip
/// cap is not reached (for any non-negative threshold).
pub proof fn lemma_unchanged_frame_skipped(d: ChangeDetector, frame: Frame)
    requires
        d.signature() == spec_luma_signature(frame),
        d.skipped() < d.max_skipped(),
        d.threshold() >= 0,
    ensures
        !d.spec_changes(frame),
{
    lemma_sum_abs_diff_self(spec_luma_signature(frame), spec_luma_signature(frame).len());
}

/// Reaching the skip cap forces the next frame to be processed, whatever it
/// holds.
pub proof fn lemma_skip_cap_forces_processing(d: ChangeDetector, frame: Frame)
    requires
        d.skipped() >= d.max_skipped(),
    ensures
        d.spec_changes(frame),
{
}

/// A well-formed detector never skips more frames in a row than its cap,
/// and holds either no signature or a complete one.
pub proof fn lemma_skips_bounded(d: ChangeDetector)
    requires
        d.wf(),
    ensures
        d.skipped() <= d.max_skipped(),
        d.signature().len() == 0 || d.signature().len() == GRID * GRID,
{
}

/// One call of [`ChangeDetector::has_changed`]: detector `d` sees `frame`,
/// answers `changed`, and becomes `next`.
pub open spec fn detector_step(d: ChangeDetector, frame: Frame, changed: bool, next: ChangeDetector) -> bool {
    &&& next.wf()
    &&& changed == d.spec_changes(frame)
    &&& changed ==> next.signature() == spec_luma_signature(frame) && next.skipped() == 0
    &&& !changed ==> next.signature() == d.signature() && next.skipped() == d.skipped() + 1
    &&& next.max_skipped() == d.max_skipped()
    &&& next.threshold() == d.threshold()
}

/// A run of calls: `states[i]` sees `frames[i]`, answers `results[i]` and
/// becomes `states[i + 1]`.
pub open spec fn detector_run(states: Seq<ChangeDetector>, frames: Seq<Frame>, results: Seq<bool>) -> bool {
    &&& states.len() == frames.len() + 1
    &&& results.len() == frames.len()
    &&& forall|i: int|
        0 <= i < frames.len() ==> #[trigger] detector_step(states[i], frames[i], results[i], states[i + 1])
}

/// Index of the last call before call `i` that processed its frame, or -1
/// when there was none.
pub open spec fn last_processed(results: Seq<bool>, i: int) -> int
    decreases i,
{
    if i <= 0 {
        -1
    } else if results[i - 1] {
        i - 1
    } else {
        last_processed(results, i - 1)
    }
}

/// The last processed call before `i` lies before it, and every call after
/// it and before `i` skipped.
proof fn lemma_last_processed_bounds(results: Seq<bool>, i: int)
    requires
        0 <= i <= results.len(),
    ensures
        -1 <= last_processed(results, i) < i,
        forall|k: int| last_processed(results, i) < k < i ==> !#[trigger] results[k],
        last_processed(results, i) >= 0 ==> results[last_processed(results, i)],
    decreases i,
{
    if i > 0 && !results[i - 1] {
        lemma_last_processed_bounds(results, i - 1);
    }
}

/// What a run of calls leaves in the detector before call `i`: the
/// signature of the last *processed* frame (never that of a skipped one) and
/// the number of calls skipped since, or, before any frame was processed,
/// the starting signature and the starting count plus the calls since.
pub open spec fn run_state_matches(
    states: Seq<ChangeDetector>,
    frames: Seq<Frame>,
    results: Seq<bool>,
    i: int,
) -> bool {
    let l = last_processed(results, i);
    &&& states[i].wf()
    &&& states[i].max_skipped() == states[0].max_skipped()
    &&& states[i].threshold() == states[0].threshold()
    &&& l >= 0 ==> states[i].signature() == spec_luma_signature(frames[l]) && states[i].skipped() == i - l - 1
    &&& l < 0 ==> states[i].signature() == states[0].signature() && states[i].skipped() == states[0].skipped() + i
}

/// Over any run of calls, each frame is compared against the signature of
/// the last processed frame: a slow fade accumulates against that frame
/// until it crosses the threshold.
pub proof fn lemma_run_compares_with_last_processed(
    states: Seq<ChangeDetector>,
    frames: Seq<Frame>,
    results: Seq<bool>,
)
    requires
        detector_run(states, frames, results),
        states[0].wf(),
    ensures
        forall|i: int| 0 <= i <= frames.len() ==> #[trigger] run_state_matches(states, frames, results, i),
        forall|i: int| 0 <= i < frames.len() ==> #[trigger] results[i] == states[i].spec_changes(frames[i]),
{
    assert forall|i: int| 0 <= i <= frames.len() implies #[trigger] run_state_matches(states, frames, results, i) by {
        lemma_run_prefix(states, frames, results, i);
    }
    assert forall|i: int| 0 <= i < frames.len() implies #[trigger] results[i] == states[i].spec_changes(frames[i]) by {
        assert(detector_step(states[i], frames[i], results[i], states[i + 1]));
    }
}

/// Induction step of [`lemma_run_compares_with_last_processed`].
proof fn lemma_run_prefix(states: Seq<ChangeDetector>, frames: Seq<Frame>, results: Seq<bool>, i: int)
    requires
        detector_run(states, frames, results),
        states[0].wf(),
        0 <= i <= frames.len(),
    ensures
        run_state_matches(states, frames, results, i),
    decreases i,
{
    if i > 0 {
        let j = i - 1;
        lemma_run_prefix(states, frames, results, j);
        assert(detector_step(states[j], frames[j], results[j], states[j + 1]));
    }
}

/// From a fresh detector, the first frame is processed and no more than
/// `max_skipped` calls in a row skip: the call after that many skips
/// processes its frame.
pub proof fn lemma_run_skips_bounded(states: Seq<ChangeDetector>, frames: Seq<Frame>, results: Seq<bool>)
    requires
        detector_run(states, frames, results),
        states[0].wf(),
        states[0].signature().len() == 0,
        states[0].skipped() == 0,
    ensures
        frames.len() > 0 ==> results[0],
        forall|i: int|
            0 <= i <= frames.len() ==> i - last_processed(results, i) - 1 <= states[0].max_skipped(),
        forall|i: int|
            0 <= i < frames.len() && i - last_processed(results, i) - 1 == states[0].max_skipped()
                ==> #[trigger] results[i],
{
    lemma_run_compares_with_last_processed(states, frames, results);
    if frames.len() > 0 {
        assert(run_state_matches(states, frames, results, 0));
        assert(results[0] == states[0].spec_changes(frames[0]));
        lemma_first_frame_processed(states[0], frames[0]);
    }
    assert forall|i: int| 0 <= i <= frames.len() implies i - last_processed(results, i) - 1
        <= states[0].max_skipped() by {
        assert(run_state_matches(states, frames, results, i));
        lemma_last_processed_bounds(results, i);
        lemma_skips_bounded(states[i]);
        if last_processed(results, i) < 0 && i > 0 {
            assert(states[i].signature() == states[0].signature());
        }
    }
    assert forall|i: int|
        0 <= i < frames.len() && i - last_processed(results, i) - 1 == states[0].max_skipped()
            implies #[trigger] results[i] by {
        assert(run_state_matches(states, frames, results, i));
        assert(results[i] == states[i].spec_changes(frames[i]));
        lemma_last_processed_bounds(results, i);
        if last_processed(results, i) < 0 {
            assert(states[i].skipped() == i);
        }
    }
}

} // verus!
