//! The processor's per-frame decision: answer black for a format it does not
//! decode, re-emit the previous output for unchanged content, or process.

use crate::capture::{Frame, PixelFormat};
use crate::processor::nodes::change_detector::{detector_step, signature_fits, ChangeDetector};
use vstd::prelude::*;

verus! {

/// What the processor does with a frame.
#[derive(Debug, Clone, Copy, PartialEq, Eq, Structural)]
pub enum FrameDecision {
    /// The format is not decoded: the output is black spectra.
    Unsupported,
    /// The content did not change: the previous output is re-emitted.
    Reuse,
    /// The frame goes through the pipeline.
    Process,
}

/// Whether the pipeline decodes a format (YUYV and RGB24).
pub open spec fn format_supported(format: PixelFormat) -> bool {
    format == PixelFormat::YUYV || format == PixelFormat::RGB24
}

/// Whether the change detector is consulted for a frame: only for a decoded
/// format, with change detection on and a previous output to re-emit.
pub open spec fn detector_consulted(detector: Option<ChangeDetector>, has_last: bool, frame: Frame) -> bool {
    format_supported(frame.format) && detector is Some && has_last
}

/// Decides what the processor does with `frame`. The change detector sees
/// the frame only when it is consulted; otherwise it is left as it was.
pub fn decide_frame(detector: &mut Option<ChangeDetector>, has_last: bool, frame: &Frame) -> (d: FrameDecision)
    requires
        (*old(detector)) matches Some(cd) ==> cd.wf(),
        detector_consulted(*old(detector), has_last, *frame) ==> signature_fits(*frame),
    ensures
        !format_supported(frame.format) ==> d == FrameDecision::Unsupported,
        !detector_consulted(*old(detector), has_last, *frame) ==> *final(detector) == *old(detector),
        format_supported(frame.format) && !detector_consulted(*old(detector), has_last, *frame) ==> d
            == FrameDecision::Process,
        detector_consulted(*old(detector), has_last, *frame) ==> {
            &&& (*final(detector)) is Some
            &&& d != FrameDecision::Unsupported
            &&& detector_step(
                (*old(detector)).unwrap(),
                *frame,
                d == FrameDecision::Process,
                (*final(detector)).unwrap(),
            )
        },
{
    let supported = match frame.format {
        PixelFormat::YUYV | PixelFormat::RGB24 => true,
        PixelFormat::BGR24 | PixelFormat::MJPEG => false,
    };
    if !supported {
        return FrameDecision::Unsupported;
    }
    if !has_last {
        return FrameDecision::Process;
    }
    match detector.take() {
        Some(mut cd) => {
            let changed = cd.has_changed(frame);
            *detector = Some(cd);
            if changed {
                FrameDecision::Process
            } else {
                FrameDecision::Reuse
            }
        },
        None => FrameDecision::Process,
    }
}

} // verus!
