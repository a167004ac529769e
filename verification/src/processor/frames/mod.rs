//! Frames as they move through the pipeline.

pub mod color_frame;
pub mod raw_frame;
pub mod view_frame;

pub use view_frame::{luma_at, ViewFrame, Viewport};
