//! Pipeline nodes.

pub mod band_detector;
pub mod change_detector;
pub mod edge_sampler;
pub mod pixel_decoder;
pub mod rank;
