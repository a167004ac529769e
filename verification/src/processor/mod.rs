//! The frame-processing pipeline: frames, pixel readers, nodes and
//! algorithms.

pub mod frames;
pub mod nodes;
pub mod sampling;
pub mod algorithms;
pub mod pixel_reader;
pub mod pixel_readers;
pub mod color;
pub mod pipeline;
pub mod gate;
