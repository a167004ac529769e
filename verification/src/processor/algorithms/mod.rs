//! Frame-processing algorithms.

pub mod edge_sampling;

pub use edge_sampling::EdgeSamplingAlgorithm;
