//! Pipeline plumbing.

pub mod node;

pub use node::Node;
