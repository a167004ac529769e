//! Core value types shared by the pipeline stages.

pub mod color;
pub mod config;
pub mod frame;

use vstd::prelude::*;

verus! {

/// One of the four edges of the screen.
#[derive(Debug, Clone, Copy, PartialEq, Eq, Hash, Structural)]
pub enum Edge {
    /// Left to right.
    Top,
    /// Top to bottom.
    Right,
    /// Right to left.
    Bottom,
    /// Bottom to top.
    Left,
}

} // verus!
