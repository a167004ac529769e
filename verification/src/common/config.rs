//! Sampling configuration.

use vstd::prelude::*;

verus! {

/// Sample density: samples per 1000 pixels of edge length.
///
/// `SampleDensity(50)` means 50 samples per 1000px, so a 1920px edge gets
/// about 96 samples.
#[derive(Debug, Clone, Copy, PartialEq, Eq, Structural)]
pub struct SampleDensity(pub usize);

impl SampleDensity {
    /// The raw density value (samples per 1000px).
    pub fn get(self) -> (r: usize)
        ensures
            r == self.0,
    {
        self.0
    }
}

} // verus!
