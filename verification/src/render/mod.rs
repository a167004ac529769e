//! Colour spectra handed to renderers: one gradient of colours per edge.

use std::sync::Arc;
use vstd::prelude::*;

verus! {

/// One of the four edges of the screen.
#[derive(Debug, Clone, Copy, PartialEq, Eq, Hash, Structural)]
pub enum Edge {
    /// Left to right.
    Top,
    /// Top to bottom.
    Right,
    /// Right to left.
    Bottom,
    /// Bottom to top.
    Left,
}

/// An 8-bit RGB colour.
#[derive(Debug, Clone, Copy, PartialEq, Eq, Structural)]
pub struct Color {
    pub r: u8,
    pub g: u8,
    pub b: u8,
}

/// The black colour.
pub open spec fn spec_black() -> Color {
    Color { r: 0, g: 0, b: 0 }
}

impl Color {
    /// A colour from its three channels.
    pub fn new(r: u8, g: u8, b: u8) -> (c: Color)
        ensures
            c == (Color { r, g, b }),
    {
        Color { r, g, b }
    }

    /// Black, `rgb(0, 0, 0)`.
    pub fn black() -> (c: Color)
        ensures
            c == spec_black(),
    {
        Color { r: 0, g: 0, b: 0 }
    }
}

/// A gradient of colours along an edge: at least one sample, shared
/// cheaply between clones.
#[derive(Debug, PartialEq, Eq)]
pub struct ColorSpectrum {
    samples: Arc<Vec<Color>>,
}

impl View for ColorSpectrum {
    type V = Seq<Color>;

    closed spec fn view(&self) -> Seq<Color> {
        self.samples@
    }
}

impl Clone for ColorSpectrum {
    /// Another handle on the same samples.
    fn clone(&self) -> (s: ColorSpectrum)
        ensures
            s == *self,
    {
        proof {
            use_type_invariant(self);
        }
        ColorSpectrum { samples: Arc::clone(&self.samples) }
    }
}

impl ColorSpectrum {
    /// A spectrum always holds at least one sample.
    #[verifier::type_invariant]
    closed spec fn has_samples(self) -> bool {
        self.samples@.len() > 0
    }

    /// A spectrum from its samples, which must not be empty.
    pub fn new(samples: Vec<Color>) -> (s: ColorSpectrum)
        requires
            samples@.len() > 0,
        ensures
            s@ == samples@,
    {
        ColorSpectrum { samples: Arc::new(samples) }
    }

    /// A spectrum of `count` black samples; `count` must be positive.
    pub fn black(count: usize) -> (s: ColorSpectrum)
        requires
            count > 0,
        ensures
            s@ == Seq::new(count as nat, |i: int| spec_black()),
    {
        let mut samples: Vec<Color> = Vec::with_capacity(count);
        let mut i: usize = 0;
        while i < count
            invariant
                i <= count,
                samples@ == Seq::new(i as nat, |j: int| spec_black()),
            decreases count - i,
        {
            samples.push(Color::black());
            i = i + 1;
            proof {
                assert(samples@ =~= Seq::new(i as nat, |j: int| spec_black()));
            }
        }
        ColorSpectrum::new(samples)
    }

    /// Number of samples in the spectrum, never zero.
    pub fn len(&self) -> (n: usize)
        ensures
            n == self@.len(),
            n > 0,
    {
        proof {
            use_type_invariant(self);
        }
        self.samples.len()
    }

    /// Whether the spectrum has no samples: never, by construction.
    pub fn is_empty(&self) -> (b: bool)
        ensures
            b <==> self@.len() == 0,
            !b,
    {
        proof {
            use_type_invariant(self);
        }
        self.samples.len() == 0
    }

    /// The samples as a slice.
    pub fn samples(&self) -> (s: &[Color])
        ensures
            s@ == self@,
    {
        self.samples.as_slice()
    }
}

/// The colour spectra of all four edges.
#[derive(Debug, PartialEq, Eq)]
pub struct EdgeSpectrums {
    pub top: ColorSpectrum,
    pub right: ColorSpectrum,
    pub bottom: ColorSpectrum,
    pub left: ColorSpectrum,
}

impl EdgeSpectrums {
    /// The four edges' spectra together.
    pub fn new(top: ColorSpectrum, right: ColorSpectrum, bottom: ColorSpectrum, left: ColorSpectrum) -> (e: EdgeSpectrums)
        ensures
            e.top == top,
            e.right == right,
            e.bottom == bottom,
            e.left == left,
    {
        EdgeSpectrums { top, right, bottom, left }
    }
}

impl Clone for EdgeSpectrums {
    /// The same four spectra.
    fn clone(&self) -> (r: EdgeSpectrums)
        ensures
            r == *self,
    {
        EdgeSpectrums {
            top: self.top.clone(),
            right: self.right.clone(),
            bottom: self.bottom.clone(),
            left: self.left.clone(),
        }
    }
}

} // verus!
