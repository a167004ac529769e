//! A borrowed view of raw frame bytes.

use vstd::prelude::*;

verus! {

/// Raw frame bytes with their dimensions, borrowed from the capturer.
#[derive(Debug)]
pub struct Frame<'a> {
    pub buffer: &'a [u8],
    pub width: u32,
    pub height: u32,
}

impl<'a> Clone for Frame<'a> {
    /// The same borrowed bytes and dimensions.
    fn clone(&self) -> (r: Frame<'a>)
        ensures
            r == *self,
    {
        Frame { buffer: self.buffer, width: self.width, height: self.height }
    }
}

} // verus!
