//! Raw frame bytes plus their format.

use crate::capture::{Frame, PixelFormat};
use std::sync::Arc;
use vstd::prelude::*;
use vstd::std_specs::convert::FromSpecImpl;

verus! {

/// Raw frame from the capturer (bytes + format).
#[derive(Debug)]
pub struct RawFrame {
    pub data: Arc<Vec<u8>>,
    pub width: u32,
    pub height: u32,
    pub format: PixelFormat,
}

impl From<Frame> for RawFrame {
    fn from(frame: Frame) -> (r: RawFrame) {
        RawFrame { data: frame.data, width: frame.width, height: frame.height, format: frame.format }
    }
}

impl FromSpecImpl<Frame> for RawFrame {
    open spec fn obeys_from_spec() -> bool {
        true
    }

    open spec fn from_spec(frame: Frame) -> RawFrame {
        RawFrame { data: frame.data, width: frame.width, height: frame.height, format: frame.format }
    }
}

impl Clone for RawFrame {
    /// Another handle on the same bytes, with the same dimensions and format.
    fn clone(&self) -> (r: RawFrame)
        ensures
            r == *self,
    {
        RawFrame { data: Arc::clone(&self.data), width: self.width, height: self.height, format: self.format }
    }
}

} // verus!
