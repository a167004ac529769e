//! Raw frames as they come from a capture device.

pub mod layout;
pub mod yuyv;

use std::sync::Arc;
use vstd::prelude::*;
use vstd::string::StringExecFns;

verus! {

/// Pixel layout of a captured frame.
#[derive(Debug, Clone, Copy, PartialEq, Eq, Structural)]
pub enum PixelFormat {
    /// 3 bytes per pixel, R G B.
    RGB24,
    /// 3 bytes per pixel, B G R.
    BGR24,
    /// 2 bytes per pixel, 4:2:2 subsampled (Y0 U Y1 V per pixel pair).
    YUYV,
    /// Variable size; not decoded.
    MJPEG,
}

/// Bytes per pixel of a fixed-size format, `None` for variable-size ones.
pub open spec fn spec_bytes_per_pixel(format: PixelFormat) -> Option<nat> {
    match format {
        PixelFormat::RGB24 | PixelFormat::BGR24 => Some(3nat),
        PixelFormat::YUYV => Some(2nat),
        PixelFormat::MJPEG => None,
    }
}

/// Buffer size of a `width` x `height` frame in a fixed-size format.
pub open spec fn spec_expected_size(format: PixelFormat, width: nat, height: nat) -> Option<nat> {
    match spec_bytes_per_pixel(format) {
        Some(bpp) => Some(width * height * bpp),
        None => None,
    }
}

/// Whether the buffer size of a `width` x `height` frame fits in a `usize`.
pub open spec fn size_fits(format: PixelFormat, width: nat, height: nat) -> bool {
    match spec_expected_size(format, width, height) {
        Some(size) => size <= usize::MAX,
        None => true,
    }
}

impl PixelFormat {
    /// Bytes per pixel; `None` for variable-size formats like MJPEG.
    pub fn bytes_per_pixel(&self) -> (r: Option<usize>)
        ensures
            r matches Some(b) ==> spec_bytes_per_pixel(*self) == Some(b as nat),
            r is None <==> spec_bytes_per_pixel(*self) is None,
    {
        match self {
            PixelFormat::RGB24 | PixelFormat::BGR24 => Some(3),
            PixelFormat::YUYV => Some(2),
            PixelFormat::MJPEG => None,
        }
    }

    /// Expected buffer size for a frame of the given dimensions;
    /// `None` for variable-size formats like MJPEG.
    pub fn expected_size(&self, width: u32, height: u32) -> (r: Option<usize>)
        requires
            size_fits(*self, width as nat, height as nat),
        ensures
            r matches Some(s) ==> spec_expected_size(*self, width as nat, height as nat) == Some(s as nat),
            r is None <==> spec_expected_size(*self, width as nat, height as nat) is None,
    {
        match self.bytes_per_pixel() {
            Some(bpp) => {
                assert((width as usize) * (height as usize) <= usize::MAX) by (nonlinear_arith)
                    requires
                        width * height * bpp <= usize::MAX,
                        bpp >= 2,
                ;
                assert(width * height * bpp == (width * height) * bpp) by (nonlinear_arith);
                Some((width as usize) * (height as usize) * bpp)
            },
            None => None,
        }
    }

    /// Display name of the format.
    pub fn name(&self) -> (r: &'static str)
        ensures
            r@ == spec_format_name(*self),
    {
        match self {
            PixelFormat::RGB24 => "RGB24",
            PixelFormat::BGR24 => "BGR24",
            PixelFormat::YUYV => "YUYV",
            PixelFormat::MJPEG => "JPEG",
        }
    }

    /// The format's display name as an owned string.
    pub fn to_string(&self) -> (s: String)
        ensures
            s@ == spec_format_name(*self),
    {
        String::from_str(self.name())
    }
}

/// The display name of each format.
pub open spec fn spec_format_name(format: PixelFormat) -> Seq<char> {
    match format {
        PixelFormat::RGB24 => "RGB24"@,
        PixelFormat::BGR24 => "BGR24"@,
        PixelFormat::YUYV => "YUYV"@,
        PixelFormat::MJPEG => "JPEG"@,
    }
}

/// Byte `i` of a black frame: zero, except the chroma bytes of YUYV (every
/// odd byte), which are neutral (128).
pub open spec fn black_byte(format: PixelFormat, i: int) -> u8 {
    if format == PixelFormat::YUYV && i % 2 == 1 {
        128u8
    } else {
        0u8
    }
}

/// A captured frame: raw bytes in its capture format.
#[derive(Debug)]
pub struct Frame {
    pub data: Arc<Vec<u8>>,
    pub width: u32,
    pub height: u32,
    pub format: PixelFormat,
}

impl Frame {
    /// The frame's bytes.
    pub open spec fn bytes(&self) -> Seq<u8> {
        self.data@
    }

    /// A fixed-size format's buffer holds exactly `width * height * bpp` bytes.
    pub open spec fn size_matches(&self) -> bool {
        match spec_expected_size(self.format, self.width as nat, self.height as nat) {
            Some(size) => self.bytes().len() == size,
            None => true,
        }
    }

    /// Creates a frame from its data, dimensions and format.
    ///
    /// The data must hold exactly the expected size of a fixed-size format
    /// (variable-size formats like MJPEG take any size).
    pub fn new(data: Vec<u8>, width: u32, height: u32, format: PixelFormat) -> (r: Frame)
        requires
            size_fits(format, width as nat, height as nat),
            match spec_expected_size(format, width as nat, height as nat) {
                Some(size) => data@.len() == size,
                None => true,
            },
        ensures
            r.bytes() == data@,
            r.width == width,
            r.height == height,
            r.format == format,
            r.size_matches(),
    {
        Frame { data: Arc::new(data), width, height, format }
    }

    /// A black frame of a fixed-size format: all bytes zero for the RGB
    /// formats; for YUYV, zero luma with neutral chroma (`0, 128, 0, 128`
    /// per pixel pair), which decodes to black.
    pub fn black(width: u32, height: u32, format: PixelFormat) -> (r: Frame)
        requires
            format != PixelFormat::MJPEG,
            size_fits(format, width as nat, height as nat),
        ensures
            r.width == width,
            r.height == height,
            r.format == format,
            r.size_matches(),
            spec_expected_size(format, width as nat, height as nat) == Some(r.bytes().len()),
            forall|i: int| 0 <= i < r.bytes().len() ==> r.bytes()[i] == black_byte(format, i),
    {
        let expected_size = match format.expected_size(width, height) {
            Some(s) => s,
            None => 0,
        };
        let data = match format {
            PixelFormat::YUYV => {
                let mut v: Vec<u8> = Vec::with_capacity(expected_size);
                let mut i: usize = 0;
                while i < expected_size
                    invariant
                        i <= expected_size,
                        v@.len() == i,
                        forall|j: int| 0 <= j < i ==> v@[j] == black_byte(PixelFormat::YUYV, j),
                    decreases expected_size - i,
                {
                    if i % 2 == 1 {
                        v.push(128u8);
                    } else {
                        v.push(0u8);
                    }
                    i = i + 1;
                }
                v
            },
            _ => vec_filled(0u8, expected_size),
        };
        Frame::new(data, width, height, format)
    }

    /// The frame's bytes as a slice.
    pub fn as_slice(&self) -> (r: &[u8])
        ensures
            r@ == self.bytes(),
    {
        self.data.as_slice()
    }

    /// Number of bytes in the frame.
    pub fn len(&self) -> (r: usize)
        ensures
            r == self.bytes().len(),
    {
        self.data.len()
    }

    /// Whether the frame holds no bytes.
    pub fn is_empty(&self) -> (r: bool)
        ensures
            r <==> self.bytes().len() == 0,
    {
        self.data.len() == 0
    }
}

/// A vector of `len` copies of `value`.
pub fn vec_filled<T: Copy>(value: T, len: usize) -> (r: Vec<T>)
    ensures
        r@.len() == len,
        forall|i: int| 0 <= i < len ==> r@[i] == value,
{
    let mut v: Vec<T> = Vec::with_capacity(len);
    let mut i: usize = 0;
    while i < len
        invariant
            i <= len,
            v@.len() == i,
            forall|j: int| 0 <= j < i ==> v@[j] == value,
        decreases len - i,
    {
        v.push(value);
        i = i + 1;
    }
    v
}

impl Clone for Frame {
    /// Another handle on the same bytes, with the same dimensions and format.
    fn clone(&self) -> (r: Frame)
        ensures
            r == *self,
    {
        Frame { data: Arc::clone(&self.data), width: self.width, height: self.height, format: self.format }
    }
}

} // verus!
