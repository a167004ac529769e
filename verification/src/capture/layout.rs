//! Turning capture-device buffers into frame data: the device's format
//! code, and rows padded to the device's stride.

use super::PixelFormat;
use vstd::prelude::*;

verus! {

/// The pixel format a four-character device code names: `YUYV`, `RGB3`
/// (RGB24) and `BGR3` (BGR24); `None` for any other code.
pub open spec fn spec_format_from_fourcc(code: Seq<u8>) -> Option<PixelFormat> {
    if code =~= seq![89u8, 85u8, 89u8, 86u8] {
        Some(PixelFormat::YUYV)
    } else if code =~= seq![82u8, 71u8, 66u8, 51u8] {
        Some(PixelFormat::RGB24)
    } else if code =~= seq![66u8, 71u8, 82u8, 51u8] {
        Some(PixelFormat::BGR24)
    } else {
        None
    }
}

/// The pixel format of a device's four-character code, if it is one the
/// pipeline reads.
pub fn format_from_fourcc(code: &[u8; 4]) -> (r: Option<PixelFormat>)
    ensures
        r == spec_format_from_fourcc(code@),
{
    let c0 = code[0];
    let c1 = code[1];
    let c2 = code[2];
    let c3 = code[3];
    proof {
        assert(code@ =~= seq![c0, c1, c2, c3]);
    }
    if c0 == 89 && c1 == 85 && c2 == 89 && c3 == 86 {
        Some(PixelFormat::YUYV)
    } else if c0 == 82 && c1 == 71 && c2 == 66 && c3 == 51 {
        Some(PixelFormat::RGB24)
    } else if c0 == 66 && c1 == 71 && c2 == 82 && c3 == 51 {
        Some(PixelFormat::BGR24)
    } else {
        proof {
            if code@ =~= seq![89u8, 85u8, 89u8, 86u8] {
                assert(code@[0] == 89u8 && code@[1] == 85u8 && code@[2] == 89u8 && code@[3] == 86u8);
            }
            if code@ =~= seq![82u8, 71u8, 66u8, 51u8] {
                assert(code@[0] == 82u8 && code@[1] == 71u8);
            }
            if code@ =~= seq![66u8, 71u8, 82u8, 51u8] {
                assert(code@[0] == 66u8 && code@[1] == 71u8);
            }
        }
        None
    }
}

/// The first `rows` rows of a buffer whose rows start every `stride` bytes,
/// each cut to its first `row_size` bytes and concatenated.
pub open spec fn unpadded_rows(buffer: Seq<u8>, rows: nat, row_size: nat, stride: nat) -> Seq<u8>
    decreases rows,
{
    if rows == 0 {
        Seq::empty()
    } else {
        let start = ((rows - 1) * stride) as int;
        unpadded_rows(buffer, (rows - 1) as nat, row_size, stride) + buffer.subrange(start, start + row_size)
    }
}

/// Whether every row of `row_size` bytes, rows starting every `stride`
/// bytes, lies within a buffer of `len` bytes.
pub open spec fn rows_in_buffer(len: nat, rows: nat, row_size: nat, stride: nat) -> bool {
    rows == 0 || (rows - 1) * stride + row_size <= len
}

/// Copies the pixel rows out of a device buffer, dropping the padding at
/// the end of each row.
pub fn strip_row_padding(buffer: &[u8], rows: usize, row_size: usize, stride: usize) -> (r: Vec<u8>)
    requires
        rows_in_buffer(buffer@.len(), rows as nat, row_size as nat, stride as nat),
    ensures
        r@ == unpadded_rows(buffer@, rows as nat, row_size as nat, stride as nat),
        r@.len() == rows * row_size,
{
    let len = buffer.len();
    let mut data: Vec<u8> = Vec::new();
    let mut row: usize = 0;
    while row < rows
        invariant
            row <= rows,
            len == buffer@.len(),
            rows_in_buffer(buffer@.len(), rows as nat, row_size as nat, stride as nat),
            data@ == unpadded_rows(buffer@, row as nat, row_size as nat, stride as nat),
            data@.len() == row * row_size,
        decreases rows - row,
    {
        proof {
            assert(row * stride <= (rows - 1) * stride) by (nonlinear_arith)
                requires
                    row < rows,
            ;
            assert((rows - 1) * stride + row_size <= len);
        }
        let row_start = row * stride;
        let row_end = row_start + row_size;
        let ghost before = data@;
        let mut i: usize = row_start;
        while i < row_end
            invariant
                row_start <= i <= row_end,
                row_end <= buffer@.len(),
                data@ == before + buffer@.subrange(row_start as int, i as int),
            decreases row_end - i,
        {
            data.push(buffer[i]);
            proof {
                assert(buffer@.subrange(row_start as int, i + 1) =~= buffer@.subrange(
                    row_start as int,
                    i as int,
                ).push(buffer@[i as int]));
            }
            i = i + 1;
        }
        proof {
            assert(data@ =~= unpadded_rows(buffer@, (row + 1) as nat, row_size as nat, stride as nat));
            assert(row * row_size + row_size == (row + 1) * row_size) by (nonlinear_arith);
        }
        row = row + 1;
    }
    data
}

} // verus!
