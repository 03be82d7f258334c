//! Helpers around the framed stream that need no decoding: worst-case size
//! estimation, reading the length header, parameter validation for the
//! raw-buffer entry points, and the holder those entry points hand out.

use vstd::prelude::*;

use crate::model::header_value;
use crate::LZSS;

verus! {

/// Holder for a codec instance handed across the raw-buffer interface.
pub struct LzssContext {
    pub lzss: LZSS,
}

/// Worst case for a compressed stream over `input_size` bytes: the 4-byte
/// header, one control byte for every eight tokens, and every byte emitted
/// as a literal.  The compressor's contract keeps its output within this
/// estimate whenever the window fits the two-byte distance range, so the
/// estimate is a sound buffer size.  Sizes so large that the estimate
/// leaves the `u64` range saturate.
pub fn lzss_max_compressed_size(input_size: u64) -> (r: u64)
    ensures
        4 + (input_size + 7) / 8 + input_size <= u64::MAX ==> r == 4 + (input_size + 7) / 8
            + input_size,
        4 + (input_size + 7) / 8 + input_size > u64::MAX ==> r == u64::MAX,
{
    let control_bytes = (input_size as u128 + 7) / 8;
    let total = 4 + control_bytes + input_size as u128;
    if total > u64::MAX as u128 {
        u64::MAX
    } else {
        total as u64
    }
}

/// Read the original length out of a compressed stream's header without
/// decompressing it; zero if the buffer is too short to hold a header.
pub fn lzss_get_original_size(compressed_data: &Vec<u8>) -> (r: u64)
    ensures
        compressed_data@.len() >= 4 ==> r == header_value(compressed_data@),
        compressed_data@.len() < 4 ==> r == 0,
{
    if compressed_data.len() < 4 {
        return 0;
    }
    compressed_data[0] as u64 + 256 * (compressed_data[1] as u64) + 65536 * (compressed_data[2]
        as u64) + 16777216 * (compressed_data[3] as u64)
}

/// The raw-buffer interface accepts a configuration only when both
/// parameters are positive and the window fits the two-byte distance range.
pub fn lzss_params_valid(window_size: i32, min_match_length: i32) -> (r: bool)
    ensures
        r <==> (0 < window_size <= 65535 && 0 < min_match_length),
{
    window_size > 0 && min_match_length > 0 && window_size <= 65535
}

} // verus!
