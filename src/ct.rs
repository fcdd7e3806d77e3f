//! Branch-free comparisons that return a mask value rather than a `bool`.
use vstd::prelude::*;

verus! {

/// Returns `ret_on_match` when `input` lies in the half-open range
/// `[lo, hi)`, and `0` otherwise, using only subtraction, shifts and bitwise
/// operators.
pub fn match_range_ct(input: u8, lo: u8, hi: u16, ret_on_match: i16) -> (r: i16)
    requires
        hi <= 256,
    ensures
        r == if lo <= input && input < hi { ret_on_match } else { 0 },
{
    let start: i16 = lo as i16 - 1;
    let end: i16 = hi as i16;
    let x: i16 = input as i16;
    let below: i16 = start - x;
    let above: i16 = x - end;
    let r: i16 = ((below & above) >> 8u32) & ret_on_match;
    assert(r == if lo <= input && input < hi { ret_on_match } else { 0 }) by (bit_vector)
        requires
            hi <= 256,
            below == (lo as i16 - 1) as i16 - input as i16,
            above == input as i16 - hi as i16,
            r == ((below & above) >> 8u32) & ret_on_match,
    ;
    r
}

/// Returns `ret_on_match` when `input == expected`, and `0` otherwise.
pub fn match_eq_ct(input: u8, expected: u8, ret_on_match: i16) -> (r: i16)
    ensures
        r == if input == expected { ret_on_match } else { 0 },
{
    match_range_ct(input, expected, expected as u16 + 1, ret_on_match)
}

/// Returns `ret_on_match` when `input > threshold`, and `0` otherwise.
pub fn match_gt_ct(input: i16, threshold: u8, ret_on_match: i16) -> (r: i16)
    requires
        -256 <= threshold as i16 - input <= 255,
    ensures
        r == if input > threshold { ret_on_match } else { 0 },
{
    let t: i16 = threshold as i16;
    let d: i16 = t - input;
    let r: i16 = (d >> 8u32) & ret_on_match;
    assert(r == if input > threshold { ret_on_match } else { 0 }) by (bit_vector)
        requires
            -256 <= d <= 255,
            d == threshold as i16 - input,
            r == (d >> 8u32) & ret_on_match,
    ;
    r
}

} // verus!
