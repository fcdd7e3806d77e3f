//! Length arithmetic shared by every buffer-sizing decision of the codec.
use vstd::prelude::*;

verus! {

/// Number of bytes that an unpadded encoded text of `n` symbols decodes to.
pub open spec fn spec_decoded_len(n: int) -> int {
    3 * (n / 4) + (3 * (n % 4)) / 4
}

/// Number of symbols that encoding `n` bytes produces: `ceil(4n/3)`, or
/// four symbols per started group of three bytes when padded.
pub open spec fn spec_encoded_len(n: int, padded: bool) -> int {
    if padded {
        4 * ((n + 2) / 3)
    } else {
        (4 * n + 2) / 3
    }
}

/// Decoded length of an unpadded encoded input, computed without forming
/// `3 * input_len`.
pub fn decoded_len(input_len: usize) -> (r: usize)
    ensures
        r == spec_decoded_len(input_len as int),
        r <= input_len,
{
    let k: usize = input_len / 4;
    let l: usize = input_len - 4 * k;
    3 * k + (3 * l) / 4
}

proof fn lemma_round_down_4(x: usize)
    ensures
        x & !3usize == x - x % 4,
{
    assert(x & !3usize == x - x % 4) by (bit_vector);
}

/// Encoded length of `n` bytes, or `None` when `4 * n` would not fit in a
/// `usize`.
pub fn encoded_len_inner(n: usize, padded: bool) -> (r: Option<usize>)
    ensures
        r.is_none() <==> n > usize::MAX / 4,
        r matches Some(v) ==> v == spec_encoded_len(n as int, padded),
{
    if n > usize::MAX / 4 {
        return None;
    }
    let q: usize = 4 * n;
    if padded {
        let x: usize = (q / 3) + 3;
        proof {
            lemma_round_down_4(x);
            let k = n as int / 3;
            let m = n as int % 3;
            assert(n as int == 3 * k + m);
            assert(q / 3 == 4 * k + (4 * m) / 3) by (nonlinear_arith)
                requires
                    q == 4 * n,
                    n as int == 3 * k + m,
                    0 <= m < 3,
            ;
            assert((n as int + 2) / 3 == k + (m + 2) / 3) by (nonlinear_arith)
                requires
                    n as int == 3 * k + m,
                    0 <= m < 3,
            ;
            assert(x - x % 4 == 4 * ((n as int + 2) / 3)) by (nonlinear_arith)
                requires
                    x == 4 * k + (4 * m) / 3 + 3,
                    (n as int + 2) / 3 == k + (m + 2) / 3,
                    0 <= m < 3,
                    k >= 0,
            ;
        }
        Some(x & !3usize)
    } else {
        let r: usize = (q / 3) + (q % 3 != 0) as usize;
        proof {
            assert(r == (4 * n + 2) / 3) by (nonlinear_arith)
                requires
                    q == 4 * n,
                    r == q / 3 + if q % 3 != 0 { 1int } else { 0 },
            ;
        }
        Some(r)
    }
}

} // verus!

verus! {

/// A shorter encoded text never decodes to more bytes, and no text decodes
/// to more bytes than it has symbols.
pub proof fn lemma_decoded_len_monotonic(a: int, b: int)
    requires
        0 <= a <= b,
    ensures
        spec_decoded_len(a) <= spec_decoded_len(b),
        spec_decoded_len(b) <= b,
{
    let qa = a / 4;
    let qb = b / 4;
    assert(a == 4 * qa + a % 4 && b == 4 * qb + b % 4);
    assert(qa <= qb) by (nonlinear_arith)
        requires
            0 <= a <= b,
            qa == a / 4,
            qb == b / 4,
    ;
    if qa == qb {
        assert(a % 4 <= b % 4);
    } else {
        assert(qa + 1 <= qb);
    }
}

} // verus!
