//! Block transforms between three bytes and four symbols, and the padding
//! validator. None of them branches on the value of a byte.
use vstd::prelude::*;
use crate::ct::match_eq_ct;
use crate::errors::InvalidEncodingError;
use crate::model::{byte_of, pad_count, padding_ok, sextet_of};
use crate::variant::{value_of, Variant, PAD};

verus! {

proof fn lemma_pack(c0: i16, c1: i16, c2: i16, c3: i16)
    requires
        0 <= c0 < 64,
        0 <= c1 < 64,
        0 <= c2 < 64,
        0 <= c3 < 64,
    ensures
        ((c0 << 2u32) | (c1 >> 4u32)) as u8 == (c0 * 4 + c1 / 16) as u8,
        ((c1 << 4u32) | (c2 >> 2u32)) as u8 == ((c1 % 16) * 16 + c2 / 4) as u8,
        ((c2 << 6u32) | c3) as u8 == ((c2 % 4) * 64 + c3) as u8,
{
    assert(((c0 << 2u32) | (c1 >> 4u32)) as u8 == (c0 * 4 + c1 / 16) as u8) by (bit_vector)
        requires
            0 <= c0 < 64,
            0 <= c1 < 64,
    ;
    assert(((c1 << 4u32) | (c2 >> 2u32)) as u8 == ((c1 % 16) * 16 + c2 / 4) as u8) by (bit_vector)
        requires
            0 <= c1 < 64,
            0 <= c2 < 64,
    ;
    assert(((c2 << 6u32) | c3) as u8 == ((c2 % 4) * 64 + c3) as u8) by (bit_vector)
        requires
            0 <= c2 < 64,
            0 <= c3 < 64,
    ;
}

proof fn lemma_error_bit(c0: i16, c1: i16, c2: i16, c3: i16)
    requires
        -1 <= c0 < 64,
        -1 <= c1 < 64,
        -1 <= c2 < 64,
        -1 <= c3 < 64,
    ensures
        (((c0 | c1 | c2 | c3) >> 8u32) & 1) == if c0 >= 0 && c1 >= 0 && c2 >= 0 && c3 >= 0 {
            0i16
        } else {
            1i16
        },
{
    assert((((c0 | c1 | c2 | c3) >> 8u32) & 1) == if c0 >= 0 && c1 >= 0 && c2 >= 0 && c3 >= 0 {
        0i16
    } else {
        1i16
    }) by (bit_vector)
        requires
            -1 <= c0 < 64,
            -1 <= c1 < 64,
            -1 <= c2 < 64,
            -1 <= c3 < 64,
    ;
}

/// The byte at position `k` (0 to 2) that the shifts of the block
/// transform pack from the symbol values `c0` to `c3`, valid or not.
pub open spec fn packed_byte(c0: i16, c1: i16, c2: i16, c3: i16, k: int) -> u8 {
    if k == 0 {
        ((c0 << 2u32) | (c1 >> 4u32)) as u8
    } else if k == 1 {
        ((c1 << 4u32) | (c2 >> 2u32)) as u8
    } else {
        ((c2 << 6u32) | c3) as u8
    }
}

/// Decodes the four symbols `src` into `dst[at..at + 3]`. Returns `1` when a
/// symbol is outside the alphabet, else `0`; the bytes are then exact.
pub fn decode_3bytes<T: Variant>(src: &[u8], dst: &mut [u8], at: usize) -> (r: i16)
    requires
        src@.len() == 4,
        at + 3 <= old(dst)@.len(),
    ensures
        final(dst)@.len() == old(dst)@.len(),
        forall|j: int| 0 <= j < old(dst)@.len() && !(at <= j < at + 3) ==> final(dst)@[j] == old(dst)@[j],
        forall|k: int| 0 <= k < 3 ==> #[trigger] final(dst)@[at + k] == packed_byte(
            value_of(T::spec_sym62(), T::spec_sym63(), src@[0]) as i16,
            value_of(T::spec_sym62(), T::spec_sym63(), src@[1]) as i16,
            value_of(T::spec_sym62(), T::spec_sym63(), src@[2]) as i16,
            value_of(T::spec_sym62(), T::spec_sym63(), src@[3]) as i16,
            k,
        ),
        r == 0 || r == 1,
        r == 0 <==> forall|k: int| 0 <= k < 4 ==> value_of(T::spec_sym62(), T::spec_sym63(), #[trigger] src@[k]) >= 0,
        r == 0 ==> forall|k: int| 0 <= k < 3 ==> #[trigger] final(dst)@[at + k] == byte_of(
            value_of(T::spec_sym62(), T::spec_sym63(), src@[0]),
            value_of(T::spec_sym62(), T::spec_sym63(), src@[1]),
            value_of(T::spec_sym62(), T::spec_sym63(), src@[2]),
            value_of(T::spec_sym62(), T::spec_sym63(), src@[3]),
            k,
        ) as u8,
{
    let c0 = T::decode_6bits(src[0]);
    let c1 = T::decode_6bits(src[1]);
    let c2 = T::decode_6bits(src[2]);
    let c3 = T::decode_6bits(src[3]);

    dst[at] = (#[verifier::truncate] (((c0 << 2u32) | (c1 >> 4u32)) as u8));
    dst[at + 1] = (#[verifier::truncate] (((c1 << 4u32) | (c2 >> 2u32)) as u8));
    dst[at + 2] = (#[verifier::truncate] (((c2 << 6u32) | c3) as u8));

    proof {
        assert(dst@[at + 0] == dst@[at as int]);
        lemma_error_bit(c0, c1, c2, c3);
        if c0 >= 0 && c1 >= 0 && c2 >= 0 && c3 >= 0 {
            lemma_pack(c0, c1, c2, c3);
        }
    }
    ((c0 | c1 | c2 | c3) >> 8u32) & 1
}

proof fn lemma_split(b0: i16, b1: i16, b2: i16)
    requires
        0 <= b0 < 256,
        0 <= b1 < 256,
        0 <= b2 < 256,
    ensures
        b0 >> 2u32 == b0 / 4,
        ((b0 << 4u32) | (b1 >> 4u32)) & 63 == (b0 % 4) * 16 + b1 / 16,
        ((b1 << 2u32) | (b2 >> 6u32)) & 63 == (b1 % 16) * 4 + b2 / 64,
        b2 & 63 == b2 % 64,
{
    assert(b0 >> 2u32 == b0 / 4) by (bit_vector)
        requires
            0 <= b0 < 256,
    ;
    assert(((b0 << 4u32) | (b1 >> 4u32)) & 63 == (b0 % 4) * 16 + b1 / 16) by (bit_vector)
        requires
            0 <= b0 < 256,
            0 <= b1 < 256,
    ;
    assert(((b1 << 2u32) | (b2 >> 6u32)) & 63 == (b1 % 16) * 4 + b2 / 64) by (bit_vector)
        requires
            0 <= b1 < 256,
            0 <= b2 < 256,
    ;
    assert(b2 & 63 == b2 % 64) by (bit_vector)
        requires
            0 <= b2 < 256,
    ;
}

/// Encodes the three bytes `src` into the four symbols `dst[at..at + 4]`.
pub fn encode_3bytes<T: Variant>(src: &[u8], dst: &mut [u8], at: usize)
    requires
        src@.len() == 3,
        at + 4 <= old(dst)@.len(),
    ensures
        final(dst)@.len() == old(dst)@.len(),
        forall|j: int| 0 <= j < old(dst)@.len() && !(at <= j < at + 4) ==> final(dst)@[j] == old(dst)@[j],
        forall|k: int| 0 <= k < 4 ==> #[trigger] final(dst)@[at + k] == crate::variant::sym_of(
            T::spec_sym62(),
            T::spec_sym63(),
            sextet_of(src@[0] as int, src@[1] as int, src@[2] as int, k),
        ),
{
    let b0 = src[0] as i16;
    let b1 = src[1] as i16;
    let b2 = src[2] as i16;
    proof {
        lemma_split(b0, b1, b2);
    }
    dst[at] = T::encode_6bits(b0 >> 2u32);
    dst[at + 1] = T::encode_6bits(((b0 << 4u32) | (b1 >> 4u32)) & 63);
    dst[at + 2] = T::encode_6bits(((b1 << 2u32) | (b2 >> 6u32)) & 63);
    dst[at + 3] = T::encode_6bits(b2 & 63);
    proof {
        assert(forall|k: int| 0 <= k < 4 ==> #[trigger] dst@[at + k] == crate::variant::sym_of(
            T::spec_sym62(),
            T::spec_sym63(),
            sextet_of(src@[0] as int, src@[1] as int, src@[2] as int, k),
        )) by {
            assert(dst@[at + 0] == dst@[at as int]);
        }
    }
}

/// Checks the framing of a padded text and measures its padding.
///
/// A length that is not a multiple of four is an eager error. Otherwise the
/// result is the length without the `=` among the last two bytes (or
/// zero for `====`, a group of padding alone), and a
/// flag, `0` when the padding is well formed and `1` when it is not, which
/// the caller folds into its other flags before branching.
pub fn decode_padding(input: &[u8]) -> (r: Result<(usize, i16), InvalidEncodingError>)
    ensures
        r.is_err() <==> input@.len() % 4 != 0,
        r matches Ok((len, e)) ==> len == input@.len() - pad_count(input@) && (e == 0 || e == 1)
            && (e == 0 <==> padding_ok(input@)),
{
    let len = input.len();
    if len % 4 != 0 {
        return Err(InvalidEncodingError);
    }
    let mut unpadded_len: usize = len;
    if len >= 2 {
        let mut pad_len: i16 = match_eq_ct(input[len - 2], PAD, 1) + match_eq_ct(input[len - 1], PAD, 1);
        if len == 4 {
            let a = match_eq_ct(input[0], PAD, 1);
            let b = match_eq_ct(input[1], PAD, 1);
            let c = match_eq_ct(input[2], PAD, 1);
            let d = match_eq_ct(input[3], PAD, 1);
            let all: i16 = a & b & c & d;
            assert(all == if a == 1 && b == 1 && c == 1 && d == 1 { 1i16 } else { 0i16 }) by (bit_vector)
                requires
                    a == 0 || a == 1,
                    b == 0 || b == 1,
                    c == 0 || c == 1,
                    d == 0 || d == 1,
                    all == a & b & c & d,
            ;
            pad_len = pad_len + 2 * all;
        }
        unpadded_len = len - pad_len as usize;
    }
    let padding_len: usize = len - unpadded_len;
    let err: i16 = if padding_len == 1 {
        let last = match_eq_ct(input[len - 1], PAD, 1);
        assert(last ^ 1 == if last == 1 { 0i16 } else { 1i16 }) by (bit_vector)
            requires
                last == 0 || last == 1,
        ;
        last ^ 1
    } else if padding_len == 2 {
        let a = match_eq_ct(input[len - 2], PAD, 1);
        let b = match_eq_ct(input[len - 1], PAD, 1);
        assert((a & b) ^ 1 == if a == 1 && b == 1 { 0i16 } else { 1i16 }) by (bit_vector)
            requires
                a == 0 || a == 1,
                b == 0 || b == 1,
        ;
        (a & b) ^ 1
    } else {
        0
    };
    Ok((unpadded_len, err))
}

} // verus!
