//! Properties of the codec as a whole, proved over the model that the
//! contracts of `Encoding` are stated in.
use vstd::prelude::*;
use crate::encoding::{decoded, encoded};
use crate::errors::Error;
use crate::length::{lemma_decoded_len_monotonic, spec_decoded_len, spec_encoded_len};
use crate::model::{
    byte_of, byte_or_zero, decode_text, decode_unpadded, encode_bytes,
    lemma_sextet_range, pad_count, padding_ok, sextet, sextet_of, symbol_count, symbol_value,
    unpadded_part, valid_unpadded,
};
use crate::variant::{extras_ok, lemma_value_of_sym, value_of, Variant, PAD};

verus! {

proof fn lemma_regroup(x0: int, x1: int, x2: int)
    requires
        0 <= x0 < 256,
        0 <= x1 < 256,
        0 <= x2 < 256,
    ensures
        byte_of(
            sextet_of(x0, x1, x2, 0),
            sextet_of(x0, x1, x2, 1),
            sextet_of(x0, x1, x2, 2),
            sextet_of(x0, x1, x2, 3),
            0,
        ) == x0,
        byte_of(
            sextet_of(x0, x1, x2, 0),
            sextet_of(x0, x1, x2, 1),
            sextet_of(x0, x1, x2, 2),
            sextet_of(x0, x1, x2, 3),
            1,
        ) == x1,
        byte_of(
            sextet_of(x0, x1, x2, 0),
            sextet_of(x0, x1, x2, 1),
            sextet_of(x0, x1, x2, 2),
            sextet_of(x0, x1, x2, 3),
            2,
        ) == x2,
{
    assert(x0 == 4 * (x0 / 4) + x0 % 4);
    assert(x1 == 16 * (x1 / 16) + x1 % 16);
    assert(x2 == 64 * (x2 / 64) + x2 % 64);
    assert(((x0 % 4) * 16 + x1 / 16) / 16 == x0 % 4);
    assert(((x0 % 4) * 16 + x1 / 16) % 16 == x1 / 16);
    assert(((x1 % 16) * 4 + x2 / 64) / 4 == x1 % 16);
    assert(((x1 % 16) * 4 + x2 / 64) % 4 == x2 / 64);
}

proof fn lemma_counts(n: int, padded: bool)
    requires
        n >= 0,
    ensures
        spec_decoded_len(symbol_count(n)) == n,
        symbol_count(n) % 4 != 1,
        symbol_count(n) <= spec_encoded_len(n, padded),
        padded ==> spec_encoded_len(n, padded) % 4 == 0,
        padded ==> spec_encoded_len(n, padded) - symbol_count(n) == if n % 3 == 0 {
            0int
        } else if n % 3 == 1 {
            2int
        } else {
            1int
        },
        !padded ==> spec_encoded_len(n, padded) == symbol_count(n),
        n % 3 == 1 ==> symbol_count(n) == 4 * (n / 3) + 2,
        n % 3 == 2 ==> symbol_count(n) == 4 * (n / 3) + 3,
        n % 3 == 0 ==> symbol_count(n) == 4 * (n / 3),
{
    let q = n / 3;
    let r = n % 3;
    assert(n == 3 * q + r);
    assert(symbol_count(n) == 4 * q + if r == 0 { 0int } else { r + 1 }) by (nonlinear_arith)
        requires
            n == 3 * q + r,
            0 <= r < 3,
    ;
    assert(spec_encoded_len(n, true) == 4 * q + if r == 0 { 0int } else { 4 }) by (nonlinear_arith)
        requires
            n == 3 * q + r,
            0 <= r < 3,
    ;
    let m = symbol_count(n);
    assert(m / 4 == q && m % 4 == if r == 0 { 0int } else { r + 1 }) by (nonlinear_arith)
        requires
            m == 4 * q + if r == 0 { 0int } else { r + 1 },
            0 <= r < 3,
            q >= 0,
    ;
    assert((4 * q) % 4 == 0 && (4 * q + 4) % 4 == 0) by (nonlinear_arith)
        requires
            q >= 0,
    ;
}

/// Core of the round trip, over an alphabet given by its two extra symbols.
pub proof fn lemma_decode_encode(c62: u8, c63: u8, padded: bool, b: Seq<u8>, cap: int)
    requires
        extras_ok(c62, c63),
        cap >= b.len(),
    ensures
        decode_text(c62, c63, padded, encode_bytes(c62, c63, padded, b), cap) == Ok::<Seq<u8>, Error>(b),
{
    let n = b.len() as int;
    let e = encode_bytes(c62, c63, padded, b);
    let m = symbol_count(n);
    lemma_counts(n, padded);
    assert forall|j: int| 0 <= j < m implies #[trigger] e[j] != PAD && value_of(c62, c63, e[j]) == sextet(b, j) by {
        lemma_sextet_range(b, j);
        lemma_value_of_sym(c62, c63, sextet(b, j));
    }
    if padded {
        if e.len() >= 2 {
            assert(pad_count(e) == e.len() - m);
        }
        assert(padding_ok(e));
    }
    let u = unpadded_part(padded, e);
    assert(u =~= e.take(m));
    assert(valid_unpadded(c62, c63, u));
    let d = decode_unpadded(c62, c63, u);
    assert forall|i: int| 0 <= i < n implies #[trigger] d[i] == b[i] by {
        let g = i / 3;
        let k = i % 3;
        assert(i == 3 * g + k);
        let x0 = byte_or_zero(b, 3 * g);
        let x1 = byte_or_zero(b, 3 * g + 1);
        let x2 = byte_or_zero(b, 3 * g + 2);
        assert forall|t: int| 0 <= t < 4 implies #[trigger] symbol_value(c62, c63, u, 4 * g + t)
            == sextet_of(x0, x1, x2, t) by {
            assert((4 * g + t) / 4 == g && (4 * g + t) % 4 == t);
            if 4 * g + t >= m {
                assert(3 * g + 3 > n);
            }
        }
        lemma_regroup(x0, x1, x2);
        assert(symbol_value(c62, c63, u, 4 * g + 0) == sextet_of(x0, x1, x2, 0));
        assert(symbol_value(c62, c63, u, 4 * g + 1) == sextet_of(x0, x1, x2, 1));
        assert(symbol_value(c62, c63, u, 4 * g + 2) == sextet_of(x0, x1, x2, 2));
        assert(symbol_value(c62, c63, u, 4 * g + 3) == sextet_of(x0, x1, x2, 3));
    }
    assert(d =~= b);
}

/// Decoding what a variant encodes gives back the original bytes, into any
/// destination that can hold them.
pub proof fn lemma_round_trip<T: Variant>(b: Seq<u8>, cap: int)
    requires
        cap >= b.len(),
    ensures
        decoded::<T>(encoded::<T>(b), cap) == Ok::<Seq<u8>, Error>(b),
{
    T::lemma_alphabet();
    lemma_decode_encode(T::spec_sym62(), T::spec_sym63(), T::spec_padded(), b, cap);
}

/// The length that `encoded_len` reports is the length of the text that
/// `encode` writes, for every input.
pub proof fn lemma_encoded_len_matches<T: Variant>(b: Seq<u8>)
    ensures
        encoded::<T>(b).len() == spec_encoded_len(b.len() as int, T::spec_padded()),
{
}

/// A padded text in which `=` is followed by any other byte does not decode.
pub proof fn lemma_misplaced_padding<T: Variant>(s: Seq<u8>, j: int, cap: int)
    requires
        T::spec_padded(),
        s.len() % 4 == 0,
        0 <= j < s.len() - 1,
        s[j] == PAD,
        s[j + 1] != PAD,
        cap >= s.len(),
    ensures
        decoded::<T>(s, cap) == Err::<Seq<u8>, Error>(Error::InvalidEncoding),
{
    T::lemma_alphabet();
    let u = unpadded_part(true, s);
    lemma_decoded_len_monotonic(u.len() as int, s.len() as int);
    if j < u.len() {
        assert(value_of(T::spec_sym62(), T::spec_sym63(), u[j]) < 0);
    }
}

/// A text holding a byte outside the variant's alphabet does not decode,
/// once its framing is right and the destination large enough.
pub proof fn lemma_foreign_symbol<T: Variant>(s: Seq<u8>, j: int, cap: int)
    requires
        !T::spec_padded() || s.len() % 4 == 0,
        0 <= j < s.len(),
        value_of(T::spec_sym62(), T::spec_sym63(), s[j]) < 0,
        !T::spec_padded() || s[j] != PAD,
        cap >= s.len(),
    ensures
        decoded::<T>(s, cap) == Err::<Seq<u8>, Error>(Error::InvalidEncoding),
{
    let u = unpadded_part(T::spec_padded(), s);
    lemma_decoded_len_monotonic(u.len() as int, s.len() as int);
    if j < u.len() {
        assert(u[j] == s[j]);
    }
}

/// Whether a text decodes, and to what, does not depend on the size of the
/// destination once it can hold the result; in particular decoding in place
/// (into the text's own bytes) gives what decoding into a separate buffer
/// gives.
pub proof fn lemma_destination_independent<T: Variant>(s: Seq<u8>, cap: int)
    requires
        cap >= spec_decoded_len(unpadded_part(T::spec_padded(), s).len() as int),
    ensures
        decoded::<T>(s, cap) == decoded::<T>(s, s.len() as int),
{
    let u = unpadded_part(T::spec_padded(), s);
    lemma_decoded_len_monotonic(u.len() as int, s.len() as int);
}

} // verus!
