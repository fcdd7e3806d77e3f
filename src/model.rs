//! The mathematical model of Base64: what encoding produces and what decoding
//! accepts and returns, stated over sequences of bytes.
use vstd::prelude::*;
use crate::errors::Error;
use crate::length::{spec_decoded_len, spec_encoded_len};
use crate::variant::{extras_ok, lemma_value_of_sym, sym_of, value_of, PAD};

verus! {

/// Byte `i` of `b`, reading past the end as zero.
pub open spec fn byte_or_zero(b: Seq<u8>, i: int) -> int {
    if 0 <= i < b.len() {
        b[i] as int
    } else {
        0
    }
}

/// The 6-bit value at position `k` (0 to 3) of the group of three bytes
/// `x0`, `x1`, `x2`.
pub open spec fn sextet_of(x0: int, x1: int, x2: int, k: int) -> int {
    if k == 0 {
        x0 / 4
    } else if k == 1 {
        (x0 % 4) * 16 + x1 / 16
    } else if k == 2 {
        (x1 % 16) * 4 + x2 / 64
    } else {
        x2 % 64
    }
}

/// The `j`-th 6-bit value of the bit stream of `b`, extended with zero bits.
pub open spec fn sextet(b: Seq<u8>, j: int) -> int {
    let g = j / 4;
    sextet_of(
        byte_or_zero(b, 3 * g),
        byte_or_zero(b, 3 * g + 1),
        byte_or_zero(b, 3 * g + 2),
        j % 4,
    )
}

/// Number of symbols, padding aside, that encode `n` bytes.
pub open spec fn symbol_count(n: int) -> int {
    (4 * n + 2) / 3
}

/// The text that encodes `b`: one symbol per 6-bit value, then `=` up to
/// a multiple of four symbols when the variant pads.
pub open spec fn encode_bytes(c62: u8, c63: u8, padded: bool, b: Seq<u8>) -> Seq<u8> {
    Seq::new(
        spec_encoded_len(b.len() as int, padded) as nat,
        |j: int|
            if j < symbol_count(b.len() as int) {
                sym_of(c62, c63, sextet(b, j))
            } else {
                PAD
            },
    )
}

/// The byte at position `k` (0 to 2) packed from the 6-bit values `c0` to `c3`.
pub open spec fn byte_of(c0: int, c1: int, c2: int, c3: int, k: int) -> int {
    if k == 0 {
        c0 * 4 + c1 / 16
    } else if k == 1 {
        (c1 % 16) * 16 + c2 / 4
    } else {
        (c2 % 4) * 64 + c3
    }
}

/// The 6-bit value of symbol `j` of the unpadded text `u`; positions past
/// the end read as `A`, the value zero.
pub open spec fn symbol_value(c62: u8, c63: u8, u: Seq<u8>, j: int) -> int {
    if 0 <= j < u.len() {
        value_of(c62, c63, u[j])
    } else {
        0
    }
}

/// Byte `i` of what the unpadded text `u` decodes to.
pub open spec fn decoded_byte(c62: u8, c63: u8, u: Seq<u8>, i: int) -> u8 {
    let g = i / 3;
    byte_of(
        symbol_value(c62, c63, u, 4 * g),
        symbol_value(c62, c63, u, 4 * g + 1),
        symbol_value(c62, c63, u, 4 * g + 2),
        symbol_value(c62, c63, u, 4 * g + 3),
        i % 3,
    ) as u8
}

/// What the unpadded text `u` decodes to, whether or not it is valid.
pub open spec fn decode_unpadded(c62: u8, c63: u8, u: Seq<u8>) -> Seq<u8> {
    Seq::new(spec_decoded_len(u.len() as int) as nat, |i: int| decoded_byte(c62, c63, u, i))
}

/// Every symbol of `u` is in the alphabet, and `u` does not end in a lone
/// symbol (one symbol carries too few bits for a byte).
pub open spec fn valid_unpadded(c62: u8, c63: u8, u: Seq<u8>) -> bool {
    &&& u.len() % 4 != 1
    &&& forall|j: int| 0 <= j < u.len() ==> value_of(c62, c63, #[trigger] u[j]) >= 0
}

/// `s` is exactly `====`.
pub open spec fn all_padding_group(s: Seq<u8>) -> bool {
    s.len() == 4 && s[0] == PAD && s[1] == PAD && s[2] == PAD && s[3] == PAD
}

/// Number of `=` that end `s`: those among its last two bytes, or all four
/// when `s` is `====`, a well-formed group of padding alone.
/// A text of one group of four `=` counts as all padding.
pub open spec fn pad_count(s: Seq<u8>) -> int {
    if all_padding_group(s) {
        4
    } else if s.len() >= 2 {
        (if s[s.len() - 2] == PAD { 1int } else { 0 }) + (if s[s.len() - 1] == PAD { 1int } else { 0 })
    } else {
        0
    }
}

/// The padding is well formed: `=` is never followed by the last byte
/// being something else.
pub open spec fn padding_ok(s: Seq<u8>) -> bool {
    !(s.len() >= 2 && s[s.len() - 2] == PAD && s[s.len() - 1] != PAD)
}

/// The text left once the padding of a padded variant is taken off.
pub open spec fn unpadded_part(padded: bool, s: Seq<u8>) -> Seq<u8> {
    if padded {
        s.take(s.len() - pad_count(s))
    } else {
        s
    }
}

/// The outcome of decoding `s` into a destination of `cap` bytes:
/// a padded text must have a multiple of four bytes and the destination
/// must hold the result (both `InvalidLength`); then every symbol must be in
/// the alphabet and the padding well formed (else `InvalidEncoding`).
pub open spec fn decode_text(c62: u8, c63: u8, padded: bool, s: Seq<u8>, cap: int) -> Result<
    Seq<u8>,
    Error,
> {
    let u = unpadded_part(padded, s);
    if padded && s.len() % 4 != 0 {
        Err(Error::InvalidLength)
    } else if spec_decoded_len(u.len() as int) > cap {
        Err(Error::InvalidLength)
    } else if (padded && !padding_ok(s)) || !valid_unpadded(c62, c63, u) {
        Err(Error::InvalidEncoding)
    } else {
        Ok(decode_unpadded(c62, c63, u))
    }
}

/// Every byte of an encoded text is ASCII.
pub proof fn lemma_encoded_ascii(c62: u8, c63: u8, padded: bool, b: Seq<u8>)
    requires
        extras_ok(c62, c63),
    ensures
        forall|j: int| 0 <= j < encode_bytes(c62, c63, padded, b).len() ==> #[trigger] encode_bytes(
            c62,
            c63,
            padded,
            b,
        )[j] < 128,
{
    assert forall|j: int| 0 <= j < encode_bytes(c62, c63, padded, b).len() implies #[trigger] encode_bytes(
        c62,
        c63,
        padded,
        b,
    )[j] < 128 by {
        if j < symbol_count(b.len() as int) {
            lemma_sextet_range(b, j);
            lemma_value_of_sym(c62, c63, sextet(b, j));
        }
    }
}

/// Each 6-bit value is below 64.
pub proof fn lemma_sextet_range(b: Seq<u8>, j: int)
    ensures
        0 <= sextet(b, j) < 64,
{
    let g = j / 4;
    let x0 = byte_or_zero(b, 3 * g);
    let x1 = byte_or_zero(b, 3 * g + 1);
    let x2 = byte_or_zero(b, 3 * g + 2);
    assert(0 <= sextet_of(x0, x1, x2, j % 4) < 64) by (nonlinear_arith)
        requires
            0 <= x0 < 256,
            0 <= x1 < 256,
            0 <= x2 < 256,
    ;
}

/// The characters of an ASCII byte sequence.
pub open spec fn ascii_chars(s: Seq<u8>) -> Seq<char> {
    s.map_values(|c: u8| c as char)
}

} // verus!
