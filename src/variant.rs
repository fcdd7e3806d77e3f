//! Base64 alphabets: the mapping between 6-bit values and ASCII symbols, and
//! the padding policy of each variant.
use vstd::prelude::*;
use crate::ct::{match_eq_ct, match_gt_ct, match_range_ct};

verus! {

/// Whether `c` is an ASCII letter or digit.
pub open spec fn is_alnum(c: u8) -> bool {
    (65 <= c <= 90) || (97 <= c <= 122) || (48 <= c <= 57)
}

/// The padding symbol `=`.
pub const PAD: u8 = 0x3d;

/// The two symbols that complete an alphabet after `A-Z`, `a-z`, `0-9`:
/// distinct, ASCII, neither a letter, a digit nor the padding symbol.
pub open spec fn extras_ok(c62: u8, c63: u8) -> bool {
    &&& c62 != c63
    &&& c62 < 128 && c63 < 128
    &&& !is_alnum(c62) && !is_alnum(c63)
    &&& c62 != PAD && c63 != PAD
}

/// The symbol that stands for the 6-bit value `v`.
pub open spec fn sym_of(c62: u8, c63: u8, v: int) -> u8 {
    if v < 26 {
        (v + 65) as u8
    } else if v < 52 {
        (v + 71) as u8
    } else if v < 62 {
        (v - 4) as u8
    } else if v == 62 {
        c62
    } else {
        c63
    }
}

/// The 6-bit value of the symbol `c`, or `-1` when `c` is not in the alphabet.
pub open spec fn value_of(c62: u8, c63: u8, c: u8) -> int {
    if 65 <= c <= 90 {
        c - 65
    } else if 97 <= c <= 122 {
        c - 71
    } else if 48 <= c <= 57 {
        c + 4
    } else if c == c62 {
        62
    } else if c == c63 {
        63
    } else {
        -1
    }
}

/// Decoding a symbol gives back the value it was encoded from.
pub proof fn lemma_value_of_sym(c62: u8, c63: u8, v: int)
    requires
        extras_ok(c62, c63),
        0 <= v < 64,
    ensures
        value_of(c62, c63, sym_of(c62, c63, v)) == v,
        sym_of(c62, c63, v) < 128,
        sym_of(c62, c63, v) != PAD,
{
}

/// Maps a 6-bit value to its symbol without branching on the value.
pub fn encode_6bits_with(src: i16, c62: u8, c63: u8) -> (r: u8)
    requires
        0 <= src < 64,
        extras_ok(c62, c63),
    ensures
        r == sym_of(c62, c63, src as int),
{
    let mut diff: i16 = 0x41;
    diff = diff + match_gt_ct(src, 25, 6);
    diff = diff - match_gt_ct(src, 51, 75);
    diff = diff + match_gt_ct(src, 61, c62 as i16 - 58);
    diff = diff + match_gt_ct(src, 62, c63 as i16 - c62 as i16 - 1);
    (src + diff) as u8
}

/// Maps a symbol to its 6-bit value, or to `-1` when it is not in the
/// alphabet, summing masked range matches instead of branching.
pub fn decode_6bits_with(src: u8, c62: u8, c63: u8) -> (r: i16)
    requires
        extras_ok(c62, c63),
    ensures
        r == value_of(c62, c63, src),
{
    let s: i16 = src as i16;
    let mut res: i16 = -1;
    res = res + match_range_ct(src, 0x41, 0x5b, s - 64);
    res = res + match_range_ct(src, 0x61, 0x7b, s - 70);
    res = res + match_range_ct(src, 0x30, 0x3a, s + 5);
    res = res + match_eq_ct(src, c62, 63);
    res = res + match_eq_ct(src, c63, 64);
    res
}

/// An alphabet and padding policy, selected by type.
pub trait Variant {
    /// Whether encoded text is padded with `=` to a multiple of four symbols.
    spec fn spec_padded() -> bool;

    /// The symbol for the value 62.
    spec fn spec_sym62() -> u8;

    /// The symbol for the value 63.
    spec fn spec_sym63() -> u8;

    proof fn lemma_alphabet()
        ensures
            extras_ok(Self::spec_sym62(), Self::spec_sym63()),
    ;

    fn padded() -> (r: bool)
        ensures
            r == Self::spec_padded(),
    ;

    fn encode_6bits(src: i16) -> (r: u8)
        requires
            0 <= src < 64,
        ensures
            r == sym_of(Self::spec_sym62(), Self::spec_sym63(), src as int),
    ;

    fn decode_6bits(src: u8) -> (r: i16)
        ensures
            r == value_of(Self::spec_sym62(), Self::spec_sym63(), src),
    ;
}

/// Standard alphabet (`+`, `/`), padded.
pub struct Base64;

/// Standard alphabet (`+`, `/`), unpadded.
pub struct Base64Unpadded;

/// URL-safe alphabet (`-`, `_`), padded.
pub struct Base64Url;

/// URL-safe alphabet (`-`, `_`), unpadded.
pub struct Base64UrlUnpadded;

impl Variant for Base64 {
    open spec fn spec_padded() -> bool {
        true
    }

    open spec fn spec_sym62() -> u8 {
        0x2b
    }

    open spec fn spec_sym63() -> u8 {
        0x2f
    }

    proof fn lemma_alphabet() {
    }

    fn padded() -> (r: bool) {
        true
    }

    fn encode_6bits(src: i16) -> (r: u8) {
        encode_6bits_with(src, 0x2b, 0x2f)
    }

    fn decode_6bits(src: u8) -> (r: i16) {
        decode_6bits_with(src, 0x2b, 0x2f)
    }
}

impl Variant for Base64Unpadded {
    open spec fn spec_padded() -> bool {
        false
    }

    open spec fn spec_sym62() -> u8 {
        0x2b
    }

    open spec fn spec_sym63() -> u8 {
        0x2f
    }

    proof fn lemma_alphabet() {
    }

    fn padded() -> (r: bool) {
        false
    }

    fn encode_6bits(src: i16) -> (r: u8) {
        encode_6bits_with(src, 0x2b, 0x2f)
    }

    fn decode_6bits(src: u8) -> (r: i16) {
        decode_6bits_with(src, 0x2b, 0x2f)
    }
}

impl Variant for Base64Url {
    open spec fn spec_padded() -> bool {
        true
    }

    open spec fn spec_sym62() -> u8 {
        0x2d
    }

    open spec fn spec_sym63() -> u8 {
        0x5f
    }

    proof fn lemma_alphabet() {
    }

    fn padded() -> (r: bool) {
        true
    }

    fn encode_6bits(src: i16) -> (r: u8) {
        encode_6bits_with(src, 0x2d, 0x5f)
    }

    fn decode_6bits(src: u8) -> (r: i16) {
        decode_6bits_with(src, 0x2d, 0x5f)
    }
}

impl Variant for Base64UrlUnpadded {
    open spec fn spec_padded() -> bool {
        false
    }

    open spec fn spec_sym62() -> u8 {
        0x2d
    }

    open spec fn spec_sym63() -> u8 {
        0x5f
    }

    proof fn lemma_alphabet() {
    }

    fn padded() -> (r: bool) {
        false
    }

    fn encode_6bits(src: i16) -> (r: u8) {
        encode_6bits_with(src, 0x2d, 0x5f)
    }

    fn decode_6bits(src: u8) -> (r: i16) {
        decode_6bits_with(src, 0x2d, 0x5f)
    }
}

} // verus!
