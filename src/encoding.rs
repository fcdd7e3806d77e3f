//! The codec façade: encode and decode over caller-supplied buffers, with
//! convenience forms that allocate.
use vstd::prelude::*;
use vstd::slice::slice_subrange;
use vstd::string::StringSliceAdditionalSpecFns;
use crate::block::{decode_3bytes, decode_padding, encode_3bytes};
use crate::errors::{Error, InvalidEncodingError, InvalidLengthError};
use crate::length::{
    decoded_len, encoded_len_inner, lemma_decoded_len_monotonic, spec_decoded_len, spec_encoded_len,
};
use crate::model::{
    ascii_chars, byte_of, byte_or_zero, decode_text, decode_unpadded, decoded_byte, encode_bytes,
    lemma_encoded_ascii, sextet, sextet_of, symbol_count, symbol_value, unpadded_part,
};
use crate::variant::{sym_of, value_of, Variant, PAD};

verus! {

/// The text that variant `T` encodes `b` to.
pub open spec fn encoded<T: Variant>(b: Seq<u8>) -> Seq<u8> {
    encode_bytes(T::spec_sym62(), T::spec_sym63(), T::spec_padded(), b)
}

/// The outcome of decoding `s` under variant `T` into `cap` bytes.
pub open spec fn decoded<T: Variant>(s: Seq<u8>, cap: int) -> Result<Seq<u8>, Error> {
    decode_text(T::spec_sym62(), T::spec_sym63(), T::spec_padded(), s, cap)
}

/// Base64 encoding and decoding for a variant.
pub trait Encoding: Variant + Sized {
    /// Encodes `src` into the front of `dst` and returns the number of
    /// symbols written.
    fn encode(src: &[u8], dst: &mut [u8]) -> (r: Result<usize, InvalidLengthError>)
        ensures
            final(dst)@.len() == old(dst)@.len(),
            (src@.len() > usize::MAX / 4 || spec_encoded_len(src@.len() as int, Self::spec_padded())
                > old(dst)@.len()) ==> r == Err::<usize, InvalidLengthError>(InvalidLengthError)
                && final(dst)@ == old(dst)@,
            !(src@.len() > usize::MAX / 4 || spec_encoded_len(src@.len() as int, Self::spec_padded())
                > old(dst)@.len()) ==> r == Ok::<usize, InvalidLengthError>(
                spec_encoded_len(src@.len() as int, Self::spec_padded()) as usize,
            ) && final(dst)@.take(spec_encoded_len(src@.len() as int, Self::spec_padded()))
                == encoded::<Self>(src@) && final(dst)@.skip(
                spec_encoded_len(src@.len() as int, Self::spec_padded()),
            ) == old(dst)@.skip(spec_encoded_len(src@.len() as int, Self::spec_padded())),
    ;

    /// Decodes `src` into the front of `dst` and returns the number of bytes
    /// written. Every symbol is processed before the one branch on validity.
    fn decode(src: &[u8], dst: &mut [u8]) -> (r: Result<usize, Error>)
        ensures
            final(dst)@.len() == old(dst)@.len(),
            (match decoded::<Self>(src@, old(dst)@.len() as int) {
                Ok(v) => r == Ok::<usize, Error>(v.len() as usize) && final(dst)@.take(v.len() as int) == v
                    && final(dst)@.skip(v.len() as int) == old(dst)@.skip(v.len() as int),
                Err(e) => r == Err::<usize, Error>(e),
            }),
            r == Err::<usize, Error>(Error::InvalidLength) ==> final(dst)@ == old(dst)@,
    ;

    /// Decodes `buf` in place: the decoded bytes take the front of `buf`,
    /// and their number is returned. Block `k` writes bytes `3k..3k + 3`
    /// only after reading symbols `4k..4k + 4`, so no write overtakes the
    /// symbols still to be read, and bytes past the decoded length keep
    /// their values. On an encoding error the decoded part is unspecified;
    /// a padded text whose length is not a multiple of four is left as it is.
    fn decode_in_place(buf: &mut [u8]) -> (r: Result<usize, InvalidEncodingError>)
        ensures
            final(buf)@.len() == old(buf)@.len(),
            (match decoded::<Self>(old(buf)@, old(buf)@.len() as int) {
                Ok(v) => r == Ok::<usize, InvalidEncodingError>(v.len() as usize) && final(buf)@.take(
                    v.len() as int,
                ) == v && final(buf)@.skip(v.len() as int) == old(buf)@.skip(v.len() as int),
                Err(e) => r == Err::<usize, InvalidEncodingError>(InvalidEncodingError),
            }),
            Self::spec_padded() && old(buf)@.len() % 4 != 0 ==> final(buf)@ == old(buf)@,
    ;

    /// Decodes `input` into a new vector.
    fn decode_vec(input: &str) -> (r: Result<Vec<u8>, Error>)
        ensures
            (match decoded::<Self>(input.spec_bytes(), input.spec_bytes().len() as int) {
                Ok(v) => r matches Ok(out) && out@ == v,
                Err(e) => r == Err::<Vec<u8>, Error>(e),
            }),
    ;

    /// Encodes `input` into a new string.
    fn encode_string(input: &[u8]) -> (r: String)
        requires
            input@.len() <= usize::MAX / 4,
        ensures
            r@ == ascii_chars(encoded::<Self>(input@)),
    ;

    /// The length of the text that encodes `bytes`, or `0` when it would not
    /// fit in a `usize`.
    fn encoded_len(bytes: &[u8]) -> (r: usize)
        ensures
            r == if bytes@.len() > usize::MAX / 4 {
                0
            } else {
                spec_encoded_len(bytes@.len() as int, Self::spec_padded())
            },
    ;
}

/// Relies on `String::from_utf8`: ASCII bytes are valid UTF-8, and each
/// becomes the character of the same code.
#[verifier::external_body]
fn ascii_string(bytes: Vec<u8>) -> (r: String)
    requires
        forall|i: int| 0 <= i < bytes@.len() ==> bytes@[i] < 128,
    ensures
        r@ == ascii_chars(bytes@),
{
    match String::from_utf8(bytes) {
        Ok(s) => s,
        Err(_) => String::new(),
    }
}

proof fn lemma_div_mul(i: int, k: int, d: int)
    requires
        0 <= k < d,
        0 <= i,
        d > 0,
    ensures
        (d * i + k) / d == i,
        (d * i + k) % d == k,
{
    assert((d * i + k) / d == i && (d * i + k) % d == k) by (nonlinear_arith)
        requires
            0 <= k < d,
            0 <= i,
            d > 0,
    ;
}

impl<T: Variant> Encoding for T {
    fn encode(src: &[u8], dst: &mut [u8]) -> (r: Result<usize, InvalidLengthError>) {
        let n = src.len();
        let elen = match encoded_len_inner(n, T::padded()) {
            Some(v) => v,
            None => return Err(InvalidLengthError),
        };
        if elen > dst.len() {
            return Err(InvalidLengthError);
        }
        proof {
            T::lemma_alphabet();
        }
        let ghost e = encoded::<T>(src@);
        let ghost d0 = dst@;
        let full: usize = n / 3;
        proof {
            assert(4 * full <= symbol_count(n as int) <= elen) by (nonlinear_arith)
                requires
                    full == n / 3,
                    elen == spec_encoded_len(n as int, T::spec_padded()),
            ;
        }
        let mut i: usize = 0;
        while i < full
            invariant
                0 <= i <= full,
                full == n / 3,
                n == src@.len(),
                4 * full <= symbol_count(n as int),
                symbol_count(n as int) <= elen <= dst@.len(),
                elen == e.len(),
                e == encoded::<T>(src@),
                dst@.len() == d0.len(),
                forall|j: int| 0 <= j < 4 * i ==> dst@[j] == e[j],
                forall|j: int| elen <= j < d0.len() ==> dst@[j] == d0[j],
            decreases full - i,
        {
            let chunk = slice_subrange(src, 3 * i, 3 * i + 3);
            encode_3bytes::<T>(chunk, dst, 4 * i);
            proof {
                assert forall|j: int| 4 * i <= j < 4 * i + 4 implies dst@[j] == e[j] by {
                    let k = j - 4 * i;
                    lemma_div_mul(i as int, k, 4);
                    assert(dst@[4 * i + k] == sym_of(
                        T::spec_sym62(),
                        T::spec_sym63(),
                        sextet_of(chunk@[0] as int, chunk@[1] as int, chunk@[2] as int, k),
                    ));
                    assert(byte_or_zero(src@, 3 * i) == chunk@[0]);
                    assert(byte_or_zero(src@, 3 * i + 1) == chunk@[1]);
                    assert(byte_or_zero(src@, 3 * i + 2) == chunk@[2]);
                    assert(sextet(src@, j) == sextet_of(chunk@[0] as int, chunk@[1] as int, chunk@[2] as int, k));
                }
            }
            i = i + 1;
        }
        let rem: usize = n - 3 * full;
        let mut tmp_in = [0u8; 3];
        let mut m: usize = 0;
        while m < rem
            invariant
                0 <= m <= rem,
                rem == n - 3 * full,
                rem < 3,
                n == src@.len(),
                forall|k: int| 0 <= k < 3 ==> tmp_in@[k] == if k < m { src@[3 * full + k] } else { 0u8 },
            decreases rem - m,
        {
            tmp_in[m] = src[3 * full + m];
            m = m + 1;
        }
        let mut tmp_out = [0u8; 4];
        encode_3bytes::<T>(tmp_in.as_slice(), &mut tmp_out, 0);
        proof {
            assert forall|k: int| 0 <= k < 4 implies tmp_out@[k] == sym_of(
                T::spec_sym62(),
                T::spec_sym63(),
                sextet(src@, 4 * full + k),
            ) by {
                lemma_div_mul(full as int, k, 4);
                assert(tmp_out@[0 + k] == tmp_out@[k]);
                assert(byte_or_zero(src@, 3 * full) == tmp_in@[0]);
                assert(byte_or_zero(src@, 3 * full + 1) == tmp_in@[1]);
                assert(byte_or_zero(src@, 3 * full + 2) == tmp_in@[2]);
            }
        }
        if T::padded() {
            if elen > 4 * full {
                let flag: u8 = (rem == 1) as u8;
                let mask: u8 = flag.wrapping_sub(1);
                assert(mask == if flag == 1 { 0u8 } else { 255u8 });
                let t2: u8 = tmp_out[2];
                let sel: u8 = (t2 & mask) | (PAD & !mask);
                assert(sel == if rem == 1 { PAD } else { t2 }) by (bit_vector)
                    requires
                        flag == 0 || flag == 1,
                        flag == 1 <==> rem == 1,
                        mask == if flag == 1 { 0u8 } else { 255u8 },
                        sel == (t2 & mask) | (PAD & !mask),
                        PAD == 0x3du8,
                ;
                dst[4 * full] = tmp_out[0];
                dst[4 * full + 1] = tmp_out[1];
                dst[4 * full + 2] = sel;
                dst[4 * full + 3] = PAD;
            }
        } else {
            let mut k: usize = 0;
            while k < elen - 4 * full
                invariant
                    0 <= k <= elen - 4 * full,
                    elen - 4 * full <= 4,
                    elen <= dst@.len(),
                    dst@.len() == d0.len(),
                    forall|j: int| 0 <= j < 4 * full ==> dst@[j] == e[j],
                    forall|j: int| 4 * full <= j < 4 * full + k ==> dst@[j] == tmp_out@[j - 4 * full],
                    forall|j: int| elen <= j < d0.len() ==> dst@[j] == d0[j],
                decreases elen - 4 * full - k,
            {
                dst[4 * full + k] = tmp_out[k];
                k = k + 1;
            }
        }
        proof {
            assert forall|j: int| 4 * full <= j < elen implies dst@[j] == e[j] by {
                assert(symbol_count(n as int) == 4 * full + if rem == 0 { 0int } else { rem + 1 }) by (nonlinear_arith)
                    requires
                        full == n / 3,
                        rem == n - 3 * full,
                ;
                assert(elen == 4 * full + if rem == 0 { 0int } else if T::spec_padded() { 4int } else { rem + 1 }) by (nonlinear_arith)
                    requires
                        full == n / 3,
                        rem == n - 3 * full,
                        elen == spec_encoded_len(n as int, T::spec_padded()),
                ;
            }
            assert(dst@.take(elen as int) =~= e);
            assert(dst@.skip(elen as int) =~= d0.skip(elen as int));
        }
        Ok(elen)
    }

    #[verifier::rlimit(40)]
    fn decode(src: &[u8], dst: &mut [u8]) -> (r: Result<usize, Error>) {
        let ghost c62 = T::spec_sym62();
        let ghost c63 = T::spec_sym63();
        let ghost d0 = dst@;
        let mut err: i16 = 0;
        let mut len: usize = src.len();
        if T::padded() {
            match decode_padding(src) {
                Ok((unpadded_len, e)) => {
                    len = unpadded_len;
                    err = e;
                },
                Err(_) => return Err(Error::InvalidLength),
            }
        }
        let ghost u = src@.take(len as int);
        let ghost pad_err = err;
        assert(u == unpadded_part(T::spec_padded(), src@));
        let dlen = decoded_len(len);
        if dlen > dst.len() {
            return Err(Error::InvalidLength);
        }
        proof {
            T::lemma_alphabet();
        }
        let full: usize = len / 4;
        let mut i: usize = 0;
        while i < full
            invariant
                0 <= i <= full,
                full == len / 4,
                c62 == T::spec_sym62(),
                c63 == T::spec_sym63(),
                len <= src@.len(),
                u == src@.take(len as int),
                dlen == spec_decoded_len(len as int),
                dlen <= dst@.len(),
                3 * full <= dlen,
                dst@.len() == d0.len(),
                forall|j: int| dlen <= j < d0.len() ==> dst@[j] == d0[j],
                err == 0 || err == 1,
                err == 0 <==> (pad_err == 0 && forall|j: int| 0 <= j < 4 * i ==> value_of(c62, c63, #[trigger] u[j]) >= 0),
                err == 0 ==> forall|j: int| 0 <= j < 3 * i ==> dst@[j] == decoded_byte(c62, c63, u, j),
            decreases full - i,
        {
            let chunk = slice_subrange(src, 4 * i, 4 * i + 4);
            let e = decode_3bytes::<T>(chunk, dst, 3 * i);
            proof {
                lemma_decode_block(c62, c63, u, i as int, chunk@, dst@, pad_err, err, e);
            }
            err = err | e;
            i = i + 1;
        }
        let rem: usize = len - 4 * full;
        let lone: i16 = (rem == 1) as i16;
        proof {
            lemma_or_flag(err, lone);
        }
        let before: i16 = err | lone;
        let mut tmp_in = [0x41u8; 4];
        let mut m: usize = 0;
        while m < rem
            invariant
                0 <= m <= rem,
                rem == len - 4 * full,
                rem < 4,
                len <= src@.len(),
                u == src@.take(len as int),
                forall|k: int| 0 <= k < 4 ==> tmp_in@[k] == if k < m { u[4 * full + k] } else { 0x41u8 },
            decreases rem - m,
        {
            tmp_in[m] = src[4 * full + m];
            m = m + 1;
        }
        let mut tmp_out = [0u8; 3];
        let e = decode_3bytes::<T>(tmp_in.as_slice(), &mut tmp_out, 0);
        proof {
            lemma_or_flag(before, e);
            lemma_decode_tail(c62, c63, u, full as int, tmp_in@, tmp_out@, dst@);
        }
        let all: i16 = before | e;
        let mut k: usize = 0;
        while k < dlen - 3 * full
            invariant
                0 <= k <= dlen - 3 * full,
                dlen - 3 * full <= 3,
                dlen <= dst@.len(),
                dst@.len() == d0.len(),
                forall|j: int| dlen <= j < d0.len() ==> dst@[j] == d0[j],
                c62 == T::spec_sym62(),
                c63 == T::spec_sym63(),
                err == 0 ==> forall|j: int| 0 <= j < 3 * full ==> dst@[j] == decoded_byte(c62, c63, u, j),
                forall|j: int| 3 * full <= j < 3 * full + k ==> dst@[j] == tmp_out@[j - 3 * full],
            decreases dlen - 3 * full - k,
        {
            dst[3 * full + k] = tmp_out[k];
            k = k + 1;
        }
        proof {
            lemma_decode_tail(c62, c63, u, full as int, tmp_in@, tmp_out@, dst@);
            assert(dst@.skip(dlen as int) =~= d0.skip(dlen as int));
        }
        if all == 0 {
            Ok(dlen)
        } else {
            Err(Error::InvalidEncoding)
        }
    }

    #[verifier::rlimit(40)]
    fn decode_in_place(buf: &mut [u8]) -> (r: Result<usize, InvalidEncodingError>) {
        let ghost c62 = T::spec_sym62();
        let ghost c63 = T::spec_sym63();
        let ghost s0 = buf@;
        let mut err: i16 = 0;
        let mut len: usize = buf.len();
        if T::padded() {
            match decode_padding(buf) {
                Ok((unpadded_len, e)) => {
                    len = unpadded_len;
                    err = e;
                },
                Err(_) => return Err(InvalidEncodingError),
            }
        }
        let ghost u = s0.take(len as int);
        let ghost pad_err = err;
        assert(u == unpadded_part(T::spec_padded(), s0));
        let dlen = decoded_len(len);
        proof {
            T::lemma_alphabet();
        }
        let full: usize = len / 4;
        let mut i: usize = 0;
        while i < full
            invariant
                0 <= i <= full,
                full == len / 4,
                c62 == T::spec_sym62(),
                c63 == T::spec_sym63(),
                len <= s0.len(),
                u == s0.take(len as int),
                dlen == spec_decoded_len(len as int),
                dlen <= len,
                3 * full <= dlen,
                buf@.len() == s0.len(),
                forall|j: int| 4 * i <= j < s0.len() ==> buf@[j] == s0[j],
                forall|j: int| dlen <= j < s0.len() ==> buf@[j] == s0[j],
                err == 0 || err == 1,
                err == 0 <==> (pad_err == 0 && forall|j: int| 0 <= j < 4 * i ==> value_of(c62, c63, #[trigger] u[j]) >= 0),
                err == 0 ==> forall|j: int| 0 <= j < 3 * i ==> buf@[j] == decoded_byte(c62, c63, u, j),
            decreases full - i,
        {
            let block = [buf[4 * i], buf[4 * i + 1], buf[4 * i + 2], buf[4 * i + 3]];
            let chunk = block.as_slice();
            let e = decode_3bytes::<T>(chunk, buf, 3 * i);
            proof {
                lemma_decode_block(c62, c63, u, i as int, chunk@, buf@, pad_err, err, e);
            }
            err = err | e;
            i = i + 1;
        }
        let rem: usize = len - 4 * full;
        let lone: i16 = (rem == 1) as i16;
        proof {
            lemma_or_flag(err, lone);
        }
        let before: i16 = err | lone;
        let mut tmp_in = [0x41u8; 4];
        let mut m: usize = 0;
        while m < rem
            invariant
                0 <= m <= rem,
                rem == len - 4 * full,
                rem < 4,
                len <= s0.len(),
                buf@.len() == s0.len(),
                forall|j: int| 4 * full <= j < s0.len() ==> buf@[j] == s0[j],
                u == s0.take(len as int),
                forall|k: int| 0 <= k < 4 ==> tmp_in@[k] == if k < m { u[4 * full + k] } else { 0x41u8 },
            decreases rem - m,
        {
            tmp_in[m] = buf[4 * full + m];
            m = m + 1;
        }
        let mut tmp_out = [0u8; 3];
        let e = decode_3bytes::<T>(tmp_in.as_slice(), &mut tmp_out, 0);
        proof {
            lemma_or_flag(before, e);
            lemma_decode_tail(c62, c63, u, full as int, tmp_in@, tmp_out@, buf@);
        }
        let all: i16 = before | e;
        if all == 0 {
            let mut k: usize = 0;
            while k < dlen - 3 * full
                invariant
                    0 <= k <= dlen - 3 * full,
                    dlen - 3 * full <= 3,
                    dlen <= buf@.len(),
                    buf@.len() == s0.len(),
                    forall|j: int| dlen <= j < s0.len() ==> buf@[j] == s0[j],
                    c62 == T::spec_sym62(),
                    c63 == T::spec_sym63(),
                    err == 0 ==> forall|j: int| 0 <= j < 3 * full ==> buf@[j] == decoded_byte(c62, c63, u, j),
                    forall|j: int| 3 * full <= j < 3 * full + k ==> buf@[j] == tmp_out@[j - 3 * full],
                decreases dlen - 3 * full - k,
            {
                buf[3 * full + k] = tmp_out[k];
                k = k + 1;
            }
            proof {
                lemma_decode_tail(c62, c63, u, full as int, tmp_in@, tmp_out@, buf@);
                assert(buf@.skip(dlen as int) =~= s0.skip(dlen as int));
            }
            Ok(dlen)
        } else {
            Err(InvalidEncodingError)
        }
    }

    fn decode_vec(input: &str) -> (r: Result<Vec<u8>, Error>) {
        let bytes = input.as_bytes();
        let mut output: Vec<u8> = vec![0u8; decoded_len(bytes.len())];
        proof {
            let u = unpadded_part(T::spec_padded(), bytes@);
            lemma_decoded_len_monotonic(u.len() as int, bytes@.len() as int);
        }
        let res = T::decode(bytes, output.as_mut_slice());
        match res {
            Ok(len) => {
                output.truncate(len);
                Ok(output)
            },
            Err(e) => Err(e),
        }
    }

    fn encode_string(input: &[u8]) -> (r: String) {
        let elen: usize = match encoded_len_inner(input.len(), T::padded()) {
            Some(v) => v,
            None => 0,
        };
        let mut dst: Vec<u8> = vec![0u8; elen];
        let _ = T::encode(input, dst.as_mut_slice());
        proof {
            T::lemma_alphabet();
            lemma_encoded_ascii(T::spec_sym62(), T::spec_sym63(), T::spec_padded(), input@);
            assert(dst@ =~= encoded::<T>(input@));
        }
        ascii_string(dst)
    }

    fn encoded_len(bytes: &[u8]) -> (r: usize) {
        match encoded_len_inner(bytes.len(), T::padded()) {
            Some(v) => v,
            None => 0,
        }
    }
}

/// One block of a decode loop. Once the block's flag `e` is folded into the
/// running flag `err`, the flag still says whether every symbol read so far
/// is in the alphabet; when it does, the decoded prefix `out`, three bytes
/// longer, is still exact.
proof fn lemma_decode_block(
    c62: u8,
    c63: u8,
    u: Seq<u8>,
    i: int,
    chunk: Seq<u8>,
    out: Seq<u8>,
    pad_err: i16,
    err: i16,
    e: i16,
)
    requires
        0 <= i,
        4 * i + 4 <= u.len(),
        chunk.len() == 4,
        forall|k: int| 0 <= k < 4 ==> chunk[k] == u[4 * i + k],
        3 * i + 3 <= out.len(),
        err == 0 || err == 1,
        e == 0 || e == 1,
        err == 0 <==> (pad_err == 0 && forall|j: int| 0 <= j < 4 * i ==> value_of(c62, c63, #[trigger] u[j]) >= 0),
        e == 0 <==> forall|k: int| 0 <= k < 4 ==> value_of(c62, c63, #[trigger] chunk[k]) >= 0,
        err == 0 ==> forall|j: int| 0 <= j < 3 * i ==> out[j] == decoded_byte(c62, c63, u, j),
        e == 0 ==> forall|k: int| 0 <= k < 3 ==> #[trigger] out[3 * i + k] == byte_of(
            value_of(c62, c63, chunk[0]),
            value_of(c62, c63, chunk[1]),
            value_of(c62, c63, chunk[2]),
            value_of(c62, c63, chunk[3]),
            k,
        ) as u8,
    ensures
        (err | e) == 0 || (err | e) == 1,
        (err | e) == 0 <==> (pad_err == 0 && forall|j: int| 0 <= j < 4 * i + 4 ==> value_of(c62, c63, #[trigger] u[j]) >= 0),
        (err | e) == 0 ==> forall|j: int| 0 <= j < 3 * i + 3 ==> out[j] == decoded_byte(c62, c63, u, j),
{
    lemma_or_flag(err, e);
    assert forall|k: int| 0 <= k < 4 implies chunk[k] == #[trigger] u[4 * i + k] by {}
    if (err | e) == 0 {
        assert forall|j: int| 0 <= j < 4 * i + 4 implies value_of(c62, c63, #[trigger] u[j]) >= 0 by {
            if j >= 4 * i {
                assert(chunk[j - 4 * i] == u[j]);
            }
        }
        assert forall|j: int| 3 * i <= j < 3 * i + 3 implies out[j] == decoded_byte(c62, c63, u, j) by {
            let k = j - 3 * i;
            lemma_div_mul(i, k, 3);
            assert(out[3 * i + k] == byte_of(
                value_of(c62, c63, chunk[0]),
                value_of(c62, c63, chunk[1]),
                value_of(c62, c63, chunk[2]),
                value_of(c62, c63, chunk[3]),
                k,
            ) as u8);
            assert(chunk[0] == u[4 * i + 0]);
            assert(chunk[1] == u[4 * i + 1]);
            assert(chunk[2] == u[4 * i + 2]);
            assert(chunk[3] == u[4 * i + 3]);
        }
    } else if e != 0 {
        let k = choose|k: int| 0 <= k < 4 && value_of(c62, c63, #[trigger] chunk[k]) < 0;
        assert(value_of(c62, c63, u[4 * i + k]) < 0);
    }
}

/// The last, partial group of a decode loop, read into `tmp_in` with `A`
/// after its end and decoded into `tmp_out`. Its symbols are in the
/// alphabet exactly when those of `u` after the full groups are; and when
/// they are, and `out` holds the full groups' bytes followed by those of
/// `tmp_out`, `out` starts with the whole decoded text.
proof fn lemma_decode_tail(
    c62: u8,
    c63: u8,
    u: Seq<u8>,
    full: int,
    tmp_in: Seq<u8>,
    tmp_out: Seq<u8>,
    out: Seq<u8>,
)
    requires
        full == u.len() / 4,
        tmp_in.len() == 4,
        forall|k: int| 0 <= k < 4 ==> tmp_in[k] == if 4 * full + k < u.len() { u[4 * full + k] } else { 0x41u8 },
        (forall|k: int| 0 <= k < 4 ==> value_of(c62, c63, #[trigger] tmp_in[k]) >= 0) ==> forall|k: int|
            0 <= k < 3 ==> #[trigger] tmp_out[0 + k] == byte_of(
                value_of(c62, c63, tmp_in[0]),
                value_of(c62, c63, tmp_in[1]),
                value_of(c62, c63, tmp_in[2]),
                value_of(c62, c63, tmp_in[3]),
                k,
            ) as u8,
        spec_decoded_len(u.len() as int) <= out.len(),
    ensures
        u.len() % 4 == u.len() - 4 * full,
        spec_decoded_len(u.len() as int) - 3 * full == (3 * (u.len() - 4 * full)) / 4,
        (forall|j: int| 0 <= j < u.len() ==> value_of(c62, c63, #[trigger] u[j]) >= 0) <==> ((forall|j: int|
            0 <= j < 4 * full ==> value_of(c62, c63, #[trigger] u[j]) >= 0) && (forall|k: int|
            0 <= k < 4 ==> value_of(c62, c63, #[trigger] tmp_in[k]) >= 0)),
        ((forall|k: int| 0 <= k < 4 ==> value_of(c62, c63, #[trigger] tmp_in[k]) >= 0) && (forall|j: int|
            0 <= j < 3 * full ==> out[j] == decoded_byte(c62, c63, u, j)) && (forall|j: int|
            3 * full <= j < spec_decoded_len(u.len() as int) ==> out[j] == tmp_out[j - 3 * full]))
            ==> out.take(spec_decoded_len(u.len() as int)) == decode_unpadded(c62, c63, u),
{
    let len = u.len() as int;
    let dlen = spec_decoded_len(len);
    let rem = len - 4 * full;
    assert(len % 4 == rem && 0 <= rem < 4) by (nonlinear_arith)
        requires
            full == len / 4,
            rem == len - 4 * full,
            len >= 0,
    ;
    assert(dlen - 3 * full == (3 * rem) / 4);
    assert forall|k: int| 0 <= k < 4 implies #[trigger] symbol_value(c62, c63, u, 4 * full + k)
        == value_of(c62, c63, tmp_in[k]) by {}
    if forall|k: int| 0 <= k < 4 ==> value_of(c62, c63, #[trigger] tmp_in[k]) >= 0 {
        assert forall|j: int| 4 * full <= j < len implies value_of(c62, c63, #[trigger] u[j]) >= 0 by {
            assert(value_of(c62, c63, tmp_in[j - 4 * full]) >= 0);
        }
    } else {
        let k = choose|k: int| 0 <= k < 4 && value_of(c62, c63, #[trigger] tmp_in[k]) < 0;
        assert(value_of(c62, c63, u[4 * full + k]) < 0);
    }
    if (forall|k: int| 0 <= k < 4 ==> value_of(c62, c63, #[trigger] tmp_in[k]) >= 0) && (forall|j: int|
        0 <= j < 3 * full ==> out[j] == decoded_byte(c62, c63, u, j)) && (forall|j: int|
        3 * full <= j < dlen ==> out[j] == tmp_out[j - 3 * full]) {
        assert forall|j: int| 3 * full <= j < dlen implies out[j] == decoded_byte(c62, c63, u, j) by {
            let k = j - 3 * full;
            lemma_div_mul(full, k, 3);
            assert(tmp_out[0 + k] == tmp_out[k]);
            assert(symbol_value(c62, c63, u, 4 * full + 0) == value_of(c62, c63, tmp_in[0]));
            assert(symbol_value(c62, c63, u, 4 * full + 1) == value_of(c62, c63, tmp_in[1]));
            assert(symbol_value(c62, c63, u, 4 * full + 2) == value_of(c62, c63, tmp_in[2]));
            assert(symbol_value(c62, c63, u, 4 * full + 3) == value_of(c62, c63, tmp_in[3]));
        }
        assert(out.take(dlen) =~= decode_unpadded(c62, c63, u));
    }
}

proof fn lemma_or_flag(a: i16, b: i16)
    requires
        a == 0 || a == 1,
        b == 0 || b == 1,
    ensures
        (a | b) == 0 || (a | b) == 1,
        (a | b) == 0 <==> (a == 0 && b == 0),
{
    assert(((a | b) == 0 || (a | b) == 1) && ((a | b) == 0 <==> (a == 0 && b == 0))) by (bit_vector)
        requires
            a == 0 || a == 1,
            b == 0 || b == 1,
    ;
}

} // verus!
