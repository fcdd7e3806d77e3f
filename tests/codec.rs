use base64ct::ct::{match_eq_ct, match_gt_ct, match_range_ct};
use base64ct::encoding::Encoding;
use base64ct::errors::{Error, InvalidEncodingError, InvalidLengthError};
use base64ct::variant::{Base64, Base64Unpadded, Base64Url, Base64UrlUnpadded};

fn enc<T: Encoding>(src: &[u8]) -> Vec<u8> {
    let mut dst = vec![0u8; src.len() * 2 + 8];
    let n = T::encode(src, &mut dst).unwrap();
    dst.truncate(n);
    dst
}

fn dec<T: Encoding>(src: &[u8]) -> Result<Vec<u8>, Error> {
    let mut dst = vec![0u8; src.len() + 4];
    let n = T::decode(src, &mut dst)?;
    dst.truncate(n);
    Ok(dst)
}

fn sample(n: usize) -> Vec<u8> {
    (0..n).map(|i| (i * 37 + 11) as u8).collect()
}

#[test]
fn standard_vectors() {
    assert_eq!(enc::<Base64>(&[0x66, 0x6f, 0x6f]), b"Zm9v".to_vec());
    assert_eq!(dec::<Base64>(b"Zm9v").unwrap(), vec![0x66, 0x6f, 0x6f]);
    assert_eq!(enc::<Base64Unpadded>(&[0x66]), b"Zg".to_vec());
    assert_eq!(enc::<Base64>(&[0x66]), b"Zg==".to_vec());
    assert_eq!(enc::<Base64>(&[0x66, 0x6f]), b"Zm8=".to_vec());
    assert_eq!(dec::<Base64>(b"").unwrap(), Vec::<u8>::new());
    assert_eq!(dec::<Base64Unpadded>(b"").unwrap(), Vec::<u8>::new());
    assert_eq!(enc::<Base64>(b"foobar"), b"Zm9vYmFy".to_vec());
    assert_eq!(dec::<Base64>(b"Zm9vYg==").unwrap(), b"foob".to_vec());
}

#[test]
fn all_padding_block_decodes_to_nothing() {
    assert_eq!(dec::<Base64>(b"===="), Ok(Vec::new()));
    assert_eq!(dec::<Base64Url>(b"===="), Ok(Vec::new()));
    assert_eq!(Base64::decode_vec("===="), Ok(Vec::new()));
    let mut buf = b"====".to_vec();
    assert_eq!(Base64::decode_in_place(&mut buf), Ok(0));
    assert_eq!(dec::<Base64>(b"Zm9v===="), Err(Error::InvalidEncoding));
    assert_eq!(dec::<Base64Unpadded>(b"===="), Err(Error::InvalidEncoding));
}

#[test]
fn extra_symbols_per_variant() {
    assert_eq!(enc::<Base64>(&[0xfb, 0xff]), b"+/8=".to_vec());
    assert_eq!(enc::<Base64Url>(&[0xfb, 0xff]), b"-_8=".to_vec());
    assert_eq!(enc::<Base64UrlUnpadded>(&[0xfb, 0xff]), b"-_8".to_vec());
    assert_eq!(dec::<Base64Url>(b"-_8=").unwrap(), vec![0xfb, 0xff]);
}

#[test]
fn round_trip_every_variant() {
    for n in [0usize, 1, 2, 3, 4, 5, 6, 7, 100, 1000] {
        let b = sample(n);
        assert_eq!(dec::<Base64>(&enc::<Base64>(&b)).unwrap(), b);
        assert_eq!(dec::<Base64Unpadded>(&enc::<Base64Unpadded>(&b)).unwrap(), b);
        assert_eq!(dec::<Base64Url>(&enc::<Base64Url>(&b)).unwrap(), b);
        assert_eq!(dec::<Base64UrlUnpadded>(&enc::<Base64UrlUnpadded>(&b)).unwrap(), b);
    }
}

#[test]
fn encoded_len_matches_encode() {
    for n in [0usize, 1, 2, 3, 4, 1000] {
        let b = sample(n);
        assert_eq!(Base64::encoded_len(&b), enc::<Base64>(&b).len());
        assert_eq!(Base64Unpadded::encoded_len(&b), enc::<Base64Unpadded>(&b).len());
        assert_eq!(Base64Url::encoded_len(&b), enc::<Base64Url>(&b).len());
        assert_eq!(Base64UrlUnpadded::encoded_len(&b), enc::<Base64UrlUnpadded>(&b).len());
    }
    assert_eq!(Base64::encoded_len(&sample(1000)), 1336);
    assert_eq!(Base64Unpadded::encoded_len(&sample(1000)), 1334);
    assert_eq!(Base64Unpadded::encoded_len(&sample(4)), 6);
    assert_eq!(Base64::encoded_len(&sample(4)), 8);
}

#[test]
fn misplaced_padding_rejected() {
    assert_eq!(dec::<Base64>(b"A=AA"), Err(Error::InvalidEncoding));
    assert_eq!(dec::<Base64>(b"AA=A"), Err(Error::InvalidEncoding));
    assert_eq!(dec::<Base64>(b"Zg==Zg=="), Err(Error::InvalidEncoding));
}

#[test]
fn foreign_symbol_rejected() {
    assert_eq!(dec::<Base64UrlUnpadded>(b"+"), Err(Error::InvalidEncoding));
    assert_eq!(dec::<Base64UrlUnpadded>(b"+AAA"), Err(Error::InvalidEncoding));
    assert_eq!(dec::<Base64Url>(b"Zm9/"), Err(Error::InvalidEncoding));
    assert_eq!(dec::<Base64>(b"Zm9_"), Err(Error::InvalidEncoding));
    assert_eq!(dec::<Base64Unpadded>(b"Zg=="), Err(Error::InvalidEncoding));
}

#[test]
fn invalid_first_or_last_byte_same_outcome() {
    assert_eq!(dec::<Base64>(b"*m9vYmFy"), Err(Error::InvalidEncoding));
    assert_eq!(dec::<Base64>(b"Zm9vYmF*"), Err(Error::InvalidEncoding));
}

#[test]
fn lone_trailing_symbol_rejected() {
    assert_eq!(dec::<Base64Unpadded>(b"Zm9vY"), Err(Error::InvalidEncoding));
    assert_eq!(dec::<Base64Unpadded>(b"Zm9vYg").unwrap(), b"foob".to_vec());
}

#[test]
fn length_errors() {
    let mut small = [0u8; 2];
    assert_eq!(Base64::decode(b"Zm9v", &mut small), Err(Error::InvalidLength));
    let mut big = [0u8; 8];
    assert_eq!(Base64::decode(b"Zm9", &mut big), Err(Error::InvalidLength));
    let mut three = [0u8; 3];
    assert_eq!(Base64::encode(&[1, 2, 3], &mut three), Err(InvalidLengthError));
    assert_eq!(three, [0u8; 3]);
}

#[test]
fn length_error_leaves_destination() {
    let mut small = [7u8; 2];
    assert_eq!(Base64::decode(b"Zm9v", &mut small), Err(Error::InvalidLength));
    assert_eq!(small, [7u8; 2]);
    let mut big = [7u8; 8];
    assert_eq!(Base64::decode(b"Zm9vY", &mut big), Err(Error::InvalidLength));
    assert_eq!(big, [7u8; 8]);
}

#[test]
fn in_place_keeps_bytes_past_result() {
    let mut buf = b"Zm9vYmFy".to_vec();
    assert_eq!(Base64::decode_in_place(&mut buf), Ok(6));
    assert_eq!(buf, b"foobarFy".to_vec());
    let mut buf = b"Zm9vYg==".to_vec();
    assert_eq!(Base64::decode_in_place(&mut buf), Ok(4));
    assert_eq!(buf, b"foobYg==".to_vec());
    let mut framed = b"Zm9vY".to_vec();
    assert_eq!(Base64::decode_in_place(&mut framed), Err(InvalidEncodingError));
    assert_eq!(framed, b"Zm9vY".to_vec());
}

#[test]
fn decode_leaves_tail_of_destination() {
    let mut dst = [9u8; 6];
    assert_eq!(Base64::decode(b"Zm9v", &mut dst), Ok(3));
    assert_eq!(dst, [0x66, 0x6f, 0x6f, 9, 9, 9]);
}

#[test]
fn in_place_matches_out_of_place() {
    for n in [0usize, 1, 2, 3, 4, 5, 64, 1000] {
        let b = sample(n);
        let mut text = enc::<Base64>(&b);
        let fresh = dec::<Base64>(&text).unwrap();
        let len = Base64::decode_in_place(&mut text).unwrap();
        assert_eq!(&text[..len], &fresh[..]);
        let mut text = enc::<Base64UrlUnpadded>(&b);
        let fresh = dec::<Base64UrlUnpadded>(&text).unwrap();
        let len = Base64UrlUnpadded::decode_in_place(&mut text).unwrap();
        assert_eq!(&text[..len], &fresh[..]);
    }
    let mut bad = b"Zm9*".to_vec();
    assert_eq!(Base64::decode_in_place(&mut bad), Err(InvalidEncodingError));
    let mut short = b"Zm9".to_vec();
    assert_eq!(Base64::decode_in_place(&mut short), Err(InvalidEncodingError));
}

#[test]
fn owned_forms() {
    assert_eq!(Base64::encode_string(&[0x66, 0x6f, 0x6f]), "Zm9v".to_string());
    assert_eq!(Base64Unpadded::encode_string(&[0x66]), "Zg".to_string());
    assert_eq!(Base64::decode_vec("Zm9vYg==").unwrap(), b"foob".to_vec());
    assert_eq!(Base64::decode_vec("Zm9vYg="), Err(Error::InvalidLength));
    assert_eq!(Base64::decode_vec("Zm9vY*=="), Err(Error::InvalidEncoding));
}

#[test]
fn greater_than_mask() {
    assert_eq!(match_gt_ct(-5, 10, 7), 0);
    assert_eq!(match_gt_ct(11, 10, 7), 7);
    assert_eq!(match_gt_ct(10, 10, 7), 0);
    assert_eq!(match_range_ct(b'Z', b'A', 0x5b, 3), 3);
    assert_eq!(match_range_ct(b'[', b'A', 0x5b, 3), 0);
    assert_eq!(match_eq_ct(255, 255, 1), 1);
}
