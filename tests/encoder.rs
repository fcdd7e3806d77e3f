use base64ct::der::{Encoder, ErrorKind, Length, Tag};
use base64ct::values::{Encodable, Null, OctetString};

#[test]
fn overlength_message() {
    let buffer: Vec<u8> = Vec::new();
    let mut encoder = Encoder::new(buffer);
    let err = false.encode(&mut encoder).err().unwrap();
    assert_eq!(err.kind(), ErrorKind::Overlength);
    assert_eq!(err.position(), Some(Length::zero()));
}

#[test]
fn boolean_and_null_records() {
    let mut encoder = Encoder::new(vec![0u8; 8]);
    assert!(encoder.encode(&true).is_ok());
    assert!(encoder.null().is_ok());
    assert!(!encoder.is_failed());
    let out = encoder.finish().unwrap();
    assert_eq!(out, vec![0x01, 0x01, 0xff, 0x05, 0x00]);
}

#[test]
fn octet_string_record() {
    let mut encoder = Encoder::new(vec![0u8; 16]);
    assert!(encoder.octet_string(&[1, 2, 3]).is_ok());
    assert_eq!(encoder.finish().unwrap(), vec![0x04, 0x03, 1, 2, 3]);
}

#[test]
fn long_form_length() {
    let content = vec![0xaau8; 200];
    let mut encoder = Encoder::new(vec![0u8; 300]);
    assert!(encoder.octet_string(&content).is_ok());
    let out = encoder.finish().unwrap();
    assert_eq!(out.len(), 203);
    assert_eq!(&out[..3], &[0x04, 0x81, 200]);
    let content = vec![0x55u8; 0x1234];
    let mut encoder = Encoder::new(vec![0u8; 0x2000]);
    assert!(encoder.octet_string(&content).is_ok());
    let out = encoder.finish().unwrap();
    assert_eq!(&out[..4], &[0x04, 0x82, 0x12, 0x34]);
    assert_eq!(out.len(), 0x1234 + 4);
}

#[test]
fn string_records() {
    let mut encoder = Encoder::new(vec![0u8; 64]);
    assert!(encoder.ia5_string(b"ab").is_ok());
    assert!(encoder.printable_string(b"A 1").is_ok());
    assert!(encoder.utf8_string("\u{e9}").is_ok());
    assert!(encoder.bit_string(&[0x80]).is_ok());
    let out = encoder.finish().unwrap();
    assert_eq!(
        out,
        vec![
            0x16, 0x02, b'a', b'b', 0x13, 0x03, b'A', b' ', b'1', 0x0c, 0x02, 0xc3, 0xa9, 0x03,
            0x02, 0x00, 0x80
        ]
    );
}

#[test]
fn invalid_value_taints() {
    let mut encoder = Encoder::new(vec![0u8; 64]);
    let err = encoder.ia5_string(&[0x80]).err().unwrap();
    assert_eq!(err.kind(), ErrorKind::Value { tag: Tag::Ia5String });
    assert_eq!(err.position(), Some(Length::zero()));
    assert!(encoder.is_failed());
    let err = encoder.null().err().unwrap();
    assert_eq!(err.kind(), ErrorKind::Failed);
    assert_eq!(encoder.finish().err().unwrap().kind(), ErrorKind::Failed);
}

#[test]
fn printable_rejects_star() {
    let mut encoder = Encoder::new(vec![0u8; 64]);
    let err = encoder.printable_string(b"a*b").err().unwrap();
    assert_eq!(err.kind(), ErrorKind::Value { tag: Tag::PrintableString });
}

#[test]
fn error_taints_and_keeps_position() {
    let mut encoder = Encoder::new(vec![0u8; 4]);
    assert!(encoder.null().is_ok());
    let err = encoder.octet_string(&[1, 2, 3]).err().unwrap();
    assert_eq!(err.kind(), ErrorKind::Overlength);
    assert!(encoder.is_failed());
    let err = encoder.error::<()>(ErrorKind::Truncated).err().unwrap();
    assert_eq!(err.kind(), ErrorKind::Truncated);
}

#[test]
fn encode_nests_error_position() {
    let mut encoder = Encoder::new(vec![0u8; 3]);
    assert!(encoder.null().is_ok());
    let err = encoder.encode(&Null).err().unwrap();
    assert_eq!(err.kind(), ErrorKind::Overlength);
    let mut two = Length::zero();
    two = two.checked_add(Length::from_usize(2).unwrap()).unwrap();
    two = two.checked_add(Length::from_usize(2).unwrap()).unwrap();
    assert_eq!(err.position(), Some(two));
}

#[test]
fn reserve_moves_position() {
    let mut encoder = Encoder::new(vec![0u8; 5]);
    assert_eq!(encoder.reserve(2).unwrap(), 0);
    assert_eq!(encoder.reserve(3).unwrap(), 2);
    let err = encoder.reserve(1).err().unwrap();
    assert_eq!(err.kind(), ErrorKind::Overlength);
}

#[test]
fn sequence_record() {
    let items = vec![OctetString::new(&[7]).unwrap(), OctetString::new(&[8, 9]).unwrap()];
    let mut encoder = Encoder::new(vec![0u8; 32]);
    assert!(encoder.sequence(&items).is_ok());
    assert_eq!(
        encoder.finish().unwrap(),
        vec![0x30, 0x07, 0x04, 0x01, 7, 0x04, 0x02, 8, 9]
    );
    assert_eq!(items[0].encode_to_vec(), vec![0x04, 0x01, 7]);
}
