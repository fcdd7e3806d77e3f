use base64ct::der::{Encoder, ErrorKind, Tag};
use base64ct::time::DateTime;

#[test]
fn utc_time_record() {
    let dt = DateTime::new(2019, 12, 31, 23, 59, 59).unwrap();
    let mut encoder = Encoder::new(vec![0u8; 32]);
    assert!(encoder.utc_time(dt).is_ok());
    let mut expected = vec![0x17, 0x0d];
    expected.extend_from_slice(b"191231235959Z");
    assert_eq!(encoder.finish().unwrap(), expected);
}

#[test]
fn generalized_time_record() {
    let dt = DateTime::new(1999, 1, 2, 3, 4, 5).unwrap();
    let mut encoder = Encoder::new(vec![0u8; 32]);
    assert!(encoder.generalized_time(dt).is_ok());
    let mut expected = vec![0x18, 0x0f];
    expected.extend_from_slice(b"19990102030405Z");
    assert_eq!(encoder.finish().unwrap(), expected);
}

#[test]
fn utc_time_out_of_range() {
    let dt = DateTime::new(2050, 1, 1, 0, 0, 0).unwrap();
    let mut encoder = Encoder::new(vec![0u8; 32]);
    let err = encoder.utc_time(dt).err().unwrap();
    assert_eq!(err.kind(), ErrorKind::Value { tag: Tag::UtcTime });
    assert!(encoder.is_failed());
}

#[test]
fn date_time_validation() {
    assert!(DateTime::new(2020, 2, 29, 0, 0, 0).is_ok());
    assert_eq!(DateTime::new(2021, 2, 29, 0, 0, 0).err().unwrap().kind(), ErrorKind::DateTime);
    assert_eq!(DateTime::new(1900, 2, 29, 0, 0, 0).err().unwrap().kind(), ErrorKind::DateTime);
    assert!(DateTime::new(2000, 2, 29, 0, 0, 0).is_ok());
    assert!(DateTime::new(2021, 4, 31, 0, 0, 0).is_err());
    assert!(DateTime::new(2021, 13, 1, 0, 0, 0).is_err());
    assert!(DateTime::new(2021, 1, 1, 24, 0, 0).is_err());
}
