use bytes::{BufMut, Bytes, BytesMut};
use wire_framed::utils;
use wire_framed::FromFrame;
use wire_framed::composite::Sample;

#[test]
fn readers_exact_values() {
    let mut b = Bytes::from_static(&[1, 2, 3, 4, 5, 6, 7, 8]);
    assert_eq!(utils::get_u64(&mut b, "v").unwrap(), 0x0102030405060708);

    let mut b = Bytes::from_static(&[1, 2, 3, 4]);
    assert_eq!(utils::get_u32(&mut b, "v").unwrap(), 0x01020304);

    let mut b = Bytes::from_static(&[0xAB, 0xCD]);
    assert_eq!(utils::get_u16(&mut b, "v").unwrap(), 0xABCD);

    let mut b = Bytes::from_static(&[0x80]);
    assert_eq!(utils::get_u8(&mut b, "v").unwrap(), 0x80);

    let mut b = Bytes::from_static(&[0xFF]);
    assert_eq!(utils::get_i8(&mut b, "v").unwrap(), -1);

    let mut b = Bytes::from_static(&[0xFF, 0xFE]);
    assert_eq!(utils::get_i16(&mut b, "v").unwrap(), -2);

    let mut b = Bytes::from_static(&[0xFF, 0xFF, 0xFF, 0xFD]);
    assert_eq!(utils::get_i32(&mut b, "v").unwrap(), -3);

    let mut b = Bytes::from_static(&[0xFF; 8]);
    assert_eq!(utils::get_i64(&mut b, "v").unwrap(), -1);

    let mut b = Bytes::from_static(&[0, 7]);
    assert!(!utils::get_bool(&mut b, "v").unwrap());
    assert!(utils::get_bool(&mut b, "v").unwrap());
}

#[test]
fn reader_advances_cursor() {
    let mut b = Bytes::from_static(&[0, 1, 0, 2, 0, 3]);
    assert_eq!(utils::get_u16(&mut b, "v").unwrap(), 1);
    assert_eq!(utils::get_u16(&mut b, "v").unwrap(), 2);
    assert_eq!(utils::get_u16(&mut b, "v").unwrap(), 3);
    assert!(b.is_empty());
}

#[test]
fn writers_exact_layout() {
    let mut dst = BytesMut::new();
    utils::put_u16(&mut dst, 0x0102);
    utils::put_u32(&mut dst, 0x03040506);
    utils::put_u64(&mut dst, 0x0708090A0B0C0D0E);
    utils::put_str(&mut dst, "hi");
    assert_eq!(
        &dst[..],
        &[1, 2, 3, 4, 5, 6, 7, 8, 9, 0x0A, 0x0B, 0x0C, 0x0D, 0x0E, 0, 0, 0, 2, b'h', b'i'],
    );
}

#[test]
fn short_reads_fail_with_field_name() {
    let mut b = Bytes::from_static(&[1, 2, 3]);
    let e = utils::get_u32(&mut b, "count").unwrap_err();
    assert_eq!(e.field, "count");

    let mut b = Bytes::from_static(&[]);
    assert!(utils::get_bool(&mut b, "flag").is_err());
    let mut b = Bytes::from_static(&[0]);
    assert!(utils::get_u16(&mut b, "x").is_err());
    let mut b = Bytes::from_static(&[0; 7]);
    assert!(utils::get_u64(&mut b, "x").is_err());
}

#[test]
fn string_errors() {
    // declared length exceeds the remaining bytes
    let mut b = Bytes::from_static(&[0, 0, 0, 9, b'a']);
    assert!(utils::get_string(&mut b, "s").is_err());

    // invalid UTF-8 payload
    let mut b = Bytes::from_static(&[0, 0, 0, 2, 0xC3, 0x28]);
    assert!(utils::get_string(&mut b, "s").is_err());

    // valid payload, trailing bytes stay
    let mut b = Bytes::from_static(&[0, 0, 0, 2, 0xC3, 0xA9, 9]);
    assert_eq!(utils::get_string(&mut b, "s").unwrap(), "é");
    assert_eq!(&b[..], &[9]);
}

#[test]
fn option_tag_errors() {
    // tag 0: absent
    let mut b = Bytes::from_static(&[0]);
    assert_eq!(utils::get_option::<u8>(&mut b, "o").unwrap(), None);

    // tag 1: present, followed by the value
    let mut b = Bytes::from_static(&[1, 42]);
    assert_eq!(utils::get_option::<u8>(&mut b, "o").unwrap(), Some(42));

    // any other tag is invalid
    let mut b = Bytes::from_static(&[2, 42]);
    assert!(utils::get_option::<u8>(&mut b, "o").is_err());
}

#[test]
fn array_element_shortfall() {
    // count says three elements, only two are present
    let mut b = Bytes::from_static(&[0, 0, 0, 3, 0, 1, 0, 2]);
    assert!(utils::get_array::<u16>(&mut b, "arr").is_err());

    let mut b = Bytes::from_static(&[0, 0, 0, 2, 0, 1, 0, 2]);
    assert_eq!(utils::get_array::<u16>(&mut b, "arr").unwrap(), vec![1, 2]);
}

#[test]
fn option_array_layout() {
    let mut dst = BytesMut::new();
    utils::put_option_array(&mut dst, &[Some(5u8), None, Some(6u8)]);
    assert_eq!(&dst[..], &[0, 0, 0, 3, 1, 5, 0, 1, 6]);

    let mut b: Bytes = dst.freeze();
    let back = utils::get_option_array::<u8>(&mut b, "oa").unwrap();
    assert_eq!(back, vec![Some(5), None, Some(6)]);
}

#[test]
fn enum_kind_errors() {
    // discriminant past the declared variants
    let b = Bytes::from_static(&[3, 0, 0]);
    let e = Sample::from_frame(b).unwrap_err();
    assert_eq!(e.field, "kind");

    // truncated variant payload
    let b = Bytes::from_static(&[1, 0]);
    assert!(Sample::from_frame(b).is_err());
}

#[test]
fn from_frame_ignores_trailing_bytes() {
    let mut buf = BytesMut::new();
    buf.put_u32(7);
    buf.put_slice(&[0xEE, 0xEE]);
    let v = u32::from_frame(buf.freeze()).unwrap();
    assert_eq!(v, 7);
}
