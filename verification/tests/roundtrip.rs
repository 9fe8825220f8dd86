use std::collections::HashSet;
use bytes::{Bytes, BytesMut};
use wire_framed::composite::{Data, Foo, Record, Sample};
use wire_framed::utils;
use wire_framed::{FromFrame, IntoFrame};

fn check_roundtrip<T: FromFrame + IntoFrame + PartialEq + std::fmt::Debug>(v: T) {
    let frame = v.into_frame();
    let back = T::from_frame(frame).unwrap();
    assert_eq!(back, v);
}

#[test]
fn roundtrip_bool() {
    check_roundtrip(true);
    check_roundtrip(false);
}

#[test]
fn roundtrip_unsigned() {
    check_roundtrip(0u8);
    check_roundtrip(0x7fu8);
    check_roundtrip(0xabcdu16);
    check_roundtrip(0xdeadbeefu32);
    check_roundtrip(0x0123456789abcdefu64);
    check_roundtrip(u64::MAX);
}

#[test]
fn roundtrip_signed() {
    check_roundtrip(-5i8);
    check_roundtrip(-1234i16);
    check_roundtrip(-123456789i32);
    check_roundtrip(i64::MIN);
    check_roundtrip(42i64);
}

#[test]
fn roundtrip_string() {
    check_roundtrip(String::new());
    check_roundtrip("hello".to_string());
    check_roundtrip("griaß di, wörld — ☃".to_string());
}

#[test]
fn roundtrip_option() {
    check_roundtrip(Some(77u32));
    check_roundtrip(None::<u32>);
    check_roundtrip(Some("x".to_string()));
}

#[test]
fn roundtrip_array() {
    check_roundtrip(Vec::<u32>::new());
    check_roundtrip(vec![1u32, 2, 3, 4]);
    check_roundtrip(vec!["a".to_string(), "b".to_string()]);
    check_roundtrip(vec![Some(1u8), None, Some(3)]);
}

#[test]
fn roundtrip_tuple() {
    check_roundtrip((1u32, 2u16));
    check_roundtrip((1u8, 2u16, 3u32));
    check_roundtrip((1u8, 2u16, 3u32, 4u64, 5i8, 6i16, 7i32, 8i64));
}

#[test]
fn roundtrip_set() {
    let mut set: HashSet<u32> = HashSet::new();
    set.insert(1);
    set.insert(500);
    set.insert(1_000_000);

    let mut buf = BytesMut::new();
    utils::put_hashset(&mut buf, &set);
    let mut bytes: Bytes = buf.freeze();
    let back: HashSet<u32> = utils::get_hashset(&mut bytes, "set").unwrap();
    assert_eq!(back, set);
    assert!(bytes.is_empty());
}

#[test]
fn roundtrip_composites() {
    check_roundtrip(Foo { a: 9, b: 10, c: "wire".to_string(), d: vec![255, 0, 1] });
    check_roundtrip(Record { id: 77, data: Data { a: 1, b: 2 } });
    check_roundtrip(Sample::Foo(5, 6, 7));
    check_roundtrip(Sample::Bar(11));
    check_roundtrip(Sample::Baz("deep".to_string()));
}
