use bytes::Bytes;
use wire_framed::composite::{Foo, Sample};
use wire_framed::FromFrame;

#[test]
fn decoding_test1() {
    let frame = Bytes::from_static(&[
        0, 0, 0, 1, // a
        0, 2, // b
        0, 0, 0, 5, // c
        104, 101, 108, 108, 111, // c
        0, 0, 0, 4, // d
        1, 2, 3, 4, // d
    ]);
    let foo = Foo::from_frame(frame).unwrap();

    let result = Foo {
        a: 1,
        b: 2,
        c: "hello".to_string(),
        d: vec![1, 2, 3, 4],
    };

    assert_eq!(foo, result);
}

#[test]
fn tuple_test() {
    let frame = Bytes::from_static(&[
        0, 0, 0, 1, // 0
        0, 0, 0, 2, // 1
    ]);
    let (a, b): (u32, u32) = FromFrame::from_frame(frame).unwrap();

    assert_eq!(a, 1);
    assert_eq!(b, 2);
}

#[test]
fn decoding_enum_test1() {
    let frame = Bytes::from_static(&[
        2, // Baz
        0, 0, 0, 4, // length
        74, 111, 104, 110, // John
    ]);
    let foo = Sample::from_frame(frame).unwrap();
    let result = Sample::Baz("John".to_string());
    assert_eq!(foo, result);

    let frame = Bytes::from_static(&[
        0, // Foo
        0, 0, 0, 3, // 0
        0, 0, 0, 3, // 1
        0, 3, // 2
    ]);
    let foo = Sample::from_frame(frame);
    println!("{:?}", foo);
}
