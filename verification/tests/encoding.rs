use bytes::Bytes;
use wire_framed::composite::{Foo, Sample};
use wire_framed::IntoFrame;

#[test]
fn encoding_test1() {
    let foo = Foo {
        a: 1,
        b: 2,
        c: "hello".to_string(),
        d: vec![1, 2, 3, 4],
    };

    let frame = foo.into_frame();
    let result = Bytes::from_static(&[
        0, 0, 0, 1, // a
        0, 2, // b
        0, 0, 0, 5, // c
        104, 101, 108, 108, 111, // c
        0, 0, 0, 4, // d
        1, 2, 3, 4, // d
    ]);

    assert_eq!(frame, result);
}

#[test]
fn encoding_enum_test1() {
    let foo = Sample::Baz("John".to_string());

    assert_eq!(foo.size_hint(), 8);

    let frame = foo.into_frame();
    let result = Bytes::from_static(&[
        2, // Baz
        0, 0, 0, 4, // length
        74, 111, 104, 110, // John
    ]);

    assert_eq!(frame, result);
}
