use bytes::{BufMut, Bytes, BytesMut};
use wire_framed::composite::{Data, Record};
use wire_framed::{FromFrame, IntoFrame};

#[test]
fn from_frame_test() {
    let mut frame = BytesMut::new();
    frame.put_u64(42);
    frame.put_u32(127);
    frame.put_u32(72);

    let parsed = Record::from_frame(frame.into()).unwrap();
    assert_eq!(parsed.id, 42);
    assert_eq!(parsed.data.a, 127);
    assert_eq!(parsed.data.b, 72);
}

#[test]
fn into_frame_test() {
    let test = Record { id: 42, data: Data { a: 127, b: 72 } };
    let result = test.into_frame();

    let target = Bytes::from_static(&[
        0, 0, 0, 0, 0, 0, 0, 42,
        0, 0, 0, 127,
        0, 0, 0, 72,
    ]);
    assert_eq!(&result, &target);
}
