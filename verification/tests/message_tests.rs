use bytes::{BufMut, Bytes, BytesMut};
use wire_framed::builder::MessageBuilder;
use wire_framed::message::{IntoMessage, Message};
use wire_framed::message_codec::MessageCodec;

fn eight_byte_frame() -> Bytes {
    Bytes::from_static(&[0, 0, 0, 0, 0, 0, 0, 42])
}

#[test]
fn message_fifo_order() {
    let mut msg = Message::new();
    msg.push(Bytes::from_static(&[1]));
    msg.push(Bytes::from_static(&[2]));
    msg.prepend(Bytes::from_static(&[0]));
    assert_eq!(msg.frame_count(), 3);
    assert_eq!(&msg.pop().unwrap()[..], &[0]);
    assert_eq!(&msg.pop().unwrap()[..], &[1]);
    assert_eq!(&msg.pop().unwrap()[..], &[2]);
    assert!(msg.pop().is_none());
}

#[test]
fn message_extend_and_concat() {
    let mut msg = Message::new();
    msg.extend(vec![Bytes::from_static(&[1]), Bytes::from_static(&[2])]);
    let mut tail = Message::new();
    tail.push(Bytes::from_static(&[3]));
    msg.push_message(tail);
    assert_eq!(msg.frame_count(), 3);
    assert_eq!(&msg.pop().unwrap()[..], &[1]);
    assert_eq!(&msg.pop().unwrap()[..], &[2]);
    assert_eq!(&msg.pop().unwrap()[..], &[3]);
}

#[test]
fn message_byte_count() {
    // each frame costs 4 (length prefix) + payload + 1 (marker)
    let mut msg = Message::new();
    msg.push(eight_byte_frame());
    msg.push(eight_byte_frame());
    msg.push(eight_byte_frame());
    assert_eq!(msg.byte_count(), 3 * (4 + 8 + 1));
    assert_eq!(Message::new().byte_count(), 0);
}

#[test]
fn builder_chain() {
    let mut sub = Message::new();
    sub.push(Bytes::from_static(&[2]));
    sub.push(Bytes::from_static(&[3]));
    let mut msg = MessageBuilder::new()
        .frame(Bytes::from_static(&[1]))
        .message(sub)
        .build();
    assert_eq!(msg.frame_count(), 3);
    assert_eq!(&msg.pop().unwrap()[..], &[1]);
    assert_eq!(&msg.pop().unwrap()[..], &[2]);
    assert_eq!(&msg.pop().unwrap()[..], &[3]);
}

#[test]
fn into_message_impls() {
    let mut msg = Message::new();
    Bytes::from_static(&[7]).extend_message(&mut msg);
    let mut other = Message::new();
    other.push(Bytes::from_static(&[8]));
    other.extend_message(&mut msg);
    assert_eq!(msg.frame_count(), 2);
    assert_eq!(&msg.pop().unwrap()[..], &[7]);
    assert_eq!(&msg.pop().unwrap()[..], &[8]);
}

#[test]
fn message_encode_three_frames() {
    // three identical 8-byte frames: three repetitions of
    // prefix + payload + marker 1, except the last ends in 0
    let mut msg = Message::new();
    msg.push(eight_byte_frame());
    msg.push(eight_byte_frame());
    msg.push(eight_byte_frame());

    let mut codec = MessageCodec::new();
    let mut dst = BytesMut::new();
    codec.encode(&msg, &mut dst);

    let rep = [0u8, 0, 0, 8, 0, 0, 0, 0, 0, 0, 0, 42];
    let mut expected = Vec::new();
    expected.extend_from_slice(&rep);
    expected.push(1);
    expected.extend_from_slice(&rep);
    expected.push(1);
    expected.extend_from_slice(&rep);
    expected.push(0);
    assert_eq!(&dst[..], &expected[..]);
}

#[test]
fn message_empty_encodes_to_nothing() {
    // encoding an empty message produces zero bytes; decoding an empty
    // buffer yields "incomplete", not an error and not an empty message
    let msg = Message::new();
    let mut codec = MessageCodec::new();
    let mut dst = BytesMut::new();
    codec.encode(&msg, &mut dst);
    assert_eq!(dst.len(), 0);

    let mut src = BytesMut::new();
    let r = codec.decode(&mut src).unwrap();
    assert!(r.is_none());
}

#[test]
fn message_marker_validation() {
    // a continuation marker outside {0, 1} fails decode
    let mut codec = MessageCodec::new();
    let mut src = BytesMut::new();
    src.put_slice(&[0, 0, 0, 1, 0xAA, 7]);
    let r = codec.decode(&mut src);
    assert!(r.is_err());
    assert_eq!(r.unwrap_err().field, "continuation marker");
}

#[test]
fn message_roundtrip() {
    let mut msg = Message::new();
    msg.push(Bytes::from_static(&[1, 2, 3]));
    msg.push(Bytes::from_static(&[]));
    msg.push(Bytes::from_static(&[4]));

    let mut codec = MessageCodec::new();
    let mut wire = BytesMut::new();
    codec.encode(&msg, &mut wire);

    let mut decoded = codec.decode(&mut wire).unwrap().unwrap();
    assert!(wire.is_empty());
    assert_eq!(decoded.frame_count(), 3);
    assert_eq!(&decoded.pop().unwrap()[..], &[1, 2, 3]);
    assert_eq!(decoded.pop().unwrap().len(), 0);
    assert_eq!(&decoded.pop().unwrap()[..], &[4]);
}

#[test]
fn message_decode_byte_at_a_time() {
    // arbitrary chunking: a message fed one byte at a time decodes the
    // same as the whole buffer at once
    let mut msg = Message::new();
    msg.push(Bytes::from_static(&[10, 20]));
    msg.push(Bytes::from_static(&[30]));

    let mut codec = MessageCodec::new();
    let mut wire = BytesMut::new();
    codec.encode(&msg, &mut wire);
    let wire = wire.freeze();

    let mut decoder = MessageCodec::new();
    let mut src = BytesMut::new();
    let mut done = None;
    for (i, b) in wire.iter().enumerate() {
        src.put_u8(*b);
        match decoder.decode(&mut src).unwrap() {
            Some(m) => {
                assert_eq!(i, wire.len() - 1);
                done = Some(m);
            },
            None => assert!(i < wire.len() - 1),
        }
    }
    let mut m = done.unwrap();
    assert_eq!(m.frame_count(), 2);
    assert_eq!(&m.pop().unwrap()[..], &[10, 20]);
    assert_eq!(&m.pop().unwrap()[..], &[30]);
}

#[test]
fn message_decode_in_uneven_chunks() {
    // chunk boundaries falling inside prefixes, payloads and markers
    let mut msg = Message::new();
    msg.push(Bytes::from_static(&[1, 2, 3, 4, 5]));
    msg.push(Bytes::from_static(&[6]));

    let mut codec = MessageCodec::new();
    let mut wire = BytesMut::new();
    codec.encode(&msg, &mut wire);
    let wire = wire.freeze();

    for chunk_len in 1..wire.len() {
        let mut decoder = MessageCodec::new();
        let mut src = BytesMut::new();
        let mut done = None;
        for chunk in wire.chunks(chunk_len) {
            src.put_slice(chunk);
            if let Some(m) = decoder.decode(&mut src).unwrap() {
                done = Some(m);
            }
        }
        let mut m = done.expect("message should complete");
        assert_eq!(m.frame_count(), 2);
        assert_eq!(&m.pop().unwrap()[..], &[1, 2, 3, 4, 5]);
        assert_eq!(&m.pop().unwrap()[..], &[6]);
    }
}
