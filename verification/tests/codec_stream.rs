use bytes::{BufMut, Bytes, BytesMut};
use wire_framed::codec::FrameCodec;

#[test]
fn frame_encode_layout() {
    let mut codec = FrameCodec::new();
    let mut dst = BytesMut::new();
    codec.encode(Bytes::from_static(&[9, 8, 7]), &mut dst);
    assert_eq!(&dst[..], &[0, 0, 0, 3, 9, 8, 7]);
}

#[test]
fn frame_decode_whole() {
    let mut codec = FrameCodec::new();
    let mut src = BytesMut::new();
    src.put_slice(&[0, 0, 0, 3, 9, 8, 7, 77]);
    let frame = codec.decode(&mut src).unwrap();
    assert_eq!(&frame[..], &[9, 8, 7]);
    // bytes past the frame stay in the input buffer
    assert_eq!(&src[..], &[77]);
}

#[test]
fn frame_decode_byte_at_a_time() {
    // arbitrary chunking: feeding one byte at a time gives the same frame
    // as feeding the whole buffer at once
    let wire = [0u8, 0, 0, 4, 10, 20, 30, 40];
    let mut codec = FrameCodec::new();
    let mut src = BytesMut::new();
    let mut produced = Vec::new();
    for (i, b) in wire.iter().enumerate() {
        src.put_u8(*b);
        match codec.decode(&mut src) {
            Some(frame) => {
                assert_eq!(i, wire.len() - 1);
                produced.push(frame);
            },
            None => assert!(i < wire.len() - 1),
        }
    }
    assert_eq!(produced.len(), 1);
    assert_eq!(&produced[0][..], &[10, 20, 30, 40]);
}

#[test]
fn frame_decode_split_header() {
    // a chunk boundary inside the length prefix leaves the prefix unread
    let mut codec = FrameCodec::new();
    let mut src = BytesMut::new();
    src.put_slice(&[0, 0]);
    assert!(codec.decode(&mut src).is_none());
    assert_eq!(src.len(), 2);
    src.put_slice(&[0, 2, 5]);
    assert!(codec.decode(&mut src).is_none());
    src.put_u8(6);
    let frame = codec.decode(&mut src).unwrap();
    assert_eq!(&frame[..], &[5, 6]);
}

#[test]
fn frame_zero_length() {
    // a zero-length frame completes as soon as its prefix is read
    let mut codec = FrameCodec::new();
    let mut src = BytesMut::new();
    src.put_slice(&[0, 0, 0, 0]);
    let frame = codec.decode(&mut src).unwrap();
    assert_eq!(frame.len(), 0);
}

#[test]
fn frame_codec_reusable() {
    // the codec resets after emitting and decodes the next frame
    let mut codec = FrameCodec::new();
    let mut src = BytesMut::new();
    src.put_slice(&[0, 0, 0, 1, 111, 0, 0, 0, 1, 222]);
    let one = codec.decode(&mut src).unwrap();
    let two = codec.decode(&mut src).unwrap();
    assert_eq!(&one[..], &[111]);
    assert_eq!(&two[..], &[222]);
    assert!(src.is_empty());
}
