//! The wire format.

use bytes::{BufMut, Bytes, BytesMut};
use peaplex::{
    Error, ErrorKind, Flag, Frame, FrameCodec, StreamId, FLAG_CLOSE, FLAG_DATA, FLAG_GOAWAY,
    FLAG_OPEN, FRAME_HEADER_LEN, MAX_FRAME_PAYLOAD,
};

fn encoded(frame: Frame) -> BytesMut {
    let mut buf = BytesMut::new();
    FrameCodec.encode(frame, &mut buf).unwrap();
    buf
}

fn round_trip(frame: Frame) -> Frame {
    let mut buf = BytesMut::new();
    FrameCodec.encode(frame.clone(), &mut buf).unwrap();
    let mut slice = buf.clone();
    let decoded = FrameCodec.decode(&mut slice).unwrap().unwrap();
    assert!(FrameCodec.decode(&mut slice).unwrap().is_none());
    assert_eq!(decoded, frame);
    // Encoding the same frame again must be byte-for-byte identical.
    let mut buf2 = BytesMut::new();
    FrameCodec.encode(frame, &mut buf2).unwrap();
    assert_eq!(buf, buf2);
    decoded
}

#[test]
fn header_layout() {
    let frame = Frame::data(StreamId(0x01020304), Bytes::from_static(b"hi"));
    let mut buf = BytesMut::new();
    FrameCodec.encode(frame, &mut buf).unwrap();
    // 1 byte flag + 4 bytes id + 4 bytes length
    assert_eq!(buf.len(), FRAME_HEADER_LEN + 2);
    assert_eq!(buf[0], FLAG_DATA);
    assert_eq!(&buf[1..5], &[0x01, 0x02, 0x03, 0x04]);
    assert_eq!(&buf[5..9], &[0, 0, 0, 2]);
    assert_eq!(&buf[9..], b"hi");
}

#[test]
fn empty_payloads() {
    round_trip(Frame::open(StreamId(1)));
    round_trip(Frame::close(StreamId(2)));
    round_trip(Frame::data(StreamId(3), Bytes::new()));
}

#[test]
fn large_payload() {
    let payload = Bytes::copy_from_slice(&vec![0xABu8; 1024 * 1024]);
    round_trip(Frame::data(StreamId(42), payload));
}

#[test]
fn partial_then_complete() {
    let mut buf = BytesMut::new();
    let frame = Frame::data(StreamId(7), Bytes::from_static(b"hello"));
    FrameCodec.encode(frame, &mut buf).unwrap();
    // Feed one byte at a time and ensure the decoder never panics and
    // never returns a frame before the header + payload are present.
    let mut accum = BytesMut::new();
    for b in buf.iter() {
        accum.extend_from_slice(&[*b]);
        let mut tmp = accum.clone();
        match FrameCodec.decode(&mut tmp) {
            Ok(None) => {}
            Ok(Some(f)) => {
                assert_eq!(accum.len(), buf.len());
                assert_eq!(f.stream_id, StreamId(7));
                assert_eq!(&f.payload[..], b"hello");
                return;
            }
            Err(e) => panic!("decode error: {e:?}"),
        }
    }
    panic!("decoder never produced a frame");
}

#[test]
fn unknown_flag_rejected() {
    let mut buf = BytesMut::new();
    buf.put_u8(0xFF); // unknown flag
    buf.put_u32(1);
    buf.put_u32(0);
    let mut tmp = buf;
    let err = FrameCodec.decode(&mut tmp).unwrap_err();
    assert_eq!(err.kind(), ErrorKind::InvalidData);
    assert_eq!(err, Error::UnknownFlag);
}

#[test]
fn oversize_rejected() {
    let mut buf = BytesMut::new();
    buf.put_u8(FLAG_DATA);
    buf.put_u32(1);
    buf.put_u32(MAX_FRAME_PAYLOAD + 1);
    let mut tmp = buf;
    let err = FrameCodec.decode(&mut tmp).unwrap_err();
    assert_eq!(err.kind(), ErrorKind::InvalidData);
    assert_eq!(err, Error::FrameTooLarge);
}

#[test]
fn frame_codec_smoke() {
    let mut codec = FrameCodec;
    let mut buf = BytesMut::new();
    let f = Frame::data(StreamId(0x42), Bytes::from_static(b"abc"));
    codec.encode(f, &mut buf).unwrap();
    assert_eq!(buf[0], FLAG_DATA);
    let got = codec.decode(&mut buf).unwrap().unwrap();
    assert_eq!(got.stream_id, StreamId(0x42));
    assert_eq!(&got.payload[..], b"abc");
    assert!(codec.decode(&mut buf).unwrap().is_none());

    let f = Frame::close(StreamId(7));
    codec.encode(f, &mut buf).unwrap();
    assert_eq!(buf[buf.len() - 9], FLAG_CLOSE);
}

#[test]
fn every_frame_has_its_exact_bytes() {
    assert_eq!(&encoded(Frame::open(StreamId(1)))[..], &[1, 0, 0, 0, 1, 0, 0, 0, 0]);
    assert_eq!(
        &encoded(Frame::data(StreamId(0xA0B0C0D0), Bytes::from_static(&[9, 8, 7])))[..],
        &[2, 0xA0, 0xB0, 0xC0, 0xD0, 0, 0, 0, 3, 9, 8, 7]
    );
    assert_eq!(&encoded(Frame::close(StreamId(258)))[..], &[4, 0, 0, 1, 2, 0, 0, 0, 0]);
    assert_eq!(
        &encoded(Frame::goaway(0xDEADBEEF))[..],
        &[8, 0, 0, 0, 0, 0, 0, 0, 4, 0xDE, 0xAD, 0xBE, 0xEF]
    );
}

#[test]
fn encoding_appends() {
    let mut buf = BytesMut::from(&b"before"[..]);
    FrameCodec.encode(Frame::close(StreamId(3)), &mut buf).unwrap();
    assert_eq!(&buf[..], b"before\x04\x00\x00\x00\x03\x00\x00\x00\x00");
}

#[test]
fn decoding_leaves_what_follows() {
    let mut buf = encoded(Frame::data(StreamId(5), Bytes::from_static(b"one")));
    buf.extend_from_slice(b"\x01\x00");
    let frame = FrameCodec.decode(&mut buf).unwrap().unwrap();
    assert_eq!(frame, Frame::data(StreamId(5), Bytes::from_static(b"one")));
    assert_eq!(&buf[..], b"\x01\x00");
    assert!(FrameCodec.decode(&mut buf).unwrap().is_none());
    assert_eq!(&buf[..], b"\x01\x00");
}

#[test]
fn malformed_bytes_stay_where_they_are() {
    let mut buf = BytesMut::from(&[0u8, 1, 2, 3, 4, 5, 6, 7, 8, 9][..]);
    assert_eq!(FrameCodec.decode(&mut buf).unwrap_err(), Error::UnknownFlag);
    assert_eq!(&buf[..], &[0, 1, 2, 3, 4, 5, 6, 7, 8, 9]);
}

#[test]
fn short_input_is_not_judged() {
    // Eight bytes are no header, whatever they say.
    let mut buf = BytesMut::from(&[0xFFu8; 8][..]);
    assert!(FrameCodec.decode(&mut buf).unwrap().is_none());
    assert_eq!(buf.len(), 8);
}

#[test]
fn largest_payload_is_accepted_and_one_more_is_not() {
    let limit = MAX_FRAME_PAYLOAD as usize;
    assert_eq!(limit, 16_777_216);
    let mut buf = encoded(Frame::data(StreamId(1), Bytes::from(vec![1u8; limit])));
    assert_eq!(buf.len(), FRAME_HEADER_LEN + limit);
    let frame = FrameCodec.decode(&mut buf).unwrap().unwrap();
    assert_eq!(frame.payload.len(), limit);

    let mut untouched = BytesMut::from(&b"x"[..]);
    let error = FrameCodec
        .encode(Frame::data(StreamId(1), Bytes::from(vec![1u8; limit + 1])), &mut untouched)
        .unwrap_err();
    assert_eq!(error, Error::FrameTooLarge);
    assert_eq!(error.kind(), ErrorKind::InvalidData);
    assert_eq!(&untouched[..], b"x");
}

#[test]
fn flags_and_bytes_correspond() {
    let pairs = [
        (Flag::Open, FLAG_OPEN, 0x01),
        (Flag::Data, FLAG_DATA, 0x02),
        (Flag::Close, FLAG_CLOSE, 0x04),
        (Flag::GoAway, FLAG_GOAWAY, 0x08),
    ];
    for (flag, constant, byte) in pairs {
        assert_eq!(constant, byte);
        assert_eq!(flag.to_u8(), byte);
        assert_eq!(Flag::from_u8(byte), Some(flag));
    }
    for byte in 0..=255u8 {
        let known = [0x01, 0x02, 0x04, 0x08].contains(&byte);
        assert_eq!(Flag::from_u8(byte).is_some(), known);
    }
}

#[test]
fn ids_tell_their_side() {
    assert_eq!(StreamId::new(7), StreamId(7));
    assert_eq!(StreamId::new(7).get(), 7);
    assert!(StreamId(1).is_initiator() && !StreamId(1).is_responder());
    assert!(StreamId(2).is_responder() && !StreamId(2).is_initiator());
    assert!(StreamId(u32::MAX).is_initiator());
    assert!(StreamId(0).is_responder());
    assert!(StreamId(1) < StreamId(2));
}

#[test]
fn frames_compare_and_copy_by_content() {
    let frame = Frame::data(StreamId(1), Bytes::from_static(b"same"));
    assert_eq!(frame.clone(), frame);
    assert_ne!(Frame::data(StreamId(1), Bytes::from_static(b"else")), frame);
    assert_ne!(Frame::data(StreamId(2), Bytes::from_static(b"same")), frame);
    assert_ne!(Frame::open(StreamId(1)), Frame::close(StreamId(1)));
}

#[test]
fn errors_have_their_kinds_and_messages() {
    let table = [
        (Error::UnknownFlag, ErrorKind::InvalidData, Some("unknown peaplex flag")),
        (Error::FrameTooLarge, ErrorKind::InvalidData, Some("peaplex frame too large")),
        (Error::Unencodable, ErrorKind::InvalidData, None),
        (
            Error::WriteTooLarge,
            ErrorKind::InvalidInput,
            Some("write buffer exceeds peaplex max frame size"),
        ),
        (Error::BrokenPipe, ErrorKind::BrokenPipe, None),
        (Error::Closed, ErrorKind::Other, None),
    ];
    for (error, kind, message) in table {
        assert_eq!(error.kind(), kind);
        assert_eq!(error.message(), message);
    }
}
