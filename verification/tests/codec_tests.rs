use taskplane::codec::{decode_frame, encode_frame, FrameError, FrameStep, RecvBuffer};

#[test]
fn frame_round_trip() {
    let payload = vec![1u8, 2, 3];
    let framed = encode_frame(&payload);
    assert_eq!(framed.len(), 7);
    assert_eq!(&framed[..4], &[3, 0, 0, 0]);
    match decode_frame(&framed) {
        Ok(FrameStep::Frame(p, consumed)) => {
            assert_eq!(p, vec![1u8, 2, 3]);
            assert_eq!(consumed, 7);
        },
        _ => panic!("expected a whole frame"),
    }
}

#[test]
fn frame_round_trip_empty_payload() {
    let framed = encode_frame(&[]);
    assert_eq!(framed, vec![0u8, 0, 0, 0]);
    match decode_frame(&framed) {
        Ok(FrameStep::Frame(p, consumed)) => {
            assert!(p.is_empty());
            assert_eq!(consumed, 4);
        },
        _ => panic!("expected a whole frame"),
    }
}

#[test]
fn decode_short_header_incomplete() {
    assert!(matches!(decode_frame(&[5, 0, 0]), Ok(FrameStep::Incomplete)));
}

#[test]
fn decode_short_payload_incomplete() {
    // header announces 5 bytes, only 2 arrived
    assert!(matches!(
        decode_frame(&[5, 0, 0, 0, 9, 9]),
        Ok(FrameStep::Incomplete)
    ));
}

#[test]
fn decode_oversize_is_fatal() {
    // little-endian 8 MiB + 1
    let bad = vec![0x01u8, 0x00, 0x80, 0x00];
    assert_eq!(decode_frame(&bad), Err(FrameError::Oversize));
}

#[test]
fn recv_buffer_reassembles_chopped_frames() {
    let f1 = encode_frame(&[10, 20]);
    let f2 = encode_frame(&[30]);
    let mut stream: Vec<u8> = Vec::new();
    stream.extend_from_slice(&f1);
    stream.extend_from_slice(&f2);

    let mut buf = RecvBuffer::new();
    // deliver the bytes in awkward chunks
    buf.feed(&stream[..3]);
    assert_eq!(buf.next_frame(), Ok(None));
    buf.feed(&stream[3..7]);
    buf.feed(&stream[7..]);
    assert_eq!(buf.next_frame(), Ok(Some(vec![10, 20])));
    assert_eq!(buf.next_frame(), Ok(Some(vec![30])));
    assert_eq!(buf.next_frame(), Ok(None));
}

#[test]
fn recv_buffer_oversize_is_fatal() {
    let mut buf = RecvBuffer::new();
    buf.feed(&[0x01, 0x00, 0x80, 0x00, 1, 2, 3]);
    assert_eq!(buf.next_frame(), Err(FrameError::Oversize));
}
