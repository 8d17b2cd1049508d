use peer_tracker::wire::{
    decode_frame, decode_prefix, encode_frame, encode_prefix, FrameError, ProtocolMessage,
    MAX_PAYLOAD_LEN, PREFIX_LEN,
};

#[test]
fn prefix_is_four_bytes_most_significant_first() {
    assert_eq!(PREFIX_LEN, 4);
    assert_eq!(encode_prefix(0), [0, 0, 0, 0]);
    assert_eq!(encode_prefix(1), [0, 0, 0, 1]);
    assert_eq!(encode_prefix(0x0102_0304), [1, 2, 3, 4]);
    assert_eq!(encode_prefix(258), [0, 0, 1, 2]);
    assert_eq!(encode_prefix(MAX_PAYLOAD_LEN), [255, 255, 255, 255]);
}

#[test]
fn prefix_agrees_with_the_standard_conversion() {
    for len in [0u32, 1, 255, 256, 65_535, 65_536, 16_777_215, 16_777_216, 0xdead_beef, u32::MAX] {
        assert_eq!(encode_prefix(len), len.to_be_bytes());
        assert_eq!(decode_prefix(&len.to_be_bytes()), len);
    }
}

#[test]
fn decode_prefix_reads_the_length() {
    assert_eq!(decode_prefix(&[0, 0, 0, 0]), 0);
    assert_eq!(decode_prefix(&[0, 0, 1, 0]), 256);
    assert_eq!(decode_prefix(&[1, 2, 3, 4]), 0x0102_0304);
    assert_eq!(decode_prefix(&[255, 255, 255, 255]), u32::MAX);
}

#[test]
fn frame_is_prefix_then_payload() {
    assert_eq!(encode_frame(&[7, 9]), Ok(vec![0, 0, 0, 2, 7, 9]));
    assert_eq!(encode_frame(&[]), Ok(vec![0, 0, 0, 0]));
    let payload = vec![0xabu8; 300];
    let frame = encode_frame(&payload).unwrap();
    assert_eq!(&frame[..4], &[0, 0, 1, 44]);
    assert_eq!(&frame[4..], &payload[..]);
}

#[test]
fn frame_round_trip() {
    let payload: Vec<u8> = (0..=255u8).cycle().take(1000).collect();
    let frame = encode_frame(&payload).unwrap();
    assert_eq!(decode_frame(&frame), Ok((payload, 1004)));
}

#[test]
fn decode_frame_leaves_what_follows() {
    let mut bytes = encode_frame(&[1, 2, 3]).unwrap();
    bytes.extend_from_slice(&encode_frame(&[4]).unwrap());
    let (first, used) = decode_frame(&bytes).unwrap();
    assert_eq!((first, used), (vec![1, 2, 3], 7));
    assert_eq!(decode_frame(&bytes[used..]), Ok((vec![4], 5)));
}

#[test]
fn decode_frame_of_short_bytes_is_truncated() {
    assert_eq!(decode_frame(&[]), Err(FrameError::Truncated));
    assert_eq!(decode_frame(&[0, 0, 0]), Err(FrameError::Truncated));
    assert_eq!(decode_frame(&[0, 0, 0, 2, 7]), Err(FrameError::Truncated));
    assert_eq!(decode_frame(&[255, 255, 255, 255, 1, 2, 3]), Err(FrameError::Truncated));
}

#[test]
fn decode_frame_of_empty_payload() {
    assert_eq!(decode_frame(&[0, 0, 0, 0]), Ok((vec![], 4)));
    assert_eq!(decode_frame(&[0, 0, 0, 0, 9]), Ok((vec![], 4)));
}

#[test]
fn message_clone_is_equal() {
    let ping = ProtocolMessage::Ping { address: "tracker.onion".to_string(), port: 8080 };
    let pong = ProtocolMessage::Pong { address: "peer.onion".to_string() };
    assert_eq!(ping.clone(), ping);
    assert_eq!(pong.clone(), pong);
    assert_ne!(ping, pong);
}
