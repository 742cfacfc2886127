use decthings_model::codec::{
    decode_data_event, decode_message_from_host, decode_result_or_event, encode_command,
    encode_data_event, encode_provide_data, encode_result_or_event, push_u32_be, push_u64_be,
    read_u32_be, read_u64_be, MessageFromHost,
};

#[test]
fn be_integers_round_trip() {
    let mut buf: Vec<u8> = Vec::new();
    push_u32_be(&mut buf, 0x01020304);
    push_u64_be(&mut buf, 0x05060708090a0b0c);
    assert_eq!(buf, vec![1, 2, 3, 4, 5, 6, 7, 8, 9, 10, 11, 12]);
    assert_eq!(read_u32_be(&buf, 0), 0x01020304);
    assert_eq!(read_u64_be(&buf, 4), 0x05060708090a0b0c);
}

#[test]
fn result_or_event_frame_layout() {
    let body = vec![0x7b, 0x7d];
    let extras = vec![vec![0xaa, 0xbb], vec![0xcc]];
    let frame = encode_result_or_event(&body, &extras);
    let mut expected = vec![0u8];
    expected.extend_from_slice(&[0, 0, 0, 2]);
    expected.extend_from_slice(&[0, 0, 0, 0, 0, 0, 0, 2]);
    expected.extend_from_slice(&body);
    expected.extend_from_slice(&[0, 0, 0, 0, 0, 0, 0, 2, 0xaa, 0xbb]);
    expected.extend_from_slice(&[0, 0, 0, 0, 0, 0, 0, 1, 0xcc]);
    expected.push(1);
    assert_eq!(frame, expected);
}

#[test]
fn result_or_event_round_trip() {
    let body = b"{\"id\":\"c1\"}".to_vec();
    let extras = vec![vec![1, 2, 3], vec![], vec![255; 70000]];
    let frame = encode_result_or_event(&body, &extras);
    let (dec_body, dec_extras, used) = decode_result_or_event(&frame).unwrap();
    assert_eq!(dec_body, body);
    assert_eq!(dec_extras, extras);
    assert_eq!(used, frame.len());
}

#[test]
fn result_or_event_round_trip_no_extras() {
    let body: Vec<u8> = Vec::new();
    let extras: Vec<Vec<u8>> = Vec::new();
    let frame = encode_result_or_event(&body, &extras);
    let (dec_body, dec_extras, used) = decode_result_or_event(&frame).unwrap();
    assert_eq!(dec_body, body);
    assert_eq!(dec_extras, extras);
    assert_eq!(used, frame.len());
}

#[test]
fn result_or_event_round_trip_with_trailing_bytes() {
    let body = vec![9, 9, 9];
    let extras = vec![vec![5]];
    let mut frame = encode_result_or_event(&body, &extras);
    let frame_len = frame.len();
    frame.extend_from_slice(&[1, 2, 3, 4]);
    let (dec_body, dec_extras, used) = decode_result_or_event(&frame).unwrap();
    assert_eq!(dec_body, body);
    assert_eq!(dec_extras, extras);
    assert_eq!(used, frame_len);
}

#[test]
fn truncated_frames_are_rejected() {
    let body = vec![1, 2, 3];
    let extras = vec![vec![4, 5]];
    let frame = encode_result_or_event(&body, &extras);
    for cut in 0..frame.len() {
        assert!(decode_result_or_event(&frame[..cut]).is_none());
    }
}

#[test]
fn bad_trailer_is_rejected() {
    let body = vec![1];
    let extras: Vec<Vec<u8>> = Vec::new();
    let mut frame = encode_result_or_event(&body, &extras);
    let last = frame.len() - 1;
    frame[last] = 0;
    assert!(decode_result_or_event(&frame).is_none());
}

#[test]
fn data_event_round_trip() {
    let body = b"{\"event\":\"requestData\"}".to_vec();
    let frame = encode_data_event(&body);
    assert_eq!(frame[0], 1);
    let (dec_body, used) = decode_data_event(&frame).unwrap();
    assert_eq!(dec_body, body);
    assert_eq!(used, frame.len());
}

#[test]
fn command_frame_round_trip() {
    let json = b"{\"method\":\"callCancelTrain\"}".to_vec();
    let frame = encode_command(&json);
    assert_eq!(frame[0], 0);
    match decode_message_from_host(&frame) {
        Some((MessageFromHost::Command { body }, used)) => {
            assert_eq!(body, json);
            assert_eq!(used, frame.len());
        },
        other => panic!("expected a command, got {:?}", other.is_some()),
    }
}

#[test]
fn provide_data_frame_round_trip() {
    let segments = vec![vec![0xaa], vec![], vec![7; 300]];
    let frame = encode_provide_data(1, 42, &segments);
    match decode_message_from_host(&frame) {
        Some((MessageFromHost::ProvideData { request_id, segments: segs }, used)) => {
            assert_eq!(request_id, 42);
            assert_eq!(segs, segments);
            assert_eq!(used, frame.len());
        },
        _ => panic!("expected a provide-data reply"),
    }
}

#[test]
fn provide_data_any_nonzero_tag() {
    let segments = vec![vec![0xaa]];
    let frame = encode_provide_data(0x7f, 0, &segments);
    match decode_message_from_host(&frame) {
        Some((MessageFromHost::ProvideData { request_id, segments: segs, .. }, _)) => {
            assert_eq!(request_id, 0);
            assert_eq!(segs, segments);
        },
        _ => panic!("expected a provide-data reply"),
    }
}

#[test]
fn empty_input_is_rejected() {
    assert!(decode_message_from_host(&[]).is_none());
    assert!(decode_result_or_event(&[]).is_none());
    assert!(decode_data_event(&[]).is_none());
}
