use wscore::codec::{
    apply_mask, decode_frame, decode_text_frame, encode_frame, encode_masked_frame,
    encode_text_frame, ext_len_of, frame_payload_len, mask_flag_of,
};

#[test]
fn mask_roundtrip_restores_payload() {
    let payload: Vec<u8> = vec![0x00, 0xff, 0x12, 0x34, 0x56, 0x78, 0x9a];
    let key: [u8; 4] = [0xde, 0xad, 0xbe, 0xef];
    let masked = apply_mask(&payload, &key);
    assert_ne!(masked, payload);
    let unmasked = apply_mask(&masked, &key);
    assert_eq!(unmasked, payload);
}

#[test]
fn decode_hello_frame() {
    let mut buf: Vec<u8> = vec![0x81, 0x05];
    buf.extend_from_slice(b"Hello");
    let decoded = decode_text_frame(&buf);
    let (text, used) = decoded.expect("a complete frame must decode");
    assert_eq!(text, "Hello");
    assert_eq!(used, 7);
}

#[test]
fn decode_masked_hello_frame() {
    let payload: Vec<u8> = b"Hello".to_vec();
    let key: [u8; 4] = [1, 2, 3, 4];
    let buf = encode_masked_frame(&payload, &key);
    assert_eq!(buf[0], 0x81);
    assert_eq!(buf[1], 0x80 | 0x05);
    let (text, used) = decode_text_frame(&buf).expect("a complete masked frame must decode");
    assert_eq!(text, "Hello");
    assert_eq!(used, buf.len());
}

#[test]
fn short_payload_uses_literal_length() {
    let payload: Vec<u8> = vec![7; 125];
    let frame = encode_frame(&payload);
    assert_eq!(frame[0], 0x81);
    assert_eq!(frame[1], 125);
    assert_eq!(frame.len(), 2 + 125);
    let (decoded, used) = decode_frame(&frame).expect("must decode");
    assert_eq!(decoded, payload);
    assert_eq!(used, frame.len());
}

#[test]
fn length_130_uses_sentinel_126_and_16_bit_extension() {
    let payload: Vec<u8> = vec![42; 130];
    let frame = encode_frame(&payload);
    assert_eq!(frame[0], 0x81);
    assert_eq!(frame[1], 126);
    assert_eq!(frame[2], 0);
    assert_eq!(frame[3], 130);
    assert_eq!(frame.len(), 4 + 130);
    let (decoded, used) = decode_frame(&frame).expect("must decode");
    assert_eq!(decoded.len(), 130);
    assert_eq!(decoded, payload);
    assert_eq!(used, frame.len());
}

#[test]
fn length_70000_uses_sentinel_127_and_64_bit_extension() {
    let payload: Vec<u8> = vec![9; 70000];
    let frame = encode_frame(&payload);
    assert_eq!(frame[0], 0x81);
    assert_eq!(frame[1], 127);
    assert_eq!(&frame[2..10], &70000u64.to_be_bytes());
    assert_eq!(frame.len(), 10 + 70000);
    let (decoded, used) = decode_frame(&frame).expect("must decode");
    assert_eq!(decoded.len(), 70000);
    assert_eq!(decoded, payload);
    assert_eq!(used, frame.len());
}

#[test]
fn truncation_at_any_stage_decodes_to_none() {
    let payload: Vec<u8> = b"ping".to_vec();
    let key: [u8; 4] = [9, 8, 7, 6];
    let frame = encode_masked_frame(&payload, &key);
    // header (2) + mask key (4) + payload (4)
    assert_eq!(frame.len(), 10);
    for cut in 0..frame.len() {
        let partial: Vec<u8> = frame[..cut].to_vec();
        assert!(decode_frame(&partial).is_none(), "cut at {cut} must yield None");
    }
    assert!(decode_frame(&frame).is_some());

    // a frame with a 16-bit extended length, cut inside the extension
    let long_payload: Vec<u8> = vec![1; 200];
    let long_frame = encode_frame(&long_payload);
    for cut in [0, 1, 2, 3, 100] {
        let partial: Vec<u8> = long_frame[..cut].to_vec();
        assert!(decode_frame(&partial).is_none(), "cut at {cut} must yield None");
    }
}

#[test]
fn unmasked_frames_from_clients_are_accepted() {
    // mask bit clear: the payload bytes are taken as they stand
    let buf: Vec<u8> = vec![0x81, 0x04, b'p', b'i', b'n', b'g'];
    let (text, used) = decode_text_frame(&buf).expect("must decode");
    assert_eq!(text, "ping");
    assert_eq!(used, 6);
}

#[test]
fn invalid_utf8_payload_becomes_replacement_characters() {
    let buf: Vec<u8> = vec![0x81, 0x03, 0xff, 0xfe, b'a'];
    let (text, _) = decode_text_frame(&buf).expect("must decode");
    assert_eq!(text, "\u{fffd}\u{fffd}a");
}

#[test]
fn encode_text_frame_matches_encode_frame_on_utf8_bytes() {
    let frame = encode_text_frame("Hi ✓");
    let payload: Vec<u8> = "Hi ✓".as_bytes().to_vec();
    assert_eq!(frame, encode_frame(&payload));
}

#[test]
fn non_minimal_length_form_still_decodes_exactly() {
    // sentinel 126 declaring a length that would fit the 7-bit literal
    let mut buf: Vec<u8> = vec![0x81, 126, 0, 5];
    buf.extend_from_slice(b"Hello");
    let (text, used) = decode_text_frame(&buf).expect("must decode");
    assert_eq!(text, "Hello");
    assert_eq!(used, 9);
}

#[test]
fn decode_consumes_exactly_one_frame() {
    let mut buf = encode_text_frame("first");
    let first_len = buf.len();
    buf.extend_from_slice(&encode_text_frame("second"));
    let (text, used) = decode_text_frame(&buf).expect("must decode");
    assert_eq!(text, "first");
    assert_eq!(used, first_len);
    let rest: Vec<u8> = buf[used..].to_vec();
    let (text, used) = decode_text_frame(&rest).expect("must decode");
    assert_eq!(text, "second");
    assert_eq!(used, rest.len());
}

#[test]
fn header_helpers_read_the_second_byte() {
    assert_eq!(ext_len_of(0x05), 0);
    assert_eq!(ext_len_of(126), 2);
    assert_eq!(ext_len_of(127), 8);
    assert_eq!(ext_len_of(0x80 | 126), 2);
    assert!(mask_flag_of(0x80 | 5));
    assert!(!mask_flag_of(5));
    assert_eq!(frame_payload_len(0x05, &Vec::new()), 5);
    assert_eq!(frame_payload_len(126, &vec![0x01, 0x02]), 0x0102);
    assert_eq!(frame_payload_len(127, &70000u64.to_be_bytes().to_vec()), 70000);
}
