use sensor_monitor::frame::{frame_payload, payload_of_trimmed, FrameError, FRAME_HEX_LEN};

#[test]
fn frame_line_decodes_to_bytes() {
    let body = "aB".repeat(FRAME_HEX_LEN / 2);
    let line = format!("  {}\r\n", body);
    let bytes = frame_payload(&line).unwrap();
    assert_eq!(bytes.len(), 525);
    assert!(bytes.iter().all(|b| *b == 0xab));
}

#[test]
fn frame_bytes_follow_digit_pairs() {
    let mut body = String::from("00ff10");
    body.push_str(&"0".repeat(FRAME_HEX_LEN - 6));
    let bytes = payload_of_trimmed(&body).unwrap();
    assert_eq!(&bytes[..3], &[0x00, 0xff, 0x10]);
    assert_eq!(bytes.len(), FRAME_HEX_LEN / 2);
}

#[test]
fn short_line_has_wrong_length() {
    assert_eq!(frame_payload("abcd\n"), Err(FrameError::WrongLength));
    assert_eq!(frame_payload(""), Err(FrameError::WrongLength));
    let long = "0".repeat(FRAME_HEX_LEN + 2);
    assert_eq!(payload_of_trimmed(&long), Err(FrameError::WrongLength));
}

#[test]
fn non_hex_frame_is_rejected() {
    let mut body = "0".repeat(FRAME_HEX_LEN - 1);
    body.push('g');
    assert_eq!(frame_payload(&body), Err(FrameError::InvalidHex));
}
