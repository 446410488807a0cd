use kmflow::frame::{
    append_le32, clipboard_frame, clipboard_length, control_frame, control_length,
    is_clipboard_tag, CLIPBOARD_LIMIT, CLIPBOARD_TAG,
};

#[test]
fn numbers_are_written_lowest_byte_first() {
    for n in [0u32, 1, 255, 256, 0x1234_5678, u32::MAX] {
        let mut out = vec![9];
        append_le32(&mut out, n);
        assert_eq!(&out[1..], &n.to_le_bytes());
        assert_eq!(control_length(n.to_le_bytes()), n as usize);
    }
}

#[test]
fn control_messages_are_read_back() {
    let payload = b"{\"Ping\":{\"timestamp_us\":1}}";
    let mut stream = control_frame(payload);
    assert_eq!(stream.len(), 4 + payload.len());
    stream.extend_from_slice(b"next");
    let n = control_length([stream[0], stream[1], stream[2], stream[3]]);
    assert_eq!(&stream[4..4 + n], payload);
    assert_eq!(&stream[4 + n..], b"next");
    assert_eq!(control_frame(b""), vec![0, 0, 0, 0]);
}

#[test]
fn clipboard_messages_are_read_back() {
    let payload = vec![7u8; 300];
    let stream = clipboard_frame(&payload);
    assert_eq!(stream[0], 0xcb);
    assert_eq!(&stream[1..5], &[44, 1, 0, 0]);
    assert!(is_clipboard_tag(stream[0]));
    assert!(!is_clipboard_tag(0));
    assert_eq!(clipboard_length([stream[1], stream[2], stream[3], stream[4]]), Some(300));
    assert_eq!(&stream[5..], &payload[..]);
    assert_eq!(CLIPBOARD_TAG, 0xcb);
}

#[test]
fn long_clipboards_are_refused() {
    let limit = 10 * 1024 * 1024u32;
    assert_eq!(CLIPBOARD_LIMIT, limit as usize);
    assert_eq!(clipboard_length(limit.to_le_bytes()), Some(limit as usize));
    assert_eq!(clipboard_length((limit + 1).to_le_bytes()), None);
}
