use rclippy::frame::{sha256_text, validate_clipboard_frame, Frame, MAX_FRAME_BYTES};
use rclippy::transport::{peer_hello_device_id, HelloError};
use rclippy::wire::{decode_frame, encode_frame, frame_length, WireError};
use rclippy::PROTOCOL_VERSION;

#[test]
fn detects_bad_clipboard_hash() {
    let frame = Frame::ClipboardText {
        seq: 1,
        sha256: "bad".to_owned(),
        text: "hello".to_owned(),
    };

    assert!(validate_clipboard_frame(&frame, 1024).is_err());
}

#[test]
fn rejects_oversize_clipboard_text() {
    let frame = Frame::clipboard_text(1, "hello".to_owned());

    assert!(validate_clipboard_frame(&frame, 3).is_err());
}

#[test]
fn validation_messages() {
    let frame = Frame::clipboard_text(1, "hello".to_owned());
    assert_eq!(validate_clipboard_frame(&frame, 5), Ok(()));
    assert_eq!(
        validate_clipboard_frame(&frame, 4),
        Err("clipboard text exceeds configured limit".to_owned())
    );
    let bad = Frame::ClipboardText { seq: 1, sha256: "bad".to_owned(), text: "hello".to_owned() };
    assert_eq!(validate_clipboard_frame(&bad, 1024), Err("clipboard text hash mismatch".to_owned()));
    assert_eq!(validate_clipboard_frame(&Frame::Ping, 0), Ok(()));
}

#[test]
fn sha256_text_is_lower_hex() {
    assert_eq!(
        sha256_text("hello"),
        "2cf24dba5fb0a30e26e83b2ac5b9e29e1b161e5c1fa7425e73043362938b9824"
    );
    assert_eq!(
        sha256_text(""),
        "e3b0c44298fc1c149afbf4c8996fb92427ae41e4649b934ca495991b7852b855"
    );
}

#[test]
fn clipboard_frame_carries_digest() {
    let frame = Frame::clipboard_text(7, "hello".to_owned());
    assert_eq!(
        frame,
        Frame::ClipboardText {
            seq: 7,
            sha256: sha256_text("hello"),
            text: "hello".to_owned()
        }
    );
    assert_eq!(
        Frame::hello("dev"),
        Frame::Hello { protocol_version: PROTOCOL_VERSION, device_id: "dev".to_owned() }
    );
}

#[test]
fn frames_round_trip_on_the_wire() {
    let payload = b"{\"type\":\"ping\"}".to_vec();
    let mut bytes = encode_frame(&payload, MAX_FRAME_BYTES).unwrap();
    assert_eq!(&bytes[..4], &[0, 0, 0, 15]);
    bytes.extend_from_slice(b"rest");
    assert_eq!(decode_frame(&bytes, MAX_FRAME_BYTES), Ok((payload, 19)));
}

#[test]
fn wire_errors() {
    assert_eq!(encode_frame(&[0u8; 5], 4), Err(WireError::TooLarge));
    assert_eq!(encode_frame(&[0u8; 4], 4).map(|b| b.len()), Ok(8));
    assert_eq!(frame_length(&[0xff, 0xff, 0xff, 0xff], MAX_FRAME_BYTES), Err(WireError::TooLarge));
    assert_eq!(frame_length(&[0, 0, 1], MAX_FRAME_BYTES), Err(WireError::Incomplete));
    assert_eq!(frame_length(&[0, 0, 1, 0], MAX_FRAME_BYTES), Ok(256));
    assert_eq!(decode_frame(&[0, 0, 0, 3, 1, 2], 10), Err(WireError::Incomplete));
}

#[test]
fn peer_hello_checks_version() {
    assert_eq!(peer_hello_device_id(Frame::hello("abc")), Ok("abc".to_owned()));
    assert_eq!(
        peer_hello_device_id(Frame::Hello { protocol_version: 2, device_id: "abc".to_owned() }),
        Err(HelloError::UnsupportedVersion(2))
    );
    assert_eq!(peer_hello_device_id(Frame::Ping), Err(HelloError::NotHello));
}
