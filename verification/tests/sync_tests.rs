use rclippy::config::Config;
use rclippy::frame::Frame;
use rclippy::secrets::PeerIdentity;
use rclippy::sync::{
    begin_sync, handle_peer_frame, judge_connection, next_backoff, ConnectionVerdict,
    EchoSuppressor, SyncStatus, SyncStatusSnapshot,
};
use rclippy::transport::{should_keep_connection, verify_expected_peer, ConnectionSide};

#[test]
fn local_duplicate_does_not_emit() {
    let mut suppressor = EchoSuppressor::default();

    assert!(
        suppressor
            .local_frame_for_text("hello".to_owned(), 1024)
            .is_some()
    );
    assert!(
        suppressor
            .local_frame_for_text("hello".to_owned(), 1024)
            .is_none()
    );
}

#[test]
fn remote_then_local_echo_does_not_emit() {
    let mut suppressor = EchoSuppressor::default();
    let frame = Frame::clipboard_text(1, "from peer".to_owned());

    let apply = suppressor.remote_text_to_apply(&frame, 1024).unwrap();
    assert_eq!(apply.as_deref(), Some("from peer"));

    assert!(
        suppressor
            .local_frame_for_text("from peer".to_owned(), 1024)
            .is_none()
    );
}

#[test]
fn deterministic_connection_winner() {
    assert!(should_keep_connection(
        "aaa",
        "bbb",
        ConnectionSide::Outgoing
    ));
    assert!(!should_keep_connection(
        "aaa",
        "bbb",
        ConnectionSide::Incoming
    ));
    assert!(should_keep_connection(
        "bbb",
        "aaa",
        ConnectionSide::Incoming
    ));
    assert!(!should_keep_connection(
        "bbb",
        "aaa",
        ConnectionSide::Outgoing
    ));
}

#[test]
fn same_id_keeps_no_connection() {
    assert!(!should_keep_connection("a", "a", ConnectionSide::Incoming));
    assert!(!should_keep_connection("a", "a", ConnectionSide::Outgoing));
    assert!(should_keep_connection("a", "ab", ConnectionSide::Outgoing));
}

#[test]
fn frames_are_numbered_from_one() {
    let mut s = EchoSuppressor::default();
    let first = s.local_frame_for_text("a".to_owned(), 10).unwrap();
    let second = s.local_frame_for_text("b".to_owned(), 10).unwrap();
    let third = s.local_frame_for_text("a".to_owned(), 10).unwrap();
    assert_eq!(first, Frame::clipboard_text(1, "a".to_owned()));
    assert_eq!(second, Frame::clipboard_text(2, "b".to_owned()));
    assert_eq!(third, Frame::clipboard_text(3, "a".to_owned()));
    assert!(s.local_frame_for_text("too long".to_owned(), 3).is_none());
}

#[test]
fn sent_text_coming_back_is_not_applied() {
    let mut s = EchoSuppressor::default();
    let frame = s.local_frame_for_text("mine".to_owned(), 100).unwrap();
    assert_eq!(s.remote_text_to_apply(&frame, 100).unwrap(), None);
    assert_eq!(s.remote_text_to_apply(&Frame::clipboard_text(9, "x".to_owned()), 100).unwrap(), Some("x".to_owned()));
    assert_eq!(s.remote_text_to_apply(&Frame::clipboard_text(10, "x".to_owned()), 100).unwrap(), None);
    let bad = Frame::ClipboardText { seq: 1, sha256: "0".to_owned(), text: "y".to_owned() };
    assert_eq!(s.remote_text_to_apply(&bad, 100), Err("clipboard text hash mismatch".to_owned()));
    assert_eq!(s.remote_text_to_apply(&Frame::Pong, 100), Ok(None));
}

#[test]
fn status_updates() {
    let mut status = SyncStatus::default();
    let snap = status.snapshot();
    assert!(!snap.paired && !snap.connected);
    assert_eq!(snap.message, "Not paired");
    status.set_error("boom");
    let snap = status.snapshot();
    assert_eq!(snap.message, "boom");
    assert_eq!(snap.last_error.as_deref(), Some("boom"));
    status.set_connected(false, "waiting");
    assert_eq!(status.snapshot().last_error.as_deref(), Some("boom"));
    status.set_connected(true, "Connected inbound");
    let snap = status.snapshot();
    assert!(snap.connected);
    assert_eq!(snap.last_error, None);
    let peer = PeerIdentity { device_id: "p".to_owned(), device_name: String::new(), cert_der: b"hello".to_vec() };
    status.set_paired(&peer);
    let snap = status.snapshot();
    assert!(snap.paired);
    assert_eq!(snap.peer_device_id.as_deref(), Some("p"));
    assert_eq!(
        snap.peer_fingerprint.as_deref(),
        Some("2cf24dba5fb0a30e26e83b2ac5b9e29e1b161e5c1fa7425e73043362938b9824")
    );
    let default = SyncStatusSnapshot::default();
    assert_eq!(default.message, "Not paired");
}

#[test]
fn sync_starts_only_with_peer_and_address() {
    let peer = PeerIdentity { device_id: "p".to_owned(), device_name: String::new(), cert_der: vec![] };
    let mut status = SyncStatus::default();
    assert!(!begin_sync(&mut status, &Config::default(), None));
    assert_eq!(status.snapshot().message, "Not paired");

    let mut status = SyncStatus::default();
    assert!(!begin_sync(&mut status, &Config::default(), Some(&peer)));
    assert!(status.snapshot().paired);
    assert_eq!(status.snapshot().message, "Peer address not configured");

    let config = Config { peer_addr: "10.0.0.2:38765".to_owned(), ..Config::default() };
    let mut status = SyncStatus::default();
    assert!(begin_sync(&mut status, &config, Some(&peer)));
    assert!(status.snapshot().paired);
}

#[test]
fn backoff_doubles_up_to_thirty_seconds() {
    let mut secs = 1;
    let mut seen = vec![];
    for _ in 0..7 {
        seen.push(secs);
        secs = next_backoff(secs);
    }
    assert_eq!(seen, vec![1, 2, 4, 8, 16, 30, 30]);
    assert_eq!(next_backoff(15), 30);
    assert_eq!(next_backoff(14), 28);
}

#[test]
fn connections_are_judged() {
    let peer = PeerIdentity { device_id: "bbb".to_owned(), device_name: String::new(), cert_der: vec![] };
    assert!(matches!(judge_connection("aaa", &peer, "ccc", ConnectionSide::Outgoing), ConnectionVerdict::Reject(m) if m == "peer device id mismatch"));
    assert!(matches!(judge_connection("aaa", &peer, "bbb", ConnectionSide::Outgoing), ConnectionVerdict::Keep));
    assert!(matches!(judge_connection("aaa", &peer, "bbb", ConnectionSide::Incoming), ConnectionVerdict::Drop));
    assert!(verify_expected_peer("bbb", &peer).is_ok());
    assert_eq!(verify_expected_peer("x", &peer), Err("peer device id mismatch".to_owned()));
}

#[test]
fn peer_frames_are_handled() {
    let mut echo = EchoSuppressor::default();
    let mut status = SyncStatus::default();
    let text = handle_peer_frame(&mut echo, &mut status, &Frame::clipboard_text(1, "hi".to_owned()), 10);
    assert_eq!(text.as_deref(), Some("hi"));
    assert_eq!(handle_peer_frame(&mut echo, &mut status, &Frame::Ping, 10), None);
    assert_eq!(status.snapshot().message, "Not paired");
    let bad = Frame::ClipboardText { seq: 2, sha256: "x".to_owned(), text: "yo".to_owned() };
    assert_eq!(handle_peer_frame(&mut echo, &mut status, &bad, 10), None);
    assert_eq!(status.snapshot().message, "Remote clipboard rejected: clipboard text hash mismatch");
    handle_peer_frame(&mut echo, &mut status, &Frame::Error { message: "nope".to_owned() }, 10);
    assert_eq!(status.snapshot().last_error.as_deref(), Some("Peer error: nope"));
    handle_peer_frame(&mut echo, &mut status, &Frame::hello("x"), 10);
    assert_eq!(status.snapshot().message, "Unexpected hello");
}

#[test]
fn sent_frame_is_applied_by_a_fresh_peer() {
    let mut sender = EchoSuppressor::default();
    sender.local_frame_for_text("x".to_owned(), 10).unwrap();
    let frame = sender.local_frame_for_text("shared".to_owned(), 10).unwrap();
    assert_eq!(rclippy::frame::validate_clipboard_frame(&frame, 10), Ok(()));
    let mut receiver = EchoSuppressor::default();
    assert_eq!(receiver.remote_text_to_apply(&frame, 10).unwrap(), Some("shared".to_owned()));
}
