use base64::Engine;
use hmac::Mac;
use rclippy::pairing::{
    frame_pair_payload, pair_frame_length, build_hello, decode_public_key, derive_pair_key, derive_pair_key_bytes, device_name_from,
    format_pairing_code, generate_pairing_code, is_ignorable_pairing_probe, pairing_proof,
    peer_from_hello, transcript_bytes, PairAction, PairFrame, PairHello, PairRole, PairStage,
    PairingError, PairingSession, CLIENT_ROLE,
};
use rclippy::secrets::{generate_identity, Identity, PeerIdentity};
use x25519_dalek::{PublicKey, StaticSecret};

fn b64(bytes: &[u8]) -> String {
    base64::engine::general_purpose::STANDARD_NO_PAD.encode(bytes)
}

fn identity(id: &str, cert: &[u8]) -> Identity {
    Identity { device_id: id.to_owned(), cert_der: cert.to_vec(), key_der: vec![9] }
}

#[test]
fn different_codes_make_different_keys() {
    let identity = generate_identity().unwrap();
    let secret_a = StaticSecret::random_from_rng(rand::rngs::OsRng);
    let public_a = PublicKey::from(&secret_a);
    let secret_b = StaticSecret::random_from_rng(rand::rngs::OsRng);
    let public_b = PublicKey::from(&secret_b);
    let hello_a = build_hello(&identity, "a".to_owned(), public_a.as_bytes(), &[1; 32]);
    let hello_b = build_hello(&identity, "b".to_owned(), public_b.as_bytes(), &[2; 32]);
    let shared = secret_a.diffie_hellman(&public_b);
    let transcript = transcript_bytes(&hello_a, &hello_b);

    let key_a = derive_pair_key_bytes("111-111", shared.as_bytes(), &transcript).unwrap();
    let key_b = derive_pair_key_bytes("222-222", shared.as_bytes(), &transcript).unwrap();

    assert_ne!(key_a, key_b);
}

fn exchange(host_code: &str, client_code: &str) -> (Result<PeerIdentity, PairingError>, Result<PeerIdentity, PairingError>) {
    let host_id = identity("host-id", b"host cert");
    let client_id = identity("client-id", b"client cert");
    let mut host = PairingSession::new(PairRole::Host, host_code, &host_id, "Host box".to_owned(), [7; 32], [1; 32]);
    let mut client = PairingSession::new(PairRole::Client, client_code, &client_id, "Client box".to_owned(), [9; 32], [2; 32]);

    let reply = match host.on_frame(client.hello_frame()) {
        Ok(PairAction::Send(frame)) => frame,
        other => panic!("host answered {other:?}"),
    };
    let client_proof = match client.on_frame(reply) {
        Ok(PairAction::Send(frame)) => frame,
        other => panic!("client answered {other:?}"),
    };
    match host.on_frame(client_proof) {
        Ok(PairAction::SendThenFinish(host_proof, client_peer)) => {
            let host_peer = match client.on_frame(host_proof) {
                Ok(PairAction::Finish(peer)) => Ok(peer),
                Err(e) => Err(e),
                other => panic!("client answered {other:?}"),
            };
            (Ok(client_peer), host_peer)
        }
        Err(e) => (Err(e), Err(PairingError::ProofMismatch)),
        other => panic!("host answered {other:?}"),
    }
}

#[test]
fn sessions_with_matching_codes_pair() {
    let (host_learned, client_learned) = exchange("123-456", "123-456");
    assert_eq!(
        host_learned.unwrap(),
        PeerIdentity {
            device_id: "client-id".to_owned(),
            device_name: "Client box".to_owned(),
            cert_der: b"client cert".to_vec()
        }
    );
    assert_eq!(
        client_learned.unwrap(),
        PeerIdentity {
            device_id: "host-id".to_owned(),
            device_name: "Host box".to_owned(),
            cert_der: b"host cert".to_vec()
        }
    );
}

#[test]
fn sessions_with_different_codes_fail() {
    let (host_learned, _) = exchange("123-456", "999-999");
    assert_eq!(host_learned, Err(PairingError::ProofMismatch));
    assert_eq!(PairingError::ProofMismatch.message(), "pairing code proof failed");
}

#[test]
fn random_sessions_pair() {
    let host_id = generate_identity().unwrap();
    let client_id = generate_identity().unwrap();
    let mut host = PairingSession::start(PairRole::Host, "000-001", &host_id);
    let mut client = PairingSession::start(PairRole::Client, "000-001", &client_id);
    let Ok(PairAction::Send(reply)) = host.on_frame(client.hello_frame()) else { panic!() };
    let Ok(PairAction::Send(proof)) = client.on_frame(reply) else { panic!() };
    let Ok(PairAction::SendThenFinish(host_proof, learned)) = host.on_frame(proof) else { panic!() };
    assert_eq!(learned.device_id, client_id.device_id);
    assert_eq!(learned.cert_der, client_id.cert_der);
    let Ok(PairAction::Finish(peer)) = client.on_frame(host_proof) else { panic!() };
    assert_eq!(peer.device_id, host_id.device_id);
    assert_eq!(host.stage(), PairStage::Done);
    assert_eq!(client.stage(), PairStage::Done);
    assert!(matches!(host.on_frame(PairFrame::Proof { proof: String::new() }), Err(PairingError::Finished)));
}

#[test]
fn frames_out_of_order_fail() {
    let id = identity("x", b"c");
    let mut host = PairingSession::new(PairRole::Host, "1", &id, "n".to_owned(), [1; 32], [1; 32]);
    assert_eq!(host.on_frame(PairFrame::Proof { proof: "AA".to_owned() }).unwrap_err(), PairingError::ExpectedClientHello);
    assert_eq!(host.stage(), PairStage::Failed);
    let mut client = PairingSession::new(PairRole::Client, "1", &id, "n".to_owned(), [2; 32], [1; 32]);
    assert_eq!(client.on_frame(PairFrame::Proof { proof: "AA".to_owned() }).unwrap_err(), PairingError::ExpectedHostHello);
}

#[test]
fn bad_public_keys_are_refused() {
    assert_eq!(decode_public_key("!!"), Err(PairingError::BadBase64));
    assert_eq!(decode_public_key(&b64(&[1; 31])), Err(PairingError::BadPublicKeyLength));
    assert_eq!(decode_public_key(&b64(&[5; 32])), Ok([5; 32]));
    let id = identity("x", b"c");
    let mut host = PairingSession::new(PairRole::Host, "1", &id, "n".to_owned(), [1; 32], [1; 32]);
    let hello = PairHello {
        device_id: "y".to_owned(),
        device_name: String::new(),
        cert_der: b64(b"c"),
        eph_pub: b64(&[1; 5]),
        nonce: b64(&[0; 32]),
    };
    match host.on_frame(PairFrame::Hello(hello)) {
        Ok(PairAction::SendThenFail(PairFrame::Hello(_), PairingError::BadPublicKeyLength)) => {}
        other => panic!("{other:?}"),
    }
}

#[test]
fn hello_fields_are_base64_without_padding() {
    let id = identity("dev", &[0xff, 0x00, 0x10]);
    let hello = build_hello(&id, "name".to_owned(), &[1, 2], &[3]);
    assert_eq!(hello.device_id, "dev");
    assert_eq!(hello.device_name, "name");
    assert_eq!(hello.cert_der, "/wAQ");
    assert_eq!(hello.eph_pub, "AQI");
    assert_eq!(hello.nonce, "Aw");
    let peer = peer_from_hello(hello.clone()).unwrap();
    assert_eq!(peer.cert_der, vec![0xff, 0x00, 0x10]);
    let broken = PairHello { cert_der: "@".to_owned(), ..hello };
    assert_eq!(peer_from_hello(broken), Err(PairingError::BadBase64));
}

fn hello_json(h: &PairHello) -> String {
    let field = |name: &str, value: &str| {
        format!(
            "{}:{}",
            serde_json::to_string(name).unwrap(),
            serde_json::to_string(value).unwrap()
        )
    };
    format!(
        "{{{},{},{},{},{}}}",
        field("device_id", &h.device_id),
        field("device_name", &h.device_name),
        field("cert_der", &h.cert_der),
        field("eph_pub", &h.eph_pub),
        field("nonce", &h.nonce)
    )
}

#[test]
fn transcript_is_the_json_pair() {
    let a = PairHello {
        device_id: "a".to_owned(),
        device_name: "q\"\u{1}\\/é".to_owned(),
        cert_der: "C".to_owned(),
        eph_pub: "E".to_owned(),
        nonce: "N".to_owned(),
    };
    let b = PairHello { device_id: "b".to_owned(), ..a.clone() };
    let expected = format!("[{},{}]", hello_json(&a), hello_json(&b));
    assert_eq!(String::from_utf8(transcript_bytes(&a, &b)).unwrap(), expected);
}

#[test]
fn key_and_proof_match_the_primitives() {
    let alice = StaticSecret::from([7u8; 32]);
    let bob = StaticSecret::from([9u8; 32]);
    let id = identity("x", b"c");
    let client = build_hello(&id, "c".to_owned(), PublicKey::from(&alice).as_bytes(), &[0; 32]);
    let host = build_hello(&id, "h".to_owned(), PublicKey::from(&bob).as_bytes(), &[0; 32]);
    let key = derive_pair_key("123-456", &[7u8; 32], &client, &host).unwrap();
    let shared = alice.diffie_hellman(&PublicKey::from(&bob));
    let transcript = transcript_bytes(&client, &host);
    let hk = hkdf::Hkdf::<sha2::Sha256>::new(Some(b"123-456"), shared.as_bytes());
    let mut expected = [0u8; 32];
    hk.expand(&transcript, &mut expected).unwrap();
    assert_eq!(key, expected);
    assert_eq!(derive_pair_key("123-456", &[9u8; 32], &client, &host).unwrap(), expected);

    let mut mac = hmac::Hmac::<sha2::Sha256>::new_from_slice(&key).unwrap();
    mac.update(b"rclippy pairing proof v1client");
    mac.update(&transcript);
    assert_eq!(pairing_proof(&key, CLIENT_ROLE, &transcript), mac.finalize().into_bytes().to_vec());
}

#[test]
fn hkdf_matches_rfc5869_case_one() {
    let salt: String = (0u8..=12).map(char::from).collect();
    let ikm = [0x0bu8; 22];
    let info: Vec<u8> = (0xf0u8..=0xf9).collect();
    let key = derive_pair_key_bytes(&salt, &ikm, &info).unwrap();
    assert_eq!(
        key.to_vec(),
        hex::decode("3cb25f25faacd57a90434f64d0362f2a2d2d0a90cf1a5a4c5db02d56ecc4c5bf").unwrap()
    );
}

#[test]
fn x25519_matches_rfc7748() {
    let alice: [u8; 32] = hex::decode("77076d0a7318a57d3c16c17251b26645df4c2f87ebc0992ab177fba51db92c2a").unwrap().try_into().unwrap();
    let bob_pub = hex::decode("de9edb7d7b7dc1b4d35b61c2ece435373f8343c85b78674dadfc7e146f882b4f").unwrap();
    let id = identity("x", b"c");
    let session = PairingSession::new(PairRole::Client, "c", &id, "n".to_owned(), alice, [0; 32]);
    let PairFrame::Hello(hello) = session.hello_frame() else { panic!() };
    assert_eq!(
        base64::engine::general_purpose::STANDARD_NO_PAD.decode(hello.eph_pub.as_bytes()).unwrap(),
        hex::decode("8520f0098930a754748b7ddcb43ef75a0dbf3a0d26381af4eba4a98eaa9b4e6a").unwrap()
    );
    let host = build_hello(&id, "h".to_owned(), &bob_pub, &[0; 32]);
    let key = derive_pair_key("c", &alice, &hello, &host).unwrap();
    let shared = hex::decode("4a5d9d5ba4ce2de1728e3bf480350f25e07e21c947d19e3376f09b3c1e161742").unwrap();
    let transcript = transcript_bytes(&hello, &host);
    assert_eq!(key, derive_pair_key_bytes("c", &shared, &transcript).unwrap());
}

#[test]
fn pairing_codes_are_two_padded_numbers() {
    assert_eq!(format_pairing_code(7, 42), "007-042");
    assert_eq!(format_pairing_code(999, 0), "999-000");
    let code = generate_pairing_code();
    assert_eq!(code.len(), 7);
    assert_eq!(code.as_bytes()[3], b'-');
    assert!(code.chars().enumerate().all(|(i, c)| i == 3 || c.is_ascii_digit()));
}

#[test]
fn device_names() {
    assert_eq!(device_name_from(Some("  laptop \n".to_owned())), "laptop");
    assert_eq!(device_name_from(Some(" \t".to_owned())), "Unknown device");
    assert_eq!(device_name_from(None), "Unknown device");
}

#[test]
fn only_oversized_frames_are_probes() {
    assert!(is_ignorable_pairing_probe(&PairingError::FrameTooLarge));
    assert!(!is_ignorable_pairing_probe(&PairingError::ProofMismatch));
    assert_eq!(PairingError::FrameTooLarge.message(), "pair frame too large");
}

#[test]
fn hellos_where_proofs_are_due_fail() {
    let host_id = identity("h", b"hc");
    let client_id = identity("c", b"cc");
    let mut host = PairingSession::new(PairRole::Host, "1", &host_id, "h".to_owned(), [3; 32], [1; 32]);
    let mut client = PairingSession::new(PairRole::Client, "1", &client_id, "c".to_owned(), [4; 32], [2; 32]);
    let Ok(PairAction::Send(host_hello)) = host.on_frame(client.hello_frame()) else { panic!() };
    assert_eq!(host.on_frame(client.hello_frame()).unwrap_err(), PairingError::ExpectedClientProof);
    let Ok(PairAction::Send(_)) = client.on_frame(host_hello.clone()) else { panic!() };
    assert_eq!(client.on_frame(host_hello).unwrap_err(), PairingError::ExpectedHostProof);
    assert_eq!(client.stage(), PairStage::Failed);
}

#[test]
fn pair_frames_are_limited() {
    assert_eq!(pair_frame_length(&[0xff, 0xff, 0xff, 0xff]), Err(PairingError::FrameTooLarge));
    assert_eq!(pair_frame_length(&[0, 1, 0, 0]), Ok(65536));
    assert_eq!(pair_frame_length(&[0, 1, 0, 1]), Err(PairingError::FrameTooLarge));
    assert_eq!(frame_pair_payload(&vec![0u8; 65537]), Err(PairingError::FrameTooLarge));
    assert_eq!(frame_pair_payload(b"ab"), Ok(vec![0, 0, 0, 2, b'a', b'b']));
}
