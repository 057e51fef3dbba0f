use rclippy::crypto::{ExtendedKeyUsage, KeyUsage};
use rclippy::secrets::{
    cert_fingerprint, decode_vault, delete_peer, encode_vault, ensure_identity, generate_identity,
    identity_cert_request, install_identity, load_peer, store_peer, Identity, MemorySecretStore,
    PeerIdentity, SecretStore, StoredVault, VAULT_KEY,
};

#[test]
fn identity_persists_in_store() {
    let mut store = MemorySecretStore::default();

    let first = ensure_identity(&mut store).unwrap();
    let second = ensure_identity(&mut store).unwrap();

    assert_eq!(first, second);
    assert_eq!(first.cert_fingerprint().len(), 64);
}

#[test]
fn peer_round_trip() {
    let mut store = MemorySecretStore::default();
    let peer = PeerIdentity {
        device_id: "peer".to_owned(),
        device_name: "workstation".to_owned(),
        cert_der: vec![1, 2, 3],
    };

    store_peer(&mut store, &peer).unwrap();
    assert_eq!(load_peer(&store).unwrap(), Some(peer));

    delete_peer(&mut store).unwrap();
    assert_eq!(load_peer(&store).unwrap(), None);
}

#[test]
fn storing_a_peer_keeps_the_identity() {
    let mut store = MemorySecretStore::default();
    let identity = ensure_identity(&mut store).unwrap();
    let peer = PeerIdentity {
        device_id: "p".to_owned(),
        device_name: String::new(),
        cert_der: vec![],
    };
    store_peer(&mut store, &peer).unwrap();
    assert_eq!(ensure_identity(&mut store).unwrap(), identity);
    delete_peer(&mut store).unwrap();
    assert_eq!(ensure_identity(&mut store).unwrap(), identity);
}

#[test]
fn invalid_vault_is_an_error() {
    let mut store = MemorySecretStore::default();
    store.set(VAULT_KEY, b"not json").unwrap();
    assert!(load_peer(&store).is_err());
    assert!(ensure_identity(&mut store).is_err());
    assert_eq!(store.get(VAULT_KEY).unwrap(), Some(b"not json".to_vec()));
}

#[test]
fn vault_bytes_are_compact_json() {
    let vault = StoredVault {
        identity: None,
        peer: Some(PeerIdentity {
            device_id: "a\"b".to_owned(),
            device_name: "w\n".to_owned(),
            cert_der: vec![0, 255],
        }),
    };
    let bytes = encode_vault(&vault);
    assert_eq!(
        String::from_utf8(bytes.clone()).unwrap(),
        "{\"identity\":null,\"peer\":{\"device_id\":\"a\\\"b\",\"device_name\":\"w\\n\",\"cert_der\":[0,255]}}"
    );
    let back = decode_vault(&bytes).unwrap();
    assert_eq!(back.peer, vault.peer);
    assert_eq!(back.identity, None);
    let spaced = decode_vault(b"{\"identity\":null,\"peer\":null} ").unwrap();
    assert!(spaced.identity.is_none() && spaced.peer.is_none());
}

#[test]
fn generated_identities_differ() {
    let a = generate_identity().unwrap();
    let b = generate_identity().unwrap();
    assert_eq!(a.device_id.len(), 32);
    assert!(a.device_id.chars().all(|c| c.is_ascii_hexdigit() && !c.is_ascii_uppercase()));
    assert_ne!(a.device_id, b.device_id);
    assert_ne!(a.cert_der, b.cert_der);
    assert!(!a.key_der.is_empty());
}

#[test]
fn fingerprints_and_names() {
    assert_eq!(
        cert_fingerprint(b"hello"),
        "2cf24dba5fb0a30e26e83b2ac5b9e29e1b161e5c1fa7425e73043362938b9824"
    );
    let named = PeerIdentity { device_id: "id".to_owned(), device_name: "box".to_owned(), cert_der: vec![] };
    assert_eq!(named.display_name(), "box");
    let unnamed = PeerIdentity { device_id: "id".to_owned(), device_name: "  ".to_owned(), cert_der: vec![] };
    assert_eq!(unnamed.display_name(), "id");
}

#[test]
fn memory_store_get_set_delete() {
    let mut store = MemorySecretStore::default();
    assert_eq!(store.get("k").unwrap(), None);
    store.set("k", &[1]).unwrap();
    store.set("k", &[2]).unwrap();
    assert_eq!(store.get("k").unwrap(), Some(vec![2]));
    store.delete("k").unwrap();
    assert_eq!(store.get("k").unwrap(), None);
}

#[test]
fn invalid_vault_message_and_second_forget() {
    let mut store = MemorySecretStore::default();
    store.set(VAULT_KEY, b"{\"peer\":1}").unwrap();
    assert_eq!(load_peer(&store), Err("stored secret vault is invalid".to_owned()));
    assert_eq!(store_peer(&mut store, &PeerIdentity { device_id: "p".to_owned(), device_name: String::new(), cert_der: vec![] }), Err("stored secret vault is invalid".to_owned()));
    store.delete(VAULT_KEY).unwrap();
    let id = ensure_identity(&mut store).unwrap();
    delete_peer(&mut store).unwrap();
    let once = store.get(VAULT_KEY).unwrap();
    delete_peer(&mut store).unwrap();
    assert_eq!(store.get(VAULT_KEY).unwrap(), once);
    assert_eq!(ensure_identity(&mut store).unwrap(), id);
    assert_eq!(id.device_id.len(), 32);
}

fn peer_of(json: &[u8]) -> Option<PeerIdentity> {
    decode_vault(json).and_then(|v| v.peer)
}

#[test]
fn vault_reader_accepts_every_json_form() {
    let spaced = b" \n{ \"peer\" : { \"cert_der\" : [ 1 , 2 ] , \"device_name\" : \"w\\u0041\\/\" , \"extra\" : [true, {\"x\": -1.5e3}, \"\\u00e9\"], \"device_id\" : \"p\" } }\t";
    let vault = decode_vault(spaced).unwrap();
    assert!(vault.identity.is_none());
    assert_eq!(
        vault.peer,
        Some(PeerIdentity { device_id: "p".to_owned(), device_name: "wA/".to_owned(), cert_der: vec![1, 2] })
    );
    let empty = decode_vault(b"{}").unwrap();
    assert!(empty.identity.is_none() && empty.peer.is_none());
    let listed = peer_of(b"[null, [\"p\", \"n\", [3]]]").unwrap();
    assert_eq!(listed.device_name, "n");
    assert_eq!(listed.cert_der, vec![3]);
    let emoji = peer_of(b"{\"peer\":{\"device_id\":\"\\ud83d\\ude00\",\"device_name\":\"\\u00E9\",\"cert_der\":[]}}").unwrap();
    assert_eq!(emoji.device_id, "\u{1F600}");
    assert_eq!(emoji.device_name, "\u{e9}");
    let raw = peer_of(b"{\"x\":\"\xff\",\"peer\":{\"device_id\":\"\xc3\xa9\",\"device_name\":\"\",\"cert_der\":[0]}}").unwrap();
    assert_eq!(raw.device_id, "\u{e9}");
    let identity = decode_vault(b"{\"identity\":{\"key_der\":[9],\"device_id\":\"d\",\"cert_der\":[8]},\"peer\":null}")
        .unwrap()
        .identity
        .unwrap();
    assert_eq!(identity, Identity { device_id: "d".to_owned(), cert_der: vec![8], key_der: vec![9] });
}

#[test]
fn vault_reader_refuses_what_is_no_vault() {
    let refused: [&[u8]; 14] = [
        b"{\"peer\":null,\"peer\":null}",
        b"{\"peer\":null,}",
        b"{\"peer\":{\"device_id\":\"p\",\"device_name\":\"\",\"cert_der\":[1,]}}",
        b"{\"peer\":{\"device_id\":\"p\",\"device_name\":\"\",\"cert_der\":[256]}}",
        b"{\"peer\":{\"device_id\":\"p\",\"device_name\":\"\",\"cert_der\":[01]}}",
        b"{\"peer\":{\"device_id\":\"p\",\"device_name\":\"\",\"cert_der\":[-0]}}",
        b"{\"peer\":{\"device_id\":\"p\",\"device_name\":\"\",\"cert_der\":[1.0]}}",
        b"{\"peer\":{\"device_id\":\"\\ud800\",\"device_name\":\"\",\"cert_der\":[]}}",
        b"{\"peer\":{\"device_id\":\"\xff\",\"device_name\":\"\",\"cert_der\":[]}}",
        b"{\"peer\":{\"device_id\":\"p\"}}",
        b"{} x",
        b"{\"\xff\":1}",
        b"[null]",
        b"{\"peer\":nul}",
    ];
    for bytes in refused.iter() {
        assert!(decode_vault(bytes).is_none(), "{:?}", String::from_utf8_lossy(bytes));
    }
}

#[test]
fn identity_certificate_request() {
    let request = identity_cert_request();
    assert_eq!(request.subject_alt_names, vec!["rclippy.local".to_owned()]);
    assert_eq!(request.key_usages, vec![KeyUsage::DigitalSignature, KeyUsage::KeyEncipherment]);
    assert_eq!(request.extended_key_usages, vec![ExtendedKeyUsage::ServerAuth, ExtendedKeyUsage::ClientAuth]);
}

#[test]
fn installing_a_generated_identity() {
    let mut store = MemorySecretStore::default();
    let failed = install_identity(&mut store, None, Err("no key".to_owned()));
    assert_eq!(failed, Err("no key".to_owned()));
    assert_eq!(store.get(VAULT_KEY).unwrap(), None);
    let peer = PeerIdentity { device_id: "p".to_owned(), device_name: "n".to_owned(), cert_der: vec![7] };
    let id = Identity { device_id: "d".to_owned(), cert_der: vec![1], key_der: vec![2] };
    assert_eq!(install_identity(&mut store, Some(peer.clone()), Ok(id.clone())), Ok(id.clone()));
    assert_eq!(load_peer(&store).unwrap(), Some(peer));
    assert_eq!(ensure_identity(&mut store).unwrap(), id);
}

#[test]
fn vault_reader_steps_over_deeply_nested_members() {
    let depth = 100_000;
    let mut json = b"{\"x\":".to_vec();
    json.extend(std::iter::repeat(b'[').take(depth));
    json.extend(std::iter::repeat(b']').take(depth));
    json.extend_from_slice(b",\"y\":{\"a\":[1,{\"b\":null}],\"c\":\"\\n\"}}");
    let vault = decode_vault(&json).unwrap();
    assert!(vault.identity.is_none() && vault.peer.is_none());
    assert!(decode_vault(b"{\"x\":[1,]}").is_none());
    assert!(decode_vault(b"{\"x\":{\"a\":1,}}").is_none());
    assert!(decode_vault(b"{\"x\":[1}}").is_none());
}
