use masterdesk_net::bytes::{append_bytes, append_i32, append_i64, append_str};
use masterdesk_net::masterdesk_security::{
    device_lease_at, device_lease_payload, identity_rotation_at, identity_rotation_payload,
    initialize_process_session_nonce, key_pair_from_seed, new_device_lease, new_identity_rotation,
    new_relay_auth, process_session_nonce, public_key_from_base64, public_key_from_bytes,
    random_nonce, relay_auth_at, relay_auth_payload, secret_key_from_bytes, sign_payload,
    timestamp_from_elapsed, timestamp_is_fresh, unix_timestamp_secs, verify_device_lease,
    verify_identity_rotation, verify_payload, verify_relay_auth, SessionNonce,
};
use masterdesk_net::relay_ticket::{
    relay_ticket_payload, sign_relay_ticket, verify_relay_ticket, RelayTicket, DEFAULT_CONN,
};
use sodiumoxide::crypto::sign;

fn hex(text: &str) -> Vec<u8> {
    (0..text.len() / 2)
        .map(|i| u8::from_str_radix(&text[2 * i..2 * i + 2], 16).unwrap())
        .collect()
}

fn keys() -> (sign::PublicKey, sign::SecretKey) {
    key_pair_from_seed(&hex(
        "9d61b19deffd5a60ba844af492ec2cc44449c5697b326919703bac031cae7f60",
    ))
    .unwrap()
}

#[test]
fn signed_device_messages_round_trip_and_are_bound_to_the_session() {
    let (public_key, secret_key) = sign::gen_keypair();
    let lease = new_device_lease("123456789", b"installation", b"session-a", &secret_key);
    assert!(verify_device_lease("123456789", &lease, &public_key));
    assert!(!verify_device_lease("987654321", &lease, &public_key));

    let rotation = new_identity_rotation("123456789", b"session-a", &secret_key);
    assert!(verify_identity_rotation(
        "123456789",
        &rotation,
        &public_key
    ));
    assert_ne!(&rotation.session_nonce[..], b"session-b");
}

#[test]
fn relay_auth_and_ticket_reject_modified_fields() {
    let (public_key, secret_key) = sign::gen_keypair();
    let auth = new_relay_auth(
        "target",
        "uuid",
        "relay.example",
        DEFAULT_CONN,
        "controller",
        b"session",
        &secret_key,
    );
    assert!(verify_relay_auth(
        "target",
        "uuid",
        "relay.example",
        DEFAULT_CONN,
        &auth,
        &public_key,
    ));
    assert!(!verify_relay_auth(
        "other-target",
        "uuid",
        "relay.example",
        DEFAULT_CONN,
        &auth,
        &public_key,
    ));

    let now = unix_timestamp_secs();
    let mut ticket = RelayTicket {
        version: 1,
        key_id: "2026-08".to_owned(),
        ticket_id: "ticket".to_owned(),
        relay_session_id: "session".to_owned(),
        role: "controller".to_owned(),
        device_id: "controller".to_owned(),
        controller_id: "controller".to_owned(),
        controlled_id: "target".to_owned(),
        relay_server: "relay.example".to_owned(),
        issued_at: now,
        expires_at: now + 60,
        conn_type: DEFAULT_CONN,
        max_bytes: 1024,
        max_seconds: 60,
        ..Default::default()
    };
    sign_relay_ticket(&mut ticket, &secret_key).expect("ticket should be serializable");
    assert!(verify_relay_ticket(&ticket, &public_key));
    ticket.device_id = "attacker".to_owned();
    assert!(!verify_relay_ticket(&ticket, &public_key));
}

#[test]
fn fields_carry_their_length_in_network_order() {
    let mut payload = vec![9];
    append_bytes(&mut payload, &[1, 2, 3]);
    append_str(&mut payload, "é");
    append_i64(&mut payload, -2);
    append_i32(&mut payload, i32::MIN);
    assert_eq!(
        payload,
        [
            9, 0, 0, 0, 3, 1, 2, 3, 0, 0, 0, 2, 0xc3, 0xa9, 255, 255, 255, 255, 255, 255, 255, 254,
            0x80, 0, 0, 0
        ]
    );
}

#[test]
fn lease_payload_has_its_layout() {
    let mut expected = vec![0, 0, 0, 26];
    expected.extend_from_slice(b"masterdesk-device-lease-v1");
    expected.extend_from_slice(b"\0\0\0\x02id\0\0\0\x01i\0\0\0\x02se\0\0\0\0\0\0\x01\0");
    assert_eq!(device_lease_payload("id", b"i", b"se", 256), expected);
}

#[test]
fn rotation_payload_has_its_layout() {
    let mut expected = vec![0, 0, 0, 31];
    expected.extend_from_slice(b"masterdesk-identity-rotation-v1");
    expected.extend_from_slice(b"\0\0\0\x02id\0\0\0\x02se\0\0\0\0\0\0\0\x07\0\0\0\x01n");
    assert_eq!(identity_rotation_payload("id", b"se", 7, b"n"), expected);
}

#[test]
fn relay_auth_payload_has_its_layout() {
    let mut expected = vec![0, 0, 0, 24];
    expected.extend_from_slice(b"masterdesk-relay-auth-v1");
    expected.extend_from_slice(b"\0\0\0\x01t\0\0\0\x01u\0\0\0\x01r\0\0\0\x05\0\0\0\x01q");
    expected.extend_from_slice(b"\0\0\0\x01s\0\0\0\0\0\0\0\x01");
    assert_eq!(relay_auth_payload("t", "u", "r", 5, "q", b"s", 1), expected);
}

#[test]
fn ticket_payload_has_its_layout() {
    let ticket = RelayTicket {
        version: 1,
        key_id: "k".to_owned(),
        issued_at: -1,
        conn_type: -1,
        max_bytes: 300,
        max_seconds: 60,
        signature: vec![1, 2, 3],
        unknown_fields: vec![0x80, 0x01, 0x05],
        ..Default::default()
    };
    let mut encoded = vec![0x08, 0x01, 0x12, 0x01, b'k'];
    let minus_one = [255, 255, 255, 255, 255, 255, 255, 255, 255, 1];
    encoded.push(0x50);
    encoded.extend_from_slice(&minus_one);
    encoded.push(0x60);
    encoded.extend_from_slice(&minus_one);
    encoded.extend_from_slice(&[0x68, 0xac, 0x02, 0x70, 60, 0x80, 0x01, 0x05]);
    let mut expected = vec![0, 0, 0, 26];
    expected.extend_from_slice(b"masterdesk-relay-ticket-v1");
    expected.extend_from_slice(&[0, 0, 0, encoded.len() as u8]);
    expected.extend_from_slice(&encoded);
    assert_eq!(relay_ticket_payload(&ticket).unwrap(), expected);
    assert_eq!(
        relay_ticket_payload(&RelayTicket::default()).unwrap().len(),
        4 + 26 + 4
    );
}

#[test]
fn every_field_of_a_ticket_is_signed_but_the_signature() {
    let (public_key, secret_key) = keys();
    let mut ticket = RelayTicket { key_id: "k".to_owned(), max_seconds: 1, ..Default::default() };
    sign_relay_ticket(&mut ticket, &secret_key).unwrap();
    let signature = ticket.signature.clone();
    sign_relay_ticket(&mut ticket, &secret_key).unwrap();
    assert_eq!(ticket.signature, signature);

    let changes: [fn(&mut RelayTicket); 8] = [
        |t| t.version = 1,
        |t| t.key_id = "other".to_owned(),
        |t| t.role = "controlled".to_owned(),
        |t| t.expires_at = 1,
        |t| t.conn_type = 1,
        |t| t.max_bytes = 1,
        |t| t.max_seconds = 0,
        |t| t.unknown_fields = vec![0x80, 0x01, 0x01],
    ];
    for change in changes {
        let mut other = ticket.clone();
        change(&mut other);
        assert!(!verify_relay_ticket(&other, &public_key));
    }
    assert!(verify_relay_ticket(&ticket, &public_key));
}

#[test]
fn messages_are_bound_to_every_part() {
    let (public_key, secret_key) = keys();
    let lease = device_lease_at("id", b"i", b"s", 5, &secret_key);
    assert_eq!(lease.timestamp, 5);
    assert_eq!(lease.signature.len(), 64);
    assert!(verify_device_lease("id", &lease, &public_key));
    let mut later = lease.clone();
    later.timestamp = 6;
    assert!(!verify_device_lease("id", &later, &public_key));
    // The boundary between two parts is part of the message.
    let mut moved = lease.clone();
    moved.installation_id = b"is".to_vec();
    moved.session_nonce = b"".to_vec();
    assert!(!verify_device_lease("id", &moved, &public_key));

    let rotation = identity_rotation_at("id", b"s", 5, b"nonce".to_vec(), &secret_key);
    assert!(verify_identity_rotation("id", &rotation, &public_key));
    assert!(!verify_identity_rotation("di", &rotation, &public_key));

    let auth = relay_auth_at("t", "u", "r", 1, "q", b"s", 5, &secret_key);
    assert!(verify_relay_auth("t", "u", "r", 1, &auth, &public_key));
    assert!(!verify_relay_auth("t", "u", "r", 2, &auth, &public_key));
    assert!(!verify_relay_auth("t", "u", "x", 1, &auth, &public_key));
}

#[test]
fn a_signature_for_one_kind_of_message_is_none_for_another() {
    let (public_key, secret_key) = keys();
    let lease = device_lease_at("id", b"i", b"s", 5, &secret_key);
    let payload = identity_rotation_payload("id", b"s", 5, b"i");
    assert!(!verify_payload(&payload, &lease.signature, &public_key));
}

#[test]
fn ed25519_keys_and_signatures_are_the_standard_ones() {
    let (public_key, secret_key) = keys();
    assert_eq!(
        public_key.as_ref(),
        &hex("d75a980182b10ab7d54bfed3c964073a0ee172f3daa62325af021a68f707511a")[..]
    );
    let signature = sign_payload(b"", &secret_key);
    assert_eq!(
        signature,
        hex("e5564300c360ac729086e2cc806e828a84877f1eb8e5d974d873e065224901555fb8821590a33bacc61e39701cf9b46bd25bf5f0595bbe24655141438e7a100b")
    );
    assert!(verify_payload(b"", &signature, &public_key));
    assert!(!verify_payload(b"x", &signature, &public_key));
    assert!(key_pair_from_seed(&[0; 31]).is_none());
}

#[test]
fn bytes_that_are_no_signature_are_refused() {
    let (public_key, secret_key) = keys();
    let mut signature = sign_payload(b"m", &secret_key);
    assert!(!verify_payload(b"m", &signature[..63], &public_key));
    assert!(!verify_payload(b"m", b"", &public_key));
    signature[63] |= 0xe0;
    assert!(!verify_payload(b"m", &signature, &public_key));
}

#[test]
fn keys_have_their_lengths() {
    let bytes: Vec<u8> = (0..64).collect();
    let secret_key = secret_key_from_bytes(&bytes).unwrap();
    assert_eq!(secret_key.as_ref(), &bytes[..]);
    assert!(secret_key_from_bytes(&bytes[..63]).is_none());
    let public_key = public_key_from_bytes(&bytes[..32]).unwrap();
    assert_eq!(public_key.as_ref(), &bytes[..32]);
    assert!(public_key_from_bytes(&bytes).is_none());
}

#[test]
fn public_keys_are_read_from_base64() {
    let bytes: Vec<u8> = (0..32).collect();
    let key = public_key_from_base64("AAECAwQFBgcICQoLDA0ODxAREhMUFRYXGBkaGxwdHh8=").unwrap();
    assert_eq!(key.as_ref(), &bytes[..]);
    assert!(public_key_from_base64("AAECAwQFBgcICQoLDA0ODxAREhMUFRYXGBkaGxwdHh8").is_none());
    assert!(public_key_from_base64("AAEC").is_none());
    assert!(public_key_from_base64("not base64").is_none());
}

#[test]
fn timestamps_are_fresh_within_the_allowed_skew() {
    assert!(timestamp_is_fresh(100, 110, 10));
    assert!(timestamp_is_fresh(110, 100, 10));
    assert!(!timestamp_is_fresh(100, 111, 10));
    assert!(!timestamp_is_fresh(111, 100, 10));
    assert!(timestamp_is_fresh(i64::MIN, i64::MAX, u64::MAX));
    assert!(!timestamp_is_fresh(i64::MIN, i64::MAX, u64::MAX - 1));
    assert!(timestamp_is_fresh(5, 5, 0));
}

#[test]
fn the_clock_shows_seconds_since_the_epoch() {
    assert!(unix_timestamp_secs() > 1_600_000_000);
    assert_eq!(timestamp_from_elapsed(Some(7)), 7);
    assert_eq!(timestamp_from_elapsed(Some(u64::MAX)), i64::MAX);
    assert_eq!(timestamp_from_elapsed(None), 0);
}

#[test]
fn nonces_have_the_length_asked_for_and_differ() {
    assert!(random_nonce(0).is_empty());
    let nonce = random_nonce(24);
    assert_eq!(nonce.len(), 24);
    assert_ne!(nonce, random_nonce(24));
    let (_, secret_key) = keys();
    assert_eq!(new_identity_rotation("id", b"s", &secret_key).nonce.len(), 24);
}

#[test]
fn a_session_nonce_is_never_replaced() {
    let mut cell = SessionNonce::new();
    assert!(!initialize_process_session_nonce(&mut cell, vec![1; 15]));
    assert!(initialize_process_session_nonce(&mut cell, vec![1; 16]));
    assert!(initialize_process_session_nonce(&mut cell, vec![1; 16]));
    assert!(!initialize_process_session_nonce(&mut cell, vec![2; 16]));
    assert_eq!(process_session_nonce(&mut cell), [1; 16]);
}

#[test]
fn a_session_nonce_that_was_used_is_kept() {
    let mut cell = SessionNonce::new();
    let nonce = process_session_nonce(&mut cell).to_vec();
    assert_eq!(nonce.len(), 32);
    assert_eq!(process_session_nonce(&mut cell), &nonce[..]);
    assert!(!initialize_process_session_nonce(&mut cell, vec![3; 32]));
    assert!(initialize_process_session_nonce(&mut cell, nonce.clone()));
    assert_eq!(process_session_nonce(&mut cell), &nonce[..]);
}
