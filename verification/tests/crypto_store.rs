//! Direct exercises of the key derivation, the cipher envelope, and the
//! session store.
use ruggine_modulare::crypto::{derive_chat_key, encrypt_bytes, decrypt_bytes, sort_ids};
use ruggine_modulare::envelope::{b64_encode, b64_decode, seal_message, open_message,
    parse_envelope, build_envelope, fresh_nonce, fresh_gcm_nonce};
use ruggine_modulare::messaging::{make_private_chat_id, make_group_chat_id};
use ruggine_modulare::model::{ServerState, ServiceError};

#[test]
fn chat_id_is_symmetric() {
    let ab = make_private_chat_id("u1", "u2");
    let ba = make_private_chat_id("u2", "u1");
    assert_eq!(ab, "private:u1-u2");
    assert_eq!(ab, ba);
    assert_eq!(make_group_chat_id("g7"), "group:g7");
}

#[test]
fn derive_key_ignores_participant_order() {
    let p1 = vec![String::from("u1"), String::from("u2"), String::from("u3")];
    let p2 = vec![String::from("u3"), String::from("u1"), String::from("u2")];
    let k1 = derive_chat_key(&p1, "master");
    let k2 = derive_chat_key(&p2, "master");
    assert_eq!(k1, k2);
    assert_eq!(k1.len(), 32);
    // a different master key yields a different chat key
    let k3 = derive_chat_key(&p1, "other");
    assert_ne!(k1, k3);
}

#[test]
fn sort_ids_orders_lexicographically() {
    let v = vec![String::from("ub"), String::from("ua"), String::from("uc")];
    let sorted = sort_ids(&v);
    assert_eq!(sorted, vec![String::from("ua"), String::from("ub"), String::from("uc")]);
}

#[test]
fn cipher_round_trip() {
    let key = derive_chat_key(&vec![String::from("u1"), String::from("u2")], "m");
    assert_eq!(fresh_nonce().len(), 16);
    let nonce = fresh_gcm_nonce();
    assert_eq!(nonce.len(), 12);
    let plain: Vec<u8> = b"attack at dawn".to_vec();
    let ct = encrypt_bytes(&plain, &key, &nonce);
    assert_ne!(ct, plain);
    assert_eq!(ct.len(), plain.len() + 16);
    assert_eq!(decrypt_bytes(&ct, &key, &nonce), Some(plain));
}

#[test]
fn cipher_rejects_tampering() {
    let key = derive_chat_key(&vec![String::from("u1")], "m");
    let nonce = fresh_gcm_nonce();
    let plain: Vec<u8> = b"payload".to_vec();
    let mut ct = encrypt_bytes(&plain, &key, &nonce);
    ct[0] ^= 0xff;
    assert_eq!(decrypt_bytes(&ct, &key, &nonce), None);
    // too short for a tag
    let short: Vec<u8> = vec![1, 2, 3];
    assert_eq!(decrypt_bytes(&short, &key, &nonce), None);
}

#[test]
fn envelope_round_trip() {
    let body = build_envelope("QUJD", "Tk9OQ0U=");
    assert_eq!(body, "{\"ciphertext\":\"QUJD\",\"nonce\":\"Tk9OQ0U=\"}");
    let (ct, nonce) = parse_envelope(&body).expect("the built envelope parses");
    assert_eq!(ct, "QUJD");
    assert_eq!(nonce, "Tk9OQ0U=");
    assert!(parse_envelope("just some text").is_none());
    assert!(parse_envelope("{\"ciphertext\":\"unterminated").is_none());
}

#[test]
fn base64_is_the_standard_alphabet() {
    let encoded = b64_encode(&vec![0u8, 0u8, 0u8]);
    assert_eq!(encoded, "AAAA");
    assert_eq!(b64_encode(&vec![255u8]), "/w==");
    assert_eq!(b64_decode("AAAA"), Some(vec![0u8, 0u8, 0u8]));
    assert_eq!(b64_decode("not base64!!!"), None);
}

#[test]
fn sealed_message_opens_to_the_original() {
    let key = derive_chat_key(&vec![String::from("u1"), String::from("u2")], "m");
    let nonce = fresh_gcm_nonce();
    let stored = seal_message("hello there", &key, &nonce);
    assert!(stored.starts_with("{\"ciphertext\":\""));
    assert_eq!(open_message(&stored, &key), Ok(String::from("hello there")));
    // a non-envelope body is a legacy plaintext record
    assert_eq!(open_message("plain old row", &key), Ok(String::from("plain old row")));
    // an envelope that does not decode fails as a decryption failure
    let broken = build_envelope("!!!!", "????");
    assert_eq!(open_message(&broken, &key), Err(ServiceError::DecryptionFailed));
}

#[test]
fn login_with_stale_token_is_a_storage_fault() {
    let mut st = ServerState::new();
    st.register("alice", "pw123456").unwrap();
    let tok = st
        .login_with_token("alice", "pw123456", String::from("fixed-token"), 10, 60)
        .unwrap();
    assert_eq!(tok, "fixed-token");
    let again = st.login_with_token("alice", "pw123456", String::from("fixed-token"), 11, 60);
    assert_eq!(again, Err(ServiceError::StoreUnavailable));
}

#[test]
fn validate_respects_expiry_boundary() {
    let mut st = ServerState::new();
    st.register("alice", "pw123456").unwrap();
    st.login_with_token("alice", "pw123456", String::from("tok"), 100, 10).unwrap();
    // expires_at is 110: live strictly before it, dead at it
    assert!(st.validate("tok", 109).is_some());
    assert!(st.validate("tok", 110).is_none());
    assert!(st.validate("other", 100).is_none());
}

#[test]
fn reaper_keeps_live_sessions() {
    let mut st = ServerState::new();
    st.register("alice", "pw123456").unwrap();
    st.register("bob", "pw123456").unwrap();
    st.login_with_token("alice", "pw123456", String::from("ta"), 0, 5).unwrap();
    st.login_with_token("bob", "pw123456", String::from("tb"), 0, 100).unwrap();
    st.cleanup_expired_sessions(50);
    assert_eq!(st.sessions.len(), 1);
    assert_eq!(st.sessions[0].token, "tb");
    let alice = st.users.iter().find(|u| u.username == "alice").unwrap();
    let bob = st.users.iter().find(|u| u.username == "bob").unwrap();
    assert!(!alice.is_online);
    assert!(bob.is_online);
}
