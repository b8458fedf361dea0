use chacha20poly1305::aead::{Aead, KeyInit};
use thther::proto::crypto::{
    derive_key, nonce_for, CryptoError, Opener, Sealer, DIR_CLIENT_TO_SERVER, DIR_SERVER_TO_CLIENT,
    TAG_LEN,
};

#[test]
fn keys_are_hkdf_of_psk_and_both_nonces() {
    let (psk, client, server) = ([7u8; 32], [1u8; 32], [2u8; 32]);
    let mut salt = client.to_vec();
    salt.extend_from_slice(&server);
    let mut expected = [0u8; 32];
    hkdf::Hkdf::<sha2::Sha256>::new(Some(&salt), &psk)
        .expand(b"thther-v1-session-key", &mut expected)
        .unwrap();
    assert_eq!(derive_key(&psk, &client, &server), expected);
    // Each input matters.
    assert_ne!(derive_key(&[8; 32], &client, &server), expected);
    assert_ne!(derive_key(&psk, &server, &client), expected);
    assert_ne!(derive_key(&psk, &client, &[3; 32]), expected);
}

#[test]
fn nonces_carry_direction_and_counter() {
    assert_eq!(nonce_for(1, 0x0102030405060708), [1, 8, 7, 6, 5, 4, 3, 2, 1, 0, 0, 0]);
    assert_eq!(nonce_for(0, 0), [0; 12]);
    assert_ne!(nonce_for(0, 5), nonce_for(1, 5));
    assert_ne!(nonce_for(0, 5), nonce_for(0, 6));
}

#[test]
fn records_are_sealed_with_the_cipher() {
    let key = [9u8; 32];
    let cipher = chacha20poly1305::ChaCha20Poly1305::new(chacha20poly1305::Key::from_slice(&key));
    let mut sealer = Sealer::new(&key, DIR_SERVER_TO_CLIENT);
    for counter in 0..3u64 {
        let nonce = nonce_for(DIR_SERVER_TO_CLIENT, counter);
        let expected = cipher
            .encrypt(chacha20poly1305::Nonce::from_slice(&nonce), &b"hello"[..])
            .unwrap();
        let sealed = sealer.seal(b"hello").unwrap();
        assert_eq!(sealed, expected);
        assert_eq!(sealed.len(), 5 + TAG_LEN);
    }
}

#[test]
fn a_record_opens_once_and_in_order() {
    let key = [9u8; 32];
    let mut sealer = Sealer::new(&key, DIR_CLIENT_TO_SERVER);
    let mut opener = Opener::new(&key, DIR_CLIENT_TO_SERVER);
    let first = sealer.seal(b"first").unwrap();
    let second = sealer.seal(b"").unwrap();
    assert_eq!(opener.open(&second), Err(CryptoError::AuthFailed));
    assert_eq!(opener.open(&first), Ok(b"first".to_vec()));
    assert_eq!(opener.open(&first), Err(CryptoError::AuthFailed));
    assert_eq!(opener.open(&second), Ok(Vec::new()));
}

#[test]
fn wrong_keys_directions_and_tampering_fail() {
    let mut sealer = Sealer::new(&[9; 32], DIR_CLIENT_TO_SERVER);
    let record = sealer.seal(b"secret").unwrap();
    assert_eq!(
        Opener::new(&[8; 32], DIR_CLIENT_TO_SERVER).open(&record),
        Err(CryptoError::AuthFailed)
    );
    assert_eq!(
        Opener::new(&[9; 32], DIR_SERVER_TO_CLIENT).open(&record),
        Err(CryptoError::AuthFailed)
    );
    let mut opener = Opener::new(&[9; 32], DIR_CLIENT_TO_SERVER);
    let mut tampered = record.clone();
    tampered[0] ^= 1;
    assert_eq!(opener.open(&tampered), Err(CryptoError::AuthFailed));
    assert_eq!(opener.open(&[]), Err(CryptoError::AuthFailed));
    // A failure does not lose the place.
    assert_eq!(opener.open(&record), Ok(b"secret".to_vec()));
}

#[test]
fn crypto_errors_read_as_documented() {
    assert_eq!(CryptoError::CounterExhausted.message(), "nonce counter exhausted");
    assert_eq!(CryptoError::SealFailed.message(), "seal failed");
    assert_eq!(CryptoError::AuthFailed.message(), "decrypt/auth failed");
}
