//! Encryption envelope behaviour: key derivation, sealing and opening,
//! authenticity under corruption, and wrong-password failure.

use ubl::crypto::{
    decrypt, derive_key, encrypt, open_envelope, seal_envelope, CryptoError,
};
use ubl::ops::{extract_container, FileInput};
use ubl::update::compress_archive;

#[test]
fn derive_key_is_deterministic_and_salt_sensitive() {
    let salt_a = [1u8; 16];
    let salt_b = [2u8; 16];
    let k1 = derive_key("secret", &salt_a);
    let k2 = derive_key("secret", &salt_a);
    let k3 = derive_key("secret", &salt_b);
    let k4 = derive_key("other", &salt_a);
    assert_eq!(k1, k2);
    assert_ne!(k1, k3);
    assert_ne!(k1, k4);
    assert_ne!(k1, [0u8; 32]);
}

#[test]
fn encrypt_layout_and_round_trip() {
    let (salt, nonce, ciphertext) = encrypt(b"container bytes", "pw");
    assert_eq!(salt.len(), 16);
    assert_eq!(nonce.len(), 12);
    assert_eq!(ciphertext.len(), b"container bytes".len() + 16);
    let plain = decrypt(&salt, &nonce, &ciphertext, "pw").unwrap();
    assert_eq!(plain, b"container bytes");
}

#[test]
fn encrypt_uses_fresh_salt_and_nonce() {
    let (salt1, nonce1, ct1) = encrypt(b"same data", "pw");
    let (salt2, nonce2, ct2) = encrypt(b"same data", "pw");
    assert!(salt1 != salt2 || nonce1 != nonce2);
    assert_ne!(ct1, ct2);
}

#[test]
fn seal_then_open() {
    let env = seal_envelope(b"some plaintext", "pw").unwrap();
    assert_eq!(env.len(), b"some plaintext".len() + 44);
    let plain = open_envelope(&env, "pw").unwrap();
    assert_eq!(plain, b"some plaintext");
}

#[test]
fn open_rejects_short_envelope() {
    let err = open_envelope(&[0u8; 27], "pw").unwrap_err();
    assert_eq!(err, CryptoError::TooShort);
}

#[test]
fn flipped_ciphertext_byte_fails_authentication() {
    // Flipping a single ciphertext byte must fail the tag check, never
    // return corrupted-but-accepted plaintext. Also fails if sealing or
    // opening were handing bytes through unchanged.
    let env = seal_envelope(b"payload under protection", "pw").unwrap();
    let positions = [28, env.len() / 2, env.len() - 1];
    for &pos in &positions {
        let mut bad = env.clone();
        bad[pos] ^= 0x01;
        let err = open_envelope(&bad, "pw").unwrap_err();
        assert_eq!(err, CryptoError::AuthenticationFailed);
    }
}

#[test]
fn wrong_password_fails_authentication() {
    // Compress with one password, open with another: authentication fails
    // and no file is produced.
    let files = vec![FileInput { path: b"a.txt".to_vec(), data: b"secret data".to_vec() }];
    let archive = compress_archive(&files, Some("pw1")).unwrap();
    let err = open_envelope(&archive, "pw2").unwrap_err();
    assert_eq!(err, CryptoError::AuthenticationFailed);
    // With the right password the container extracts.
    let container = open_envelope(&archive, "pw1").unwrap();
    let out = extract_container(&container).unwrap();
    assert_eq!(out.len(), 1);
    assert_eq!(out[0].content.as_deref(), Some(b"secret data".as_slice()));
}
