use base64::Engine;
use chacha20poly1305::aead::Aead;
use chacha20poly1305::KeyInit;
use medguard::crypto::AeadAlgorithm;
use medguard::crypto::Crypto;
use medguard::crypto::CryptoError;
use medguard::crypto::OneNonceSequence;

#[test]
fn test_encryption_decryption() {
    let crypto = Crypto::new();
    let key = crypto.generate_key().unwrap();
    let plaintext = b"Hello, MedGuard!".to_vec();

    let encrypted = crypto.encrypt(&plaintext, &key).unwrap();
    let decrypted = crypto.decrypt(&encrypted, &key).unwrap();

    assert_eq!(plaintext, decrypted);
}

#[test]
fn test_hash_deterministic() {
    let crypto = Crypto::new();
    let data = b"Test data".to_vec();

    let hash1 = crypto.hash(&data);
    let hash2 = crypto.hash(&data);

    assert_eq!(hash1, hash2);
}

#[test]
fn test_different_data_different_hash() {
    let crypto = Crypto::new();

    let hash1 = crypto.hash(&b"data1".to_vec());
    let hash2 = crypto.hash(&b"data2".to_vec());

    assert_ne!(hash1, hash2);
}

#[test]
fn hash_of_empty_input_is_the_known_digest() {
    let crypto = Crypto::new();
    let digest = crypto.hash(&Vec::new());
    assert_eq!(
        digest,
        "af1349b9f5f9a1a6a0404dea36dcc9499bcb25c9adc112b7cc9a93cae41f3262"
    );
    assert_eq!(digest.len(), 64);
}

#[test]
fn decrypt_rejects_short_ciphertext() {
    let crypto = Crypto::new();
    let key = crypto.generate_key().unwrap();
    let r = crypto.decrypt(&vec![0u8; 5], &key);
    assert_eq!(r, Err(CryptoError::InvalidCiphertext));
}

#[test]
fn decrypt_rejects_wrong_key_length() {
    let crypto = Crypto::new();
    let r = crypto.decrypt(&vec![0u8; 20], &vec![0u8; 10]);
    assert_eq!(r, Err(CryptoError::InvalidKey));
}

#[test]
fn decrypt_rejects_tampered_ciphertext() {
    let crypto = Crypto::new();
    let key = crypto.generate_key().unwrap();
    let mut encrypted = crypto.encrypt(&b"sensitive".to_vec(), &key).unwrap();
    let last = encrypted.len() - 1;
    encrypted[last] ^= 0xff;
    let r = crypto.decrypt(&encrypted, &key);
    assert_eq!(r, Err(CryptoError::DecryptFailure));
}

#[test]
fn encrypt_rejects_wrong_key_length() {
    let crypto = Crypto::new();
    let r = crypto.encrypt(&b"data".to_vec(), &vec![0u8; 7]);
    assert!(r.is_err());
}

#[test]
fn xchacha_round_trips_as_well() {
    let crypto = Crypto::with_algorithm(AeadAlgorithm::XChaCha20Poly1305);
    let key = crypto.generate_key().unwrap();
    let plaintext = b"record".to_vec();
    let encrypted = crypto.encrypt(&plaintext, &key).unwrap();
    // The sealed layout is nonce || ciphertext, so the payload is strictly
    // longer than nonce plus tag alone would be.
    assert!(encrypted.len() >= 24 + 16);
    assert_eq!(crypto.decrypt(&encrypted, &key).unwrap(), plaintext);
}

#[test]
fn algorithm_sizes() {
    assert_eq!(AeadAlgorithm::Aes256Gcm.key_len(), 32);
    assert_eq!(AeadAlgorithm::Aes256Gcm.nonce_len(), 12);
    assert_eq!(AeadAlgorithm::XChaCha20Poly1305.key_len(), 32);
    assert_eq!(AeadAlgorithm::XChaCha20Poly1305.nonce_len(), 24);
}

#[test]
fn nonce_sequence_yields_exactly_once() {
    let mut seq = OneNonceSequence::new(vec![7u8; 12]);
    assert_eq!(seq.advance().unwrap(), vec![7u8; 12]);
    assert!(seq.advance().is_err());
}

#[test]
fn derive_key_is_deterministic_and_32_bytes() {
    let crypto = Crypto::new();
    let salt = b"0123456789abcdef".to_vec();
    let k1 = crypto.derive_key("correct horse", &salt).unwrap();
    let k2 = crypto.derive_key("correct horse", &salt).unwrap();
    assert_eq!(k1, k2);
    assert_eq!(k1.len(), 32);
    let k3 = crypto.derive_key("correct horse", &b"fedcba9876543210".to_vec()).unwrap();
    assert_ne!(k1, k3);
}

#[test]
fn derive_key_rejects_oversized_salt() {
    let crypto = Crypto::new();
    let r = crypto.derive_key("pw", &vec![0u8; 100]);
    assert_eq!(r, Err(CryptoError::KeyDerivationFailure));
}

#[test]
fn encrypt_payload_is_openable_with_the_returned_key() {
    let data = b"patient records batch".to_vec();
    let p = medguard::crypto::encrypt_payload(&data).unwrap();

    // The base64 text is the rendering of the ciphertext bytes.
    let decoded = base64::engine::general_purpose::STANDARD
        .decode(&p.ciphertext_b64)
        .unwrap();
    assert_eq!(decoded, p.ciphertext);

    // The returned key and nonce open the ciphertext.
    let cipher = chacha20poly1305::XChaCha20Poly1305::new_from_slice(&p.key).unwrap();
    let nonce = chacha20poly1305::XNonce::from_slice(&p.nonce);
    let opened = cipher.decrypt(nonce, p.ciphertext.as_slice()).unwrap();
    assert_eq!(opened, data);
}
