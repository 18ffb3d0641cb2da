use review_engine::secrets::{decrypt_secret, encrypt_secret, is_encrypted, SecretError};

#[test]
fn encrypt_decrypt_round_trip() {
    let key = [7u8; 32];
    let plain = "glpat-super-secret";
    let enc = encrypt_secret(plain, &key).unwrap();
    assert!(enc.starts_with("enc:"), "encrypted value must carry the enc: prefix: {enc}");
    assert_eq!(decrypt_secret(&enc, &key).unwrap(), plain);
    // A fresh nonce per call: same plaintext, different ciphertext.
    let enc2 = encrypt_secret(plain, &key).unwrap();
    assert_ne!(enc, enc2);
}

#[test]
fn decrypt_passes_through_legacy_plaintext() {
    let key = [9u8; 32];
    assert_eq!(decrypt_secret("glpat-plain", &key).unwrap(), "glpat-plain");
    assert_eq!(decrypt_secret("", &key).unwrap(), "");
    // A value that merely contains enc: mid-string is plaintext.
    assert_eq!(decrypt_secret("abc enc: def", &key).unwrap(), "abc enc: def");
}

#[test]
fn decrypt_corrupt_encrypted_value_is_an_error() {
    let key = [9u8; 32];
    let enc = encrypt_secret("secret", &key).unwrap();
    // Wrong key => AEAD authentication failure.
    assert!(decrypt_secret(&enc, &[8u8; 32]).is_err());
    // Truncated payload and invalid base64 are both corruption.
    assert!(decrypt_secret("enc:AAAA", &key).is_err());
    assert!(decrypt_secret("enc:!!!", &key).is_err());
}

#[test]
fn decrypt_error_kinds_name_the_corruption() {
    let key = [3u8; 32];
    let enc = encrypt_secret("secret", &key).unwrap();
    assert_eq!(decrypt_secret(&enc, &[4u8; 32]), Err(SecretError::Authentication));
    assert_eq!(decrypt_secret("enc:AAAA", &key), Err(SecretError::Truncated));
    assert_eq!(decrypt_secret("enc:!!!", &key), Err(SecretError::InvalidBase64));
}

#[test]
fn encrypted_values_are_recognised_by_prefix_only() {
    let key = [1u8; 32];
    let enc = encrypt_secret("x", &key).unwrap();
    assert!(is_encrypted(&enc));
    assert!(is_encrypted("enc:"));
    assert!(!is_encrypted("plain"));
    assert!(!is_encrypted("abc enc: def"));
    assert!(!is_encrypted(""));
}

#[test]
fn encrypted_value_is_not_the_plaintext() {
    let key = [5u8; 32];
    let enc = encrypt_secret("glpat-abc", &key).unwrap();
    assert!(!enc.contains("glpat-abc"));
    // base64 of a 12-byte nonce plus a 9-byte ciphertext and a 16-byte tag
    assert_eq!(enc.len(), "enc:".len() + 52);
}
