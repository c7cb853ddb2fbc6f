use aes_gcm::aead::Aead;
use aes_gcm::KeyInit;
use base64::Engine;
use macolint::encryption::Encryption;
use macolint::errors::SnipError;

#[test]
fn round_trip_returns_original_plaintext() {
    let cipher = Encryption::new("a master secret").unwrap();
    let blob = cipher.encrypt("hello world").unwrap();
    assert_eq!(cipher.decrypt(&blob).unwrap(), "hello world");
}

#[test]
fn round_trip_survives_unicode_and_empty_text() {
    let cipher = Encryption::new("s3cret").unwrap();
    for text in ["", "caf\u{e9} \u{1f600} text", "line1\nline2\t tab"] {
        let blob = cipher.encrypt(text).unwrap();
        assert_eq!(cipher.decrypt(&blob).unwrap(), text);
    }
}

#[test]
fn same_secret_derives_interchangeable_ciphers() {
    let one = Encryption::new("shared").unwrap();
    let two = Encryption::new("shared").unwrap();
    let blob = one.encrypt("payload").unwrap();
    assert_eq!(two.decrypt(&blob).unwrap(), "payload");
}

#[test]
fn two_encryptions_differ_by_nonce() {
    let cipher = Encryption::new("secret").unwrap();
    let first = cipher.encrypt("same plaintext").unwrap();
    let second = cipher.encrypt("same plaintext").unwrap();
    assert_ne!(first, second);
}

#[test]
fn bit_flip_in_ciphertext_fails_authentication() {
    let cipher = Encryption::new("secret").unwrap();
    let blob = cipher.encrypt("guarded text").unwrap();
    let mut bytes = base64::engine::general_purpose::STANDARD
        .decode(&blob)
        .unwrap();
    let target = bytes.len() - 1;
    bytes[target] ^= 0x01;
    let tampered = base64::engine::general_purpose::STANDARD.encode(&bytes);
    assert_eq!(
        cipher.decrypt(&tampered).unwrap_err(),
        SnipError::AuthenticationFailed
    );
}

#[test]
fn bit_flip_in_nonce_fails_authentication() {
    let cipher = Encryption::new("secret").unwrap();
    let blob = cipher.encrypt("guarded text").unwrap();
    let mut bytes = base64::engine::general_purpose::STANDARD
        .decode(&blob)
        .unwrap();
    bytes[0] ^= 0x80;
    let tampered = base64::engine::general_purpose::STANDARD.encode(&bytes);
    assert_eq!(
        cipher.decrypt(&tampered).unwrap_err(),
        SnipError::AuthenticationFailed
    );
}

#[test]
fn wrong_key_fails_authentication() {
    let writer = Encryption::new("right key").unwrap();
    let reader = Encryption::new("wrong key").unwrap();
    let blob = writer.encrypt("for the right key only").unwrap();
    assert_eq!(
        reader.decrypt(&blob).unwrap_err(),
        SnipError::AuthenticationFailed
    );
}

#[test]
fn short_envelope_is_malformed_not_a_crash() {
    let cipher = Encryption::new("secret").unwrap();
    // four base64 characters decode to three bytes: shorter than a nonce
    assert_eq!(
        cipher.decrypt("AAAA").unwrap_err(),
        SnipError::MalformedCiphertext
    );
    let empty = cipher.decrypt("");
    assert_eq!(empty.unwrap_err(), SnipError::MalformedCiphertext);
}

#[test]
fn invalid_base64_is_malformed() {
    let cipher = Encryption::new("secret").unwrap();
    assert_eq!(
        cipher.decrypt("!!!not-base64!!!").unwrap_err(),
        SnipError::MalformedCiphertext
    );
}

#[test]
fn sealed_non_utf8_payload_is_invalid_encoding() {
    // the same derivation the cipher performs
    let mut key = [0u8; 32];
    pbkdf2::pbkdf2_hmac::<sha2::Sha256>(b"secret", b"macolint-salt-v1", 100000, &mut key);
    let aead = aes_gcm::Aes256Gcm::new_from_slice(&key).unwrap();
    let nonce_bytes = [7u8; 12];
    let nonce =
        <&aes_gcm::Nonce<<aes_gcm::Aes256Gcm as aes_gcm::AeadCore>::NonceSize>>::try_from(
            &nonce_bytes[..],
        )
        .unwrap();
    // 0xff 0xfe is not valid UTF-8
    let sealed = aead.encrypt(nonce, &[0xffu8, 0xfe][..]).unwrap();
    let mut envelope = nonce_bytes.to_vec();
    envelope.extend_from_slice(&sealed);
    let blob = base64::engine::general_purpose::STANDARD.encode(&envelope);

    let cipher = Encryption::new("secret").unwrap();
    assert_eq!(
        cipher.decrypt(&blob).unwrap_err(),
        SnipError::InvalidEncoding
    );
}
