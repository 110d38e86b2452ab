use aes_gcm::aead::Aead;
use aes_gcm::{Aes256Gcm, Key, KeyInit, Nonce};
use chatik::encryption::{
    decrypt, decrypt_with_key, encrypt_under, encrypt_with_key, parse_encrypted, EncryptionError,
};

const KEY: [u8; 32] = [7u8; 32];

fn flip_first_sealed_bit(value: &str) -> String {
    let (nonce_hex, sealed_hex) = value.split_once(':').unwrap();
    let mut sealed = hex::decode(sealed_hex).unwrap();
    sealed[0] ^= 1;
    format!("{}:{}", nonce_hex, hex::encode(sealed))
}

#[test]
fn empty_text_matches_known_vector() {
    let v = encrypt_with_key(&[0u8; 32], &[0u8; 12], "").unwrap();
    assert_eq!(v, "000000000000000000000000:530f8afbc74536b9a963b4f1c4cb738b");
}

#[test]
fn zero_block_matches_known_vector() {
    let text = "\0".repeat(16);
    let v = encrypt_with_key(&[0u8; 32], &[0u8; 12], &text).unwrap();
    assert_eq!(
        v,
        "000000000000000000000000:cea7403d4d606b6e074ec5d3baf39d18d0d1c8a799996bf0265b98b5d48ab919"
    );
    assert_eq!(decrypt_with_key(&[0u8; 32], &v), Ok(text));
}

#[test]
fn round_trip_restores_text() {
    for s in ["", "hello", "grüße, мир", "a:b:c", "line\nbreak"] {
        let v = encrypt_under(&KEY, s).unwrap();
        assert_eq!(decrypt_with_key(&KEY, &v), Ok(s.to_string()));
    }
}

#[test]
fn output_is_lowercase_hex_around_one_colon() {
    let v = encrypt_with_key(&KEY, &[0xAB; 12], "hello").unwrap();
    let (n, c) = v.split_once(':').unwrap();
    assert_eq!(n, "abababababababababababab");
    assert_eq!(c.len(), 2 * (5 + 16));
    assert!(c.chars().all(|ch| ch.is_ascii_hexdigit() && !ch.is_ascii_uppercase()));
}

#[test]
fn uppercase_hex_is_accepted() {
    let v = encrypt_under(&KEY, "hello").unwrap();
    assert_eq!(decrypt_with_key(&KEY, &v.to_uppercase()), Ok("hello".to_string()));
}

#[test]
fn flipped_bit_fails_authentication() {
    let v = encrypt_under(&KEY, "hello").unwrap();
    let tampered = flip_first_sealed_bit(&v);
    assert_eq!(decrypt_with_key(&KEY, &tampered), Err(EncryptionError::Crypto));
}

#[test]
fn every_flipped_bit_fails_authentication() {
    let v = encrypt_with_key(&KEY, &[1u8; 12], "hi").unwrap();
    let (n, c) = v.split_once(':').unwrap();
    let sealed = hex::decode(c).unwrap();
    for i in 0..sealed.len() * 8 {
        let mut t = sealed.clone();
        t[i / 8] ^= 1 << (i % 8);
        let value = format!("{}:{}", n, hex::encode(t));
        assert_eq!(decrypt_with_key(&KEY, &value), Err(EncryptionError::Crypto));
    }
}

#[test]
fn wrong_key_fails_authentication() {
    let v = encrypt_under(&KEY, "hello").unwrap();
    assert_eq!(decrypt_with_key(&[8u8; 32], &v), Err(EncryptionError::Crypto));
}

#[test]
fn same_text_twice_gives_different_values() {
    let a = encrypt_under(&KEY, "same").unwrap();
    let b = encrypt_under(&KEY, "same").unwrap();
    assert_ne!(a, b);
    assert_ne!(a.split_once(':').unwrap().0, b.split_once(':').unwrap().0);
}

#[test]
fn malformed_values_are_format_errors() {
    assert_eq!(decrypt_with_key(&KEY, "not-a-valid-format"), Err(EncryptionError::Format));
    assert_eq!(decrypt_with_key(&KEY, "zz:zz"), Err(EncryptionError::Format));
    assert_eq!(decrypt_with_key(&KEY, "00:00:00"), Err(EncryptionError::Format));
    assert_eq!(decrypt_with_key(&KEY, "abc:00"), Err(EncryptionError::Format));
    assert_eq!(decrypt_with_key(&KEY, ""), Err(EncryptionError::Format));
}

#[test]
fn parse_splits_nonce_and_sealed_bytes() {
    assert_eq!(parse_encrypted("0aFF:10"), Some((vec![0x0a, 0xff], vec![0x10])));
    assert_eq!(parse_encrypted(":"), Some((vec![], vec![])));
    assert_eq!(parse_encrypted("0a"), None);
    assert_eq!(parse_encrypted("0g:10"), None);
}

#[test]
fn short_nonce_is_crypto_error() {
    let v = encrypt_under(&KEY, "hello").unwrap();
    let (_, c) = v.split_once(':').unwrap();
    let value = format!("0011:{}", c);
    assert_eq!(decrypt_with_key(&KEY, &value), Err(EncryptionError::Crypto));
    assert_eq!(encrypt_with_key(&KEY, &[0u8; 11], "x"), Err(EncryptionError::Crypto));
}

#[test]
fn key_of_wrong_length_is_configuration_error() {
    assert_eq!(encrypt_under(&[1u8; 16], "x"), Err(EncryptionError::Configuration));
    let v = encrypt_under(&KEY, "x").unwrap();
    assert_eq!(decrypt_with_key(&[1u8; 31], &v), Err(EncryptionError::Configuration));
}

#[test]
fn non_utf8_plaintext_is_encoding_error() {
    let cipher = Aes256Gcm::new(Key::<Aes256Gcm>::from_slice(&KEY));
    let sealed = cipher.encrypt(Nonce::from_slice(&[2u8; 12]), &[0xffu8, 0xfe][..]).unwrap();
    let value = format!("{}:{}", hex::encode([2u8; 12]), hex::encode(sealed));
    assert_eq!(decrypt_with_key(&KEY, &value), Err(EncryptionError::Encoding));
}

#[test]
fn decrypt_reads_the_key_before_the_value() {
    let expected = match dotenvy::var("ENCRYPTION_KEY") {
        Err(_) => EncryptionError::Configuration,
        Ok(k) if k.len() != 32 => EncryptionError::Configuration,
        Ok(_) => EncryptionError::Format,
    };
    assert_eq!(decrypt(&"not-a-valid-format".to_string()), Err(expected));
    assert_eq!(decrypt(&"zz:zz".to_string()), Err(expected));
}
