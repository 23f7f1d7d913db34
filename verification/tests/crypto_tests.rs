use yoroi::base64;
use yoroi::crypto_aes::{decode, encode, Aes};
use yoroi::hash;

#[test]
fn test_encode() {
    let aes = Aes::new(vec![0x42; 32], vec![0x42; 16]);

    let plaintext = b"8d487643-8a4c-4045-aa97-3498b7fa5e91";
    let result = encode(&aes, plaintext);
    let output = decode(&aes, &result).unwrap();
    assert_eq!(plaintext[..], output[..]);
}

#[test]
fn ciphertext_differs_from_plaintext_and_is_block_padded() {
    let aes = Aes::new(vec![7; 32], vec![9; 16]);
    let plaintext = b"hello world";
    let ct = encode(&aes, plaintext);
    assert_eq!(ct.len(), 16);
    assert_ne!(&ct[..plaintext.len()], &plaintext[..]);
    let ct2 = encode(&aes, b"0123456789abcdef");
    assert_eq!(ct2.len(), 32);
}

#[test]
fn decode_rejects_garbage_buffers() {
    let aes = Aes::new(vec![7; 32], vec![9; 16]);
    // not a whole number of blocks
    assert!(decode(&aes, b"short").is_none());
    // whole blocks, but the padding cannot be valid
    assert!(decode(&aes, &[0u8; 16]).is_none());
}

#[test]
fn base64_encoding_matches_known_vectors() {
    assert_eq!(base64::encode(b""), "");
    assert_eq!(base64::encode(b"abc"), "YWJj");
    assert_eq!(base64::encode(b"a"), "YQ==");
    assert_eq!(base64::encode(b"hello world"), "aGVsbG8gd29ybGQ=");
}

#[test]
fn base64_decoding_round_trips_and_rejects_garbage() {
    assert_eq!(base64::decode(b"YWJj").unwrap(), b"abc".to_vec());
    assert_eq!(base64::decode(b"YQ==").unwrap(), b"a".to_vec());
    let data: Vec<u8> = (0u8..=255).collect();
    let enc = base64::encode(&data);
    assert_eq!(base64::decode(enc.as_bytes()).unwrap(), data);
    assert!(base64::decode(b"!!!").is_err());
    assert!(base64::decode(b"YWJ").is_err());
}

#[test]
fn bcrypt_hash_verifies_its_own_password() {
    let hashed = hash::make("password".to_string()).unwrap();
    assert_eq!(hashed.len(), 60);
    assert_eq!(hash::check("password".to_string(), &hashed), Some(true));
    assert_eq!(hash::check("wrong".to_string(), &hashed), Some(false));
}

#[test]
fn bcrypt_check_on_malformed_hash_is_none() {
    assert_eq!(hash::check("password".to_string(), "not a hash"), None);
}
