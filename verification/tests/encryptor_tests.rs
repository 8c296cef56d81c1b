use aes_gcm::aead::generic_array::GenericArray;
use aes_gcm::aead::Aead;
use aes_gcm::{Aes256Gcm, KeyInit};
use base64::engine::general_purpose::{STANDARD, URL_SAFE_NO_PAD};
use base64::Engine;
use relay::aes256_gcm_encryptor::Aes256GcmEncryptor;
use relay::aes_encryptor::AesEncryptor;

const TAMPERED: &str = "Erreur de décryptage : La clé est incorrecte ou le message à été altéré.";
const NOT_UTF8: &str = "Erreur de décryptage : La chaine UTF-8 est invalide.";

fn seal(key: &[u8; 32], nonce: &[u8; 12], plaintext: &[u8]) -> Vec<u8> {
    Aes256Gcm::new(GenericArray::from_slice(key))
        .encrypt(GenericArray::from_slice(nonce), plaintext)
        .unwrap()
}

#[test]
fn gcm_encryptor_round_trip() {
    let e = Aes256GcmEncryptor::new([7u8; 32]);
    let text = e.encrypt("bonjour le relais");
    assert_eq!(e.decrypt(&text), "bonjour le relais");
}

#[test]
fn gcm_encryptor_round_trip_empty_and_unicode() {
    let e = Aes256GcmEncryptor::new([42u8; 32]);
    assert_eq!(e.decrypt(&e.encrypt("")), "");
    assert_eq!(e.decrypt(&e.encrypt("été 20€ ✓")), "été 20€ ✓");
}

#[test]
fn gcm_encryptor_format_with_fixed_nonce() {
    let key = [3u8; 32];
    let nonce = [9u8; 12];
    let e = Aes256GcmEncryptor::new(key);
    let text = e.encrypt_with_nonce("hello", nonce);
    let expected = format!(
        "{}:{}",
        URL_SAFE_NO_PAD.encode(nonce),
        URL_SAFE_NO_PAD.encode(seal(&key, &nonce, b"hello"))
    );
    assert_eq!(text, expected);
    assert_eq!(text.split(':').count(), 2);
    let parts: Vec<&str> = text.split(':').collect();
    assert_eq!(parts[0].len(), 16);
    assert_eq!(parts[1].len(), 28); // base64 without padding of 5 + 16 bytes
    assert_eq!(e.decrypt(&text), "hello");
}

#[test]
fn gcm_encryptor_nonces_differ() {
    let e = Aes256GcmEncryptor::new([1u8; 32]);
    assert_ne!(e.encrypt("same"), e.encrypt("same"));
}

#[test]
fn gcm_encryptor_ignores_parts_after_second_colon() {
    let e = Aes256GcmEncryptor::new([5u8; 32]);
    let text = e.encrypt("abc");
    assert_eq!(e.decrypt(&format!("{}:extra", text)), "abc");
}

#[test]
fn gcm_encryptor_rejects_bad_input() {
    let e = Aes256GcmEncryptor::new([5u8; 32]);
    assert_eq!(e.try_decrypt("no colon here"), None);
    assert_eq!(e.try_decrypt("!!!:???"), None);
    // a nonce that is not 12 bytes long
    let short = format!("{}:{}", URL_SAFE_NO_PAD.encode([1u8; 11]), URL_SAFE_NO_PAD.encode([0u8; 20]));
    assert_eq!(e.try_decrypt(&short), None);
    // another key
    let other = Aes256GcmEncryptor::new([6u8; 32]);
    assert_eq!(other.try_decrypt(&e.encrypt("secret")), None);
    assert_eq!(e.try_decrypt(&e.encrypt("secret")), Some("secret".to_string()));
}

#[test]
fn gcm_encryptor_reads_invalid_utf8_lossily() {
    let key = [8u8; 32];
    let nonce = [2u8; 12];
    let text = format!(
        "{}:{}",
        URL_SAFE_NO_PAD.encode(nonce),
        URL_SAFE_NO_PAD.encode(seal(&key, &nonce, &[b'a', 0xff, b'b']))
    );
    assert_eq!(Aes256GcmEncryptor::new(key).decrypt(&text), "a\u{fffd}b");
}

fn key_text(byte: u8) -> String {
    STANDARD.encode([byte; 32])
}

#[test]
fn aes_encryptor_round_trip() {
    let key = key_text(17);
    assert_eq!(key.len(), 44);
    let packet = AesEncryptor::encrypt(&key, "message secret".to_string());
    let bytes = STANDARD.decode(&packet).unwrap();
    assert_eq!(AesEncryptor::decrypt(&key, &bytes), Ok("message secret".to_string()));
}

#[test]
fn aes_encryptor_packet_layout() {
    let key = key_text(4);
    let iv = [6u8; 12];
    let packet = AesEncryptor::encrypt_with_iv(&key, "abc".to_string(), iv);
    let mut expected = iv.to_vec();
    expected.extend_from_slice(&seal(&[4u8; 32], &iv, b"abc"));
    assert_eq!(packet, STANDARD.encode(&expected));
}

#[test]
fn aes_encryptor_uses_first_32_key_bytes() {
    let long_key = STANDARD.encode([9u8; 40]);
    let iv = [1u8; 12];
    let a = AesEncryptor::encrypt_with_iv(&long_key, "x".to_string(), iv);
    let b = AesEncryptor::encrypt_with_iv(&key_text(9), "x".to_string(), iv);
    assert_eq!(a, b);
}

#[test]
fn aes_encryptor_wrong_key_is_reported() {
    let packet = AesEncryptor::encrypt(&key_text(1), "hi".to_string());
    let bytes = STANDARD.decode(&packet).unwrap();
    assert_eq!(AesEncryptor::decrypt(&key_text(2), &bytes), Err(TAMPERED.to_string()));
}

#[test]
fn aes_encryptor_altered_message_is_reported() {
    let key = key_text(1);
    let packet = AesEncryptor::encrypt(&key, "hi".to_string());
    let mut bytes = STANDARD.decode(&packet).unwrap();
    let last = bytes.len() - 1;
    bytes[last] ^= 1;
    assert_eq!(AesEncryptor::decrypt(&key, &bytes), Err(TAMPERED.to_string()));
}

#[test]
fn aes_encryptor_invalid_utf8_is_reported() {
    let iv = [3u8; 12];
    let mut bytes = iv.to_vec();
    bytes.extend_from_slice(&seal(&[5u8; 32], &iv, &[0xc3, 0x28]));
    assert_eq!(AesEncryptor::decrypt(&key_text(5), &bytes), Err(NOT_UTF8.to_string()));
}

#[test]
fn aes_encryptor_try_variants() {
    assert_eq!(AesEncryptor::try_encrypt("not base64!", "x".to_string()), None);
    assert_eq!(AesEncryptor::try_encrypt(&STANDARD.encode([1u8; 31]), "x".to_string()), None);
    assert!(AesEncryptor::try_encrypt(&key_text(1), "x".to_string()).is_some());
}

#[test]
fn aes_encryptor_decrypt_reports_unusable_input() {
    // a ciphertext shorter than an initialisation vector
    assert_eq!(AesEncryptor::decrypt(&key_text(1), &vec![0u8; 11]), Err(TAMPERED.to_string()));
    assert_eq!(AesEncryptor::decrypt(&("A".repeat(43) + "="), &vec![0u8; 11]), Err(TAMPERED.to_string()));
    // a key text that is not base64, or decodes to fewer than 32 bytes
    assert_eq!(AesEncryptor::decrypt("???", &vec![0u8; 40]), Err(TAMPERED.to_string()));
    assert_eq!(AesEncryptor::decrypt(&STANDARD.encode([1u8; 31]), &vec![0u8; 40]), Err(TAMPERED.to_string()));
    // usable key, bytes that do not authenticate
    assert_eq!(AesEncryptor::decrypt(&key_text(1), &vec![0u8; 40]), Err(TAMPERED.to_string()));
}

#[test]
fn aes_encryptor_short_body_is_reported_as_altered() {
    for n in 12..28 {
        assert_eq!(AesEncryptor::decrypt(&key_text(1), &vec![7u8; n]), Err(TAMPERED.to_string()));
    }
}

#[test]
fn aes_encryptor_packet_is_28_bytes_longer() {
    let message = "été".to_string();
    let packet = AesEncryptor::encrypt(&key_text(2), message.clone());
    assert_eq!(packet.len(), 4 * ((message.len() + 28 + 2) / 3));
    assert!(packet.chars().all(|c| c.is_ascii_alphanumeric() || c == '+' || c == '/' || c == '='));
    assert_eq!(STANDARD.decode(&packet).unwrap().len(), message.len() + 28);
}

#[test]
fn gcm_encryptor_text_alphabet() {
    let text = Aes256GcmEncryptor::new([1u8; 32]).encrypt("quelque chose");
    assert!(text.chars().all(|c| c == ':' || c.is_ascii_alphanumeric() || c == '-' || c == '_'));
}
