use aidms_core::crypto::{decrypt_secret, encrypt_secret};
use base64::engine::general_purpose::STANDARD as B64;
use base64::Engine;

#[test]
fn roundtrip_encrypt_decrypt() {
    let pw = "device-binding-passphrase";
    let secret = "sk-xxxx-敏感-API-Key-内容";
    let enc = encrypt_secret(secret, pw).unwrap();
    assert!(!enc.contains(secret));
    let dec = decrypt_secret(&enc, pw).unwrap();
    assert_eq!(dec, secret);
}

#[test]
fn wrong_passphrase_fails() {
    let enc = encrypt_secret("topsecret", "right").unwrap();
    assert!(decrypt_secret(&enc, "wrong").is_err());
}

#[test]
fn tampered_ciphertext_fails() {
    let enc = encrypt_secret("topsecret", "pw").unwrap();
    let mut raw = B64.decode(&enc).unwrap();
    let last = raw.len() - 1;
    raw[last] ^= 0xFF;
    let tampered = B64.encode(raw);
    assert!(decrypt_secret(&tampered, "pw").is_err());
}

#[test]
fn short_or_invalid_input_messages() {
    assert_eq!(decrypt_secret(&B64.encode([1u8; 10]), "pw").unwrap_err(), "密文长度不足");
    assert!(decrypt_secret("@@@", "pw").unwrap_err().starts_with("base64 解码失败: "));
    let wrong = decrypt_secret(&encrypt_secret("a", "b").unwrap(), "c").unwrap_err();
    assert_eq!(wrong, "解密失败（口令错误或数据被篡改）: aead::Error");
}

#[test]
fn layout_salt_nonce_ciphertext() {
    let enc = encrypt_secret("abc", "pw").unwrap();
    let raw = B64.decode(&enc).unwrap();
    assert_eq!(raw.len(), 16 + 12 + 3 + 16);
}
