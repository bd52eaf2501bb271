//! Local encryption of secrets when the system keyring is unavailable: a key
//! derived from a device-bound passphrase with Argon2id, AES-256-GCM, and the
//! result stored as base64 of `salt[16] || nonce[12] || ciphertext`.

use vstd::prelude::*;

use aes_gcm::aead::{Aead, KeyInit};
use aes_gcm::{Aes256Gcm, Key, Nonce};
use base64::engine::general_purpose::STANDARD as B64;
use base64::Engine;
use rand::RngCore;
use vstd::utf8::{decode_utf8, encode_utf8, valid_utf8};

use crate::text::{chars_of, push_text, string_of};

verus! {

pub const SALT_LEN: usize = 16;

pub const NONCE_LEN: usize = 12;

pub const KEY_LEN: usize = 32;

/// Longest plaintext AES-GCM accepts, in bytes.
pub const PLAINTEXT_MAX: u64 = 0x10_0000_0000;

/// Longest password and salt Argon2 accepts, in bytes.
pub const ARGON2_INPUT_MAX: usize = 0xFFFF_FFFF;

/// `rand::thread_rng().fill_bytes` on a buffer of `n` bytes. The only claim:
/// the buffer has `n` bytes (their values are random).
#[verifier::external_body]
fn random_bytes(n: usize) -> (r: Vec<u8>)
    ensures
        r@.len() == n,
{
    let mut b = vec![0u8; n];
    rand::thread_rng().fill_bytes(&mut b);
    b
}

/// What `argon2::Argon2::default().hash_password_into` writes into a 32-byte
/// buffer for a password and a salt, or its error's message.
pub uninterp spec fn argon2_key(password: Seq<u8>, salt: Seq<u8>) -> Result<Seq<u8>, Seq<char>>;

/// Argon2id with default parameters into a 32-byte key. The claims: the
/// outcome is `argon2_key` of the inputs; a key has 32 bytes; it succeeds
/// exactly when the password has at most 2^32-1 bytes and the salt between 8
/// and 2^32-1 (the only input checks `verify_inputs` makes).
#[verifier::external_body]
fn argon2_derive(password: &[u8], salt: &[u8]) -> (r: Result<Vec<u8>, String>)
    ensures
        match r {
            Ok(k) => argon2_key(password@, salt@) == Ok::<Seq<u8>, Seq<char>>(k@) && k@.len() == KEY_LEN,
            Err(e) => argon2_key(password@, salt@) == Err::<Seq<u8>, Seq<char>>(e@),
        },
        (password@.len() <= ARGON2_INPUT_MAX && 8 <= salt@.len() <= ARGON2_INPUT_MAX) <==> r is Ok,
{
    let mut key = vec![0u8; 32];
    match argon2::Argon2::default().hash_password_into(password, salt, &mut key) {
        Ok(()) => Ok(key),
        Err(e) => Err(e.to_string()),
    }
}

/// What AES-256-GCM (no associated data) produces for a key, a nonce and a
/// plaintext: the ciphertext followed by its 16-byte tag.
pub uninterp spec fn aes_gcm_seal(key: Seq<u8>, nonce: Seq<u8>, plaintext: Seq<u8>) -> Seq<u8>;

/// What AES-256-GCM decryption gives: the plaintext, or none when the tag
/// does not verify.
pub uninterp spec fn aes_gcm_open(key: Seq<u8>, nonce: Seq<u8>, ciphertext: Seq<u8>) -> Option<Seq<u8>>;

/// `Aes256Gcm::encrypt`. The claims: the output is `aes_gcm_seal` of the
/// inputs, 16 bytes longer than the plaintext, and decrypts with the same key
/// and nonce to the plaintext; it fails (with "aead::Error") only on a
/// plaintext over `PLAINTEXT_MAX` bytes.
#[verifier::external_body]
fn aes_seal(key: &[u8], nonce: &[u8], plaintext: &[u8]) -> (r: Result<Vec<u8>, String>)
    requires
        key@.len() == KEY_LEN,
        nonce@.len() == NONCE_LEN,
    ensures
        match r {
            Ok(c) => plaintext@.len() <= PLAINTEXT_MAX && c@ == aes_gcm_seal(key@, nonce@, plaintext@) && c@.len()
                == plaintext@.len() + 16 && aes_gcm_open(key@, nonce@, c@) == Some(plaintext@),
            Err(e) => plaintext@.len() > PLAINTEXT_MAX && e@ == "aead::Error"@,
        },
{
    let cipher = Aes256Gcm::new(Key::<Aes256Gcm>::from_slice(key));
    cipher.encrypt(Nonce::from_slice(nonce), plaintext).map_err(|e| e.to_string())
}

/// `Aes256Gcm::decrypt`. The claim: the outcome is `aes_gcm_open` of the
/// inputs (a failure reads "aead::Error").
#[verifier::external_body]
fn aes_open(key: &[u8], nonce: &[u8], ciphertext: &[u8]) -> (r: Result<Vec<u8>, String>)
    requires
        key@.len() == KEY_LEN,
        nonce@.len() == NONCE_LEN,
    ensures
        match r {
            Ok(p) => aes_gcm_open(key@, nonce@, ciphertext@) == Some(p@),
            Err(e) => aes_gcm_open(key@, nonce@, ciphertext@) is None && e@ == "aead::Error"@,
        },
{
    let cipher = Aes256Gcm::new(Key::<Aes256Gcm>::from_slice(key));
    cipher.decrypt(Nonce::from_slice(nonce), ciphertext).map_err(|e| e.to_string())
}

/// What the standard base64 engine encodes bytes as.
pub uninterp spec fn base64_text(bytes: Seq<u8>) -> Seq<char>;

/// What the standard base64 engine decodes a text to, or its error's message.
pub uninterp spec fn base64_bytes(text: Seq<char>) -> Result<Seq<u8>, Seq<char>>;

pub open spec fn ok_bytes(b: Seq<u8>) -> Result<Seq<u8>, Seq<char>> {
    Ok(b)
}

/// A character of the standard base64 alphabet, or its padding `=`.
pub open spec fn is_base64_char(c: char) -> bool {
    ||| ('A' <= c && c <= 'Z')
    ||| ('a' <= c && c <= 'z')
    ||| ('0' <= c && c <= '9')
    ||| c == '+'
    ||| c == '/'
    ||| c == '='
}

/// Every character of the text is a base64 character.
pub open spec fn base64_only(t: Seq<char>) -> bool {
    forall|i: int| 0 <= i < t.len() ==> #[trigger] is_base64_char(t[i])
}

/// `STANDARD.encode`. The claims: the text is `base64_text` of the bytes,
/// made only of the standard alphabet and padding, and decoding it gives the
/// bytes back.
#[verifier::external_body]
fn b64_encode(bytes: &[u8]) -> (r: String)
    ensures
        r@ == base64_text(bytes@),
        base64_only(r@),
        base64_bytes(r@) == ok_bytes(bytes@),
{
    B64.encode(bytes)
}

/// `STANDARD.decode`. The claim: the outcome is `base64_bytes` of the text.
#[verifier::external_body]
fn b64_decode(text: &str) -> (r: Result<Vec<u8>, String>)
    ensures
        match r {
            Ok(b) => base64_bytes(text@) == Ok::<Seq<u8>, Seq<char>>(b@),
            Err(e) => base64_bytes(text@) == Err::<Seq<u8>, Seq<char>>(e@),
        },
{
    B64.decode(text).map_err(|e| e.to_string())
}

/// `String::from_utf8`. The claim: valid UTF-8 becomes the string it encodes;
/// anything else fails (the error's message is not described).
#[verifier::external_body]
fn utf8_string(bytes: Vec<u8>) -> (r: Result<String, String>)
    ensures
        match r {
            Ok(s) => valid_utf8(bytes@) && s@ == decode_utf8(bytes@),
            Err(_) => !valid_utf8(bytes@),
        },
{
    String::from_utf8(bytes).map_err(|e| e.to_string())
}

fn copy_bytes(s: &[u8], a: usize, b: usize) -> (r: Vec<u8>)
    requires
        a <= b <= s@.len(),
    ensures
        r@ == s@.subrange(a as int, b as int),
{
    let mut r: Vec<u8> = Vec::new();
    let mut i = a;
    while i < b
        invariant
            a <= i <= b <= s@.len(),
            r@ == s@.subrange(a as int, i as int),
        decreases b - i,
    {
        r.push(s[i]);
        proof {
            assert(s@.subrange(a as int, i + 1) =~= s@.subrange(a as int, i as int).push(s@[i as int]));
        }
        i = i + 1;
    }
    r
}

fn append_bytes(v: &mut Vec<u8>, t: &[u8])
    ensures
        final(v)@ == old(v)@ + t@,
{
    let mut i: usize = 0;
    while i < t.len()
        invariant
            0 <= i <= t@.len(),
            v@ == old(v)@ + t@.subrange(0, i as int),
        decreases t@.len() - i,
    {
        v.push(t[i]);
        proof {
            assert(t@.subrange(0, i + 1) =~= t@.subrange(0, i as int).push(t@[i as int]));
        }
        i = i + 1;
    }
    proof {
        assert(t@.subrange(0, t@.len() as int) =~= t@);
    }
}

/// A text holds a sealed secret with the given parts: base64 of a 16-byte
/// salt, a 12-byte nonce and a ciphertext that the key derived from the
/// passphrase and the salt opens to the secret's UTF-8 bytes.
pub open spec fn seals_with(
    text: Seq<char>,
    secret: Seq<char>,
    passphrase: Seq<char>,
    salt: Seq<u8>,
    nonce: Seq<u8>,
    ct: Seq<u8>,
    key: Seq<u8>,
) -> bool {
    &&& salt.len() == SALT_LEN
    &&& nonce.len() == NONCE_LEN
    &&& key.len() == KEY_LEN
    &&& base64_bytes(text) == ok_bytes(salt + nonce + ct)
    &&& argon2_key(encode_utf8(passphrase), salt) == ok_bytes(key)
    &&& aes_gcm_open(key, nonce, ct) == Some(encode_utf8(secret))
}

/// A text holds a sealed secret.
pub open spec fn seals(text: Seq<char>, secret: Seq<char>, passphrase: Seq<char>) -> bool {
    exists|salt: Seq<u8>, nonce: Seq<u8>, ct: Seq<u8>, key: Seq<u8>|
        #[trigger] seals_with(text, secret, passphrase, salt, nonce, ct, key)
}

/// Whether `t` occurs in `s` at some position.
pub open spec fn contains_text(s: Seq<char>, t: Seq<char>) -> bool {
    exists|i: int| 0 <= i && i + t.len() <= s.len() && #[trigger] s.subrange(i, i + t.len()) == t
}

/// A sealed text never shows a secret that holds a character outside the
/// base64 alphabet: the text is made of base64 characters only.
pub proof fn lemma_sealed_hides_secret(text: Seq<char>, secret: Seq<char>, k: int)
    requires
        base64_only(text),
        0 <= k < secret.len(),
        !is_base64_char(secret[k]),
    ensures
        !contains_text(text, secret),
{
    if contains_text(text, secret) {
        let i = choose|i: int| 0 <= i && i + secret.len() <= text.len() && #[trigger] text.subrange(i, i + secret.len()) == secret;
        assert(text.subrange(i, i + secret.len())[k] == text[i + k]);
        assert(is_base64_char(text[i + k]));
    }
}

/// Encrypts a secret under a device-bound passphrase. Salt and nonce are
/// random; whatever they are, a returned text seals the secret.
pub fn encrypt_secret(plaintext: &str, passphrase: &str) -> (r: Result<String, String>)
    ensures
        r matches Ok(t) ==> seals(t@, plaintext@, passphrase@) && base64_only(t@),
        (encode_utf8(passphrase@).len() <= ARGON2_INPUT_MAX && encode_utf8(plaintext@).len() <= PLAINTEXT_MAX)
            ==> r is Ok,
{
    let salt = random_bytes(SALT_LEN);
    let nonce = random_bytes(NONCE_LEN);
    let pw = passphrase.as_bytes();
    let key = match argon2_derive(pw, salt.as_slice()) {
        Ok(k) => k,
        Err(e) => {
            let mut m = chars_of("密钥派生失败: ");
            push_text(&mut m, e.as_str());
            return Err(string_of(m.as_slice()));
        },
    };
    let pt = plaintext.as_bytes();
    let ct = match aes_seal(key.as_slice(), nonce.as_slice(), pt) {
        Ok(c) => c,
        Err(e) => {
            let mut m = chars_of("加密失败: ");
            push_text(&mut m, e.as_str());
            return Err(string_of(m.as_slice()));
        },
    };
    let mut buf: Vec<u8> = Vec::new();
    append_bytes(&mut buf, salt.as_slice());
    append_bytes(&mut buf, nonce.as_slice());
    append_bytes(&mut buf, ct.as_slice());
    let t = b64_encode(buf.as_slice());
    proof {
        assert(pw@ == encode_utf8(passphrase@));
        assert(pt@ == encode_utf8(plaintext@));
        assert(salt@.len() == SALT_LEN && nonce@.len() == NONCE_LEN && key@.len() == KEY_LEN);
        assert(buf@ =~= salt@ + nonce@ + ct@);
        assert(base64_bytes(t@) == Ok::<Seq<u8>, Seq<char>>(salt@ + nonce@ + ct@));
        assert(argon2_key(encode_utf8(passphrase@), salt@) == Ok::<Seq<u8>, Seq<char>>(key@));
        assert(aes_gcm_open(key@, nonce@, ct@) == Some(encode_utf8(plaintext@)));
        assert(seals_with(t@, plaintext@, passphrase@, salt@, nonce@, ct@, key@));
    }
    Ok(t)
}

/// What decrypting a text gives: the secret, or why not (the message of an
/// invalid-UTF-8 plaintext is left open).
pub open spec fn opened(text: Seq<char>, passphrase: Seq<char>) -> Option<Result<Seq<char>, Seq<char>>> {
    match base64_bytes(text) {
        Err(e) => Some(Err("base64 解码失败: "@ + e)),
        Ok(raw) => if raw.len() < SALT_LEN + NONCE_LEN {
            Some(Err("密文长度不足"@))
        } else {
            let salt = raw.subrange(0, SALT_LEN as int);
            let nonce = raw.subrange(SALT_LEN as int, (SALT_LEN + NONCE_LEN) as int);
            let ct = raw.subrange((SALT_LEN + NONCE_LEN) as int, raw.len() as int);
            match argon2_key(encode_utf8(passphrase), salt) {
                Err(e) => Some(Err("密钥派生失败: "@ + e)),
                Ok(key) => match aes_gcm_open(key, nonce, ct) {
                    None => Some(Err("解密失败（口令错误或数据被篡改）: aead::Error"@)),
                    Some(p) => if valid_utf8(p) {
                        Some(Ok(decode_utf8(p)))
                    } else {
                        None
                    },
                },
            }
        },
    }
}

pub open spec fn outcome_view(r: Result<String, String>) -> Result<Seq<char>, Seq<char>> {
    match r {
        Ok(s) => Ok(s@),
        Err(e) => Err(e@),
    }
}

/// Decrypts a text made by `encrypt_secret`; a wrong passphrase or altered
/// data fails.
pub fn decrypt_secret(b64: &str, passphrase: &str) -> (r: Result<String, String>)
    ensures
        match opened(b64@, passphrase@) {
            Some(o) => outcome_view(r) == o,
            None => r is Err,
        },
{
    let raw = match b64_decode(b64) {
        Ok(b) => b,
        Err(e) => {
            let mut m = chars_of("base64 解码失败: ");
            push_text(&mut m, e.as_str());
            return Err(string_of(m.as_slice()));
        },
    };
    if raw.len() < SALT_LEN + NONCE_LEN {
        return Err("密文长度不足".to_string());
    }
    let salt = copy_bytes(raw.as_slice(), 0, SALT_LEN);
    let nonce = copy_bytes(raw.as_slice(), SALT_LEN, SALT_LEN + NONCE_LEN);
    let ct = copy_bytes(raw.as_slice(), SALT_LEN + NONCE_LEN, raw.len());
    let key = match argon2_derive(passphrase.as_bytes(), salt.as_slice()) {
        Ok(k) => k,
        Err(e) => {
            let mut m = chars_of("密钥派生失败: ");
            push_text(&mut m, e.as_str());
            return Err(string_of(m.as_slice()));
        },
    };
    let pt = match aes_open(key.as_slice(), nonce.as_slice(), ct.as_slice()) {
        Ok(p) => p,
        Err(e) => {
            let mut m = chars_of("解密失败（口令错误或数据被篡改）: ");
            push_text(&mut m, e.as_str());
            proof {
                reveal_strlit("解密失败（口令错误或数据被篡改）: ");
                reveal_strlit("aead::Error");
                reveal_strlit("解密失败（口令错误或数据被篡改）: aead::Error");
                assert(m@ =~= "解密失败（口令错误或数据被篡改）: aead::Error"@);
            }
            return Err(string_of(m.as_slice()));
        },
    };
    match utf8_string(pt) {
        Ok(s) => Ok(s),
        Err(e) => {
            let mut m = chars_of("明文非 UTF-8: ");
            push_text(&mut m, e.as_str());
            Err(string_of(m.as_slice()))
        },
    }
}

/// Decryption undoes encryption: a text that seals a secret under a
/// passphrase decrypts, with that passphrase, to the secret.
pub proof fn lemma_secret_roundtrip(text: Seq<char>, secret: Seq<char>, passphrase: Seq<char>)
    requires
        seals(text, secret, passphrase),
    ensures
        opened(text, passphrase) == Some(Ok::<Seq<char>, Seq<char>>(secret)),
{
    let (salt, nonce, ct, key) = choose|salt: Seq<u8>, nonce: Seq<u8>, ct: Seq<u8>, key: Seq<u8>|
        #[trigger] seals_with(text, secret, passphrase, salt, nonce, ct, key);
    let raw = salt + nonce + ct;
    assert(raw.subrange(0, SALT_LEN as int) =~= salt);
    assert(raw.subrange(SALT_LEN as int, (SALT_LEN + NONCE_LEN) as int) =~= nonce);
    assert(raw.subrange((SALT_LEN + NONCE_LEN) as int, raw.len() as int) =~= ct);
    vstd::utf8::encode_utf8_valid_utf8(secret);
    vstd::utf8::encode_utf8_decode_utf8(secret);
}

} // verus!
