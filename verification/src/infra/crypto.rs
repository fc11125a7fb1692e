//! Hashes, keyed tokens, lower-case hex encoding, and the encryption of mappings:
//! AES-256-GCM under a per-session key derived with HKDF-SHA256 from the master key.
use hmac::{Hmac, Mac};
use sha2::{Digest, Sha256, Sha512};
use subtle::ConstantTimeEq;
use aes_gcm::aead::{Aead, KeyInit, Payload};
use aes_gcm::{Aes256Gcm, Nonce};
use hkdf::Hkdf;
use rand::RngCore;

use crate::domain::errors::VaultError;
use crate::domain::traits::EncryptedMapping;
use vstd::prelude::*;
use vstd::string::StringSliceAdditionalSpecFns;
use vstd::utf8::encode_utf8;

verus! {

// ---------------------------------------------------------------- hex

/// Lower-case hex digit of a value below 16.
pub open spec fn hex_digit(n: u8) -> char {
    if n < 10 {
        ((48 + n) as u8) as char
    } else {
        ((87 + n) as u8) as char
    }
}

/// Lower-case hex of a byte string, two digits per byte, high half first.
pub open spec fn hex_spec(b: Seq<u8>) -> Seq<char>
    decreases b.len(),
{
    if b.len() == 0 {
        Seq::empty()
    } else {
        hex_spec(b.drop_last()).push(hex_digit(b.last() / 16)).push(hex_digit(b.last() % 16))
    }
}

pub proof fn lemma_hex_len(b: Seq<u8>)
    ensures
        hex_spec(b).len() == 2 * b.len(),
    decreases b.len(),
{
    if b.len() > 0 {
        lemma_hex_len(b.drop_last());
    }
}

fn hex_char(n: u8) -> (c: char)
    requires
        n < 16,
    ensures
        c == hex_digit(n),
{
    if n < 10 {
        (48u8 + n) as char
    } else {
        (87u8 + n) as char
    }
}

/// Lower-case hex of the first `n` bytes (of all of them when there are fewer).
pub fn hex_prefix(bytes: &[u8], n: usize) -> (r: String)
    ensures
        r@ == hex_spec(bytes@.take(if n < bytes@.len() { n as int } else { bytes@.len() as int })),
{
    let m = if n < bytes.len() {
        n
    } else {
        bytes.len()
    };
    let mut out = String::new();
    let mut i: usize = 0;
    while i < m
        invariant
            m <= bytes@.len(),
            i <= m,
            out@ == hex_spec(bytes@.take(i as int)),
        decreases m - i,
    {
        let b = bytes[i];
        assert(bytes@.take(i + 1).drop_last() =~= bytes@.take(i as int));
        let hi = hex_char(b / 16);
        let lo = hex_char(b % 16);
        crate::textops::string_push(&mut out, hi);
        crate::textops::string_push(&mut out, lo);
        i += 1;
    }
    out
}

/// Lower-case hex of all bytes.
pub fn hex_all(bytes: &[u8]) -> (r: String)
    ensures
        r@ == hex_spec(bytes@),
{
    let r = hex_prefix(bytes, bytes.len());
    assert(bytes@.take(bytes@.len() as int) =~= bytes@);
    r
}

// ---------------------------------------------------------------- digests

/// HMAC-SHA256 of `data` under `key`.
pub uninterp spec fn hmac_sha256_of(key: Seq<u8>, data: Seq<u8>) -> Seq<u8>;

/// SHA-256 of a byte string.
pub uninterp spec fn sha256_of(data: Seq<u8>) -> Seq<u8>;

/// SHA-512 of a byte string.
pub uninterp spec fn sha512_of(data: Seq<u8>) -> Seq<u8>;

/// Computes HMAC-SHA256 with the `hmac` and `sha2` crates (`Hmac::<Sha256>::new_from_slice`,
/// which accepts keys of any length, then `update` and `finalize`). The 32 output bytes are
/// named `hmac_sha256_of(key, data)`.
#[verifier::external_body]
fn hmac_sha256(key: &[u8], data: &[u8]) -> (r: Vec<u8>)
    ensures
        r@ == hmac_sha256_of(key@, data@),
        r@.len() == 32,
{
    let mut mac = <Hmac<Sha256> as Mac>::new_from_slice(key).unwrap();
    mac.update(data);
    mac.finalize().into_bytes().to_vec()
}

/// Computes SHA-256 with the `sha2` crate (`Sha256::digest`); the 32 output bytes are
/// named `sha256_of(data)`.
#[verifier::external_body]
fn sha256(data: &[u8]) -> (r: Vec<u8>)
    ensures
        r@ == sha256_of(data@),
        r@.len() == 32,
{
    Sha256::digest(data).to_vec()
}

/// Computes SHA-512 with the `sha2` crate (`Sha512::digest`); the 64 output bytes are
/// named `sha512_of(data)`.
#[verifier::external_body]
fn sha512(data: &[u8]) -> (r: Vec<u8>)
    ensures
        r@ == sha512_of(data@),
        r@.len() == 64,
{
    Sha512::digest(data).to_vec()
}

/// The 32 raw bytes of the SHA-256 of a byte string.
pub fn sha256_raw(data: &[u8]) -> (r: Vec<u8>)
    ensures
        r@ == sha256_of(data@),
        r@.len() == 32,
{
    sha256(data)
}

/// Compares two byte strings with `subtle::ConstantTimeEq` (lengths first, then every
/// byte, in time independent of the contents): true exactly when they are equal.
#[verifier::external_body]
pub(crate) fn constant_time_eq(a: &[u8], b: &[u8]) -> (r: bool)
    ensures
        r == (a@ == b@),
{
    a.ct_eq(b).unwrap_u8() == 1
}

/// The keyed token of `data`: the first 8 hex digits of its HMAC-SHA256.
pub open spec fn hmac_token_spec(secret: Seq<u8>, data: Seq<char>) -> Seq<char> {
    hex_spec(hmac_sha256_of(secret, encode_utf8(data)).take(4))
}

/// Keyed token for deterministic masks: 8 hex digits of HMAC-SHA256(secret, data).
pub fn hmac_token(secret: &[u8], data: &str) -> (r: String)
    ensures
        r@ == hmac_token_spec(secret@, data@),
        r@.len() == 8,
{
    let mac = hmac_sha256(secret, data.as_bytes());
    let r = hex_prefix(mac.as_slice(), 4);
    proof {
        lemma_hex_len(mac@.take(4));
    }
    r
}

/// First 8 hex digits of the SHA-256 of a string (for logging identifiers).
pub fn sha256_hex8(data: &str) -> (r: String)
    ensures
        r@ == hex_spec(sha256_of(encode_utf8(data@)).take(4)),
{
    let h = sha256(data.as_bytes());
    hex_prefix(h.as_slice(), 4)
}

/// Full lower-case hex of the SHA-256 of a byte string.
pub fn sha256_hex(data: &[u8]) -> (r: String)
    ensures
        r@ == hex_spec(sha256_of(data@)),
        r@.len() == 64,
{
    let h = sha256(data);
    proof {
        lemma_hex_len(h@);
    }
    hex_all(h.as_slice())
}

/// Full lower-case hex of the SHA-512 of a byte string (stored system keys).
pub fn sha512_hex(data: &[u8]) -> (r: String)
    ensures
        r@ == hex_spec(sha512_of(data@)),
        r@.len() == 128,
{
    let h = sha512(data);
    proof {
        lemma_hex_len(h@);
    }
    hex_all(h.as_slice())
}


// ---------------------------------------------------------------- keys and encryption

#[verifier::external_type_specification]
#[verifier::external_body]
pub struct ExAeadError(aes_gcm::Error);

#[verifier::external_type_specification]
#[verifier::external_body]
pub struct ExDecodeError(base64::DecodeError);

/// The bytes that standard base64 (with padding) decodes the text to, if it is valid.
pub uninterp spec fn base64_decoded(s: Seq<char>) -> Option<Seq<u8>>;

/// The 32 bytes HKDF-SHA256 expands for `info` after extracting with `salt` from `ikm`.
pub uninterp spec fn hkdf32_of(salt: Seq<u8>, ikm: Seq<u8>, info: Seq<u8>) -> Seq<u8>;

/// The AES-256-GCM ciphertext (tag appended) of `msg` under the key and nonce, with the
/// associated data.
pub uninterp spec fn aes_gcm_sealed(key: Seq<u8>, nonce: Seq<u8>, msg: Seq<u8>, aad: Seq<u8>) -> Seq<u8>;

/// The plaintext AES-256-GCM opens a ciphertext to, when its tag checks.
pub uninterp spec fn aes_gcm_opened(key: Seq<u8>, nonce: Seq<u8>, ct: Seq<u8>, aad: Seq<u8>) -> Option<Seq<u8>>;

/// The largest plaintext and associated data AES-GCM takes (2^36 bytes).
pub open spec fn gcm_limit() -> int {
    0x10_0000_0000
}

/// The standard base64 text (with padding) of some bytes.
pub uninterp spec fn base64_encoded(b: Seq<u8>) -> Seq<char>;

/// `base64::engine::general_purpose::STANDARD.encode`; decoding the text gives the bytes
/// back.
#[verifier::external_body]
pub(crate) fn base64_encode(b: &[u8]) -> (r: String)
    ensures
        r@ == base64_encoded(b@),
        base64_decoded(r@) == Some(b@),
{
    base64::Engine::encode(&base64::engine::general_purpose::STANDARD, b)
}

/// `base64::engine::general_purpose::STANDARD.decode`.
#[verifier::external_body]
pub(crate) fn base64_decode(s: &str) -> (r: Result<Vec<u8>, base64::DecodeError>)
    ensures
        r is Ok == base64_decoded(s@) is Some,
        r matches Ok(v) ==> base64_decoded(s@) == Some(v@),
{
    base64::Engine::decode(&base64::engine::general_purpose::STANDARD, s)
}

/// The text of a `base64::DecodeError` (its `Display`).
#[verifier::external_body]
pub(crate) fn decode_error_text(e: &base64::DecodeError) -> String {
    e.to_string()
}

/// `Hkdf::<Sha256>::new(Some(salt), ikm)` then `expand(info)` into 32 bytes, which cannot
/// fail (at most 255 times the hash length may be asked for).
#[verifier::external_body]
fn hkdf32(salt: &[u8], ikm: &[u8], info: &[u8]) -> (r: [u8; 32])
    ensures
        r@ == hkdf32_of(salt@, ikm@, info@),
{
    let hk = Hkdf::<Sha256>::new(Some(salt), ikm);
    let mut okm = [0u8; 32];
    let _ = hk.expand(info, &mut okm);
    okm
}

/// `Aes256Gcm::encrypt`: refuses a plaintext or associated data over 2^36 bytes, else
/// gives the ciphertext, which `decrypt` opens back to the plaintext.
#[verifier::external_body]
fn aes_seal(key: &[u8; 32], nonce: &[u8; 12], msg: &[u8], aad: &[u8]) -> (r: Result<Vec<u8>, aes_gcm::Error>)
    ensures
        r is Ok == (msg@.len() <= gcm_limit() && aad@.len() <= gcm_limit()),
        r matches Ok(ct) ==> ct@ == aes_gcm_sealed(key@, nonce@, msg@, aad@) && aes_gcm_opened(key@, nonce@, ct@, aad@)
            == Some(msg@),
{
    let cipher = Aes256Gcm::new(key.into());
    cipher.encrypt(Nonce::from_slice(nonce), Payload { msg, aad })
}

/// `Aes256Gcm::decrypt` (the nonce must be 12 bytes: `Nonce::from_slice` panics otherwise).
#[verifier::external_body]
fn aes_open(key: &[u8; 32], nonce: &[u8], ct: &[u8], aad: &[u8]) -> (r: Result<Vec<u8>, aes_gcm::Error>)
    requires
        nonce@.len() == 12,
    ensures
        match aes_gcm_opened(key@, nonce@, ct@, aad@) {
            Some(p) => r matches Ok(v) && v@ == p,
            None => r is Err,
        },
{
    let cipher = Aes256Gcm::new(key.into());
    cipher.decrypt(Nonce::from_slice(nonce), Payload { msg: ct, aad })
}

/// `rand::thread_rng().fill_bytes` on 12 bytes: a random nonce, of which nothing is stated.
#[verifier::external_body]
fn random_nonce() -> [u8; 12] {
    let mut n = [0u8; 12];
    rand::thread_rng().fill_bytes(&mut n);
    n
}

/// The master encryption key (32 bytes).
pub struct MasterKey {
    bytes: Vec<u8>,
}

impl View for MasterKey {
    type V = Seq<u8>;

    closed spec fn view(&self) -> Seq<u8> {
        self.bytes@
    }
}

impl MasterKey {
    /// Decodes a key written in base64; it must be 32 bytes.
    pub fn from_base64(b64: &str) -> (r: Result<MasterKey, VaultError>)
        ensures
            match base64_decoded(b64@) {
                Some(v) => if v.len() == 32 {
                    r matches Ok(k) && k@ == v
                } else {
                    r matches Err(VaultError::Crypto(m)) && m@ == "master key must be 32 bytes"@
                },
                None => r matches Err(VaultError::Crypto(m)) && crate::textops::seq_starts_with(m@, "invalid master key base64: "@),
            },
    {
        match base64_decode(b64) {
            Ok(bytes) => {
                if bytes.len() != 32 {
                    return Err(VaultError::Crypto("master key must be 32 bytes".to_string()));
                }
                Ok(MasterKey { bytes })
            },
            Err(e) => {
                let mut m = String::new();
                crate::textops::push_str(&mut m, "invalid master key base64: ");
                crate::textops::push_str(&mut m, decode_error_text(&e).as_str());
                assert(m@.subrange(0, "invalid master key base64: "@.len() as int) =~= "invalid master key base64: "@);
                Err(VaultError::Crypto(m))
            },
        }
    }

    pub fn from_bytes(bytes: [u8; 32]) -> (r: MasterKey)
        ensures
            r@ == bytes@,
    {
        let mut v: Vec<u8> = Vec::new();
        let mut i: usize = 0;
        while i < 32
            invariant
                i <= 32,
                bytes@.len() == 32,
                v@ == bytes@.take(i as int),
            decreases 32 - i,
        {
            v.push(bytes[i]);
            i += 1;
            assert(v@ =~= bytes@.take(i as int));
        }
        assert(v@ =~= bytes@);
        MasterKey { bytes: v }
    }

    /// The key's bytes.
    pub fn expose(&self) -> (r: &[u8])
        ensures
            r@ == self@,
    {
        self.bytes.as_slice()
    }
}

/// The key of a session: HKDF-SHA256 of the master key, with the session as salt and the
/// system as info.
pub open spec fn session_key_spec(master: Seq<u8>, session_id: Seq<char>, system_id: Seq<char>) -> Seq<u8> {
    hkdf32_of(encode_utf8(session_id), master, encode_utf8(system_id))
}

fn session_key(master: &MasterKey, session_id: &str, system_id: &str) -> (r: [u8; 32])
    ensures
        r@ == session_key_spec(master@, session_id@, system_id@),
{
    hkdf32(session_id.as_bytes(), master.expose(), system_id.as_bytes())
}

/// What decrypting a mapping gives: the plaintext, or the error of a wrong key or a
/// tampered ciphertext.
pub open spec fn decrypted(master: Seq<u8>, session_id: Seq<char>, system_id: Seq<char>, nonce: Seq<u8>, ct: Seq<u8>) -> Option<Seq<u8>> {
    aes_gcm_opened(session_key_spec(master, session_id, system_id), nonce, ct, encode_utf8(system_id))
}

/// Encrypts a mapping under the session's key with a random nonce; the system is the
/// associated data. Decrypting the result with the same key, session and system gives the
/// plaintext back.
pub fn encrypt_mapping(master: &MasterKey, session_id: &str, system_id: &str, plaintext: &[u8]) -> (r: Result<EncryptedMapping, VaultError>)
    ensures
        r is Ok == (plaintext@.len() <= gcm_limit() && encode_utf8(system_id@).len() <= gcm_limit()),
        r matches Ok(em) ==> em.nonce@.len() == 12 && em.ciphertext@ == aes_gcm_sealed(
            session_key_spec(master@, session_id@, system_id@),
            em.nonce@,
            plaintext@,
            encode_utf8(system_id@),
        ) && decrypted(master@, session_id@, system_id@, em.nonce@, em.ciphertext@) == Some(plaintext@),
        r matches Err(e) ==> e matches VaultError::Crypto(m) && m@ == "aes encrypt: aead::Error"@,
{
    let key = session_key(master, session_id, system_id);
    let nonce = random_nonce();
    match aes_seal(&key, &nonce, plaintext, system_id.as_bytes()) {
        Ok(ct) => {
            let mut nv: Vec<u8> = Vec::new();
            let mut i: usize = 0;
            while i < 12
                invariant
                    i <= 12,
                    nonce@.len() == 12,
                    nv@ == nonce@.take(i as int),
                decreases 12 - i,
            {
                nv.push(nonce[i]);
                i += 1;
                assert(nv@ =~= nonce@.take(i as int));
            }
            assert(nv@ =~= nonce@);
            Ok(EncryptedMapping { nonce: nv, ciphertext: ct })
        },
        Err(_) => Err(VaultError::Crypto("aes encrypt: aead::Error".to_string())),
    }
}

/// Decrypts a mapping (its nonce is 12 bytes, as `encrypt_mapping` makes it).
pub fn decrypt_mapping(master: &MasterKey, session_id: &str, system_id: &str, mapping: &EncryptedMapping) -> (r: Result<Vec<u8>, VaultError>)
    requires
        mapping.nonce@.len() == 12,
    ensures
        match decrypted(master@, session_id@, system_id@, mapping.nonce@, mapping.ciphertext@) {
            Some(p) => r matches Ok(v) && v@ == p,
            None => r matches Err(VaultError::Crypto(m)) && m@ == "aes decrypt failed (bad key or tampered)"@,
        },
{
    let key = session_key(master, session_id, system_id);
    match aes_open(&key, mapping.nonce.as_slice(), mapping.ciphertext.as_slice(), system_id.as_bytes()) {
        Ok(p) => Ok(p),
        Err(_) => Err(VaultError::Crypto("aes decrypt failed (bad key or tampered)".to_string())),
    }
}

} // verus!
