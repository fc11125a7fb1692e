use pd_guard::infra::crypto::{decrypt_mapping, encrypt_mapping, hmac_token, MasterKey};
use pd_guard::service::guard_service::{open_context, seal_context};

#[test]
fn roundtrip_encrypt_decrypt() {
    let master = MasterKey::from_bytes([7u8; 32]);
    let enc = encrypt_mapping(&master, "sess-1", "sys-1", b"hello").unwrap();
    let dec = decrypt_mapping(&master, "sess-1", "sys-1", &enc).unwrap();
    assert_eq!(dec, b"hello");
}

#[test]
fn wrong_session_fails() {
    let master = MasterKey::from_bytes([7u8; 32]);
    let enc = encrypt_mapping(&master, "sess-1", "sys-1", b"hello").unwrap();
    assert!(decrypt_mapping(&master, "sess-2", "sys-1", &enc).is_err());
}

#[test]
fn deterministic_token() {
    let a = hmac_token(b"secret", "FIO|иванов иван");
    let b = hmac_token(b"secret", "FIO|иванов иван");
    assert_eq!(a, b);
    assert_eq!(a.len(), 8);
}

#[test]
fn token_depends_on_secret() {
    let a = hmac_token(b"secret", "FIO|иванов иван");
    let b = hmac_token(b"other", "FIO|иванов иван");
    assert_ne!(a, b);
    assert!(a.chars().all(|c| c.is_ascii_hexdigit() && !c.is_ascii_uppercase()));
}

#[test]
fn nonce_is_twelve_bytes_and_ciphertext_differs() {
    let master = MasterKey::from_bytes([1u8; 32]);
    let enc = encrypt_mapping(&master, "s", "y", b"plain text").unwrap();
    assert_eq!(enc.nonce.len(), 12);
    assert_ne!(enc.ciphertext, b"plain text".to_vec());
}

#[test]
fn wrong_system_or_key_fails() {
    let master = MasterKey::from_bytes([7u8; 32]);
    let enc = encrypt_mapping(&master, "sess-1", "sys-1", b"hello").unwrap();
    assert!(decrypt_mapping(&master, "sess-1", "sys-2", &enc).is_err());
    let other = MasterKey::from_bytes([8u8; 32]);
    assert!(decrypt_mapping(&other, "sess-1", "sys-1", &enc).is_err());
}

#[test]
fn master_key_from_base64() {
    let k = MasterKey::from_base64("BwcHBwcHBwcHBwcHBwcHBwcHBwcHBwcHBwcHBwcHBwc=").unwrap();
    assert_eq!(k.expose(), &[7u8; 32][..]);
    assert!(MasterKey::from_base64("AAAA").is_err());
    assert!(MasterKey::from_base64("not base64!").is_err());
}

#[test]
fn context_seals_and_opens() {
    let master = MasterKey::from_bytes([3u8; 32]);
    let ctx = seal_context(&master, "sess", "sys", b"mapping bytes").unwrap();
    assert_eq!(open_context(&master, "sess", "sys", &ctx).unwrap(), b"mapping bytes");
    assert!(open_context(&master, "other", "sys", &ctx).is_err());
    assert!(open_context(&master, "sess", "sys", "!!!").is_err());
}

use pd_guard::infra::crypto::{sha256_hex, sha512_hex};

#[test]
fn known_digests() {
    assert_eq!(sha256_hex(b"abc"), "ba7816bf8f01cfea414140de5dae2223b00361a396177a9cb410ff61f20015ad");
    assert_eq!(
        sha512_hex(b"abc"),
        "ddaf35a193617abacc417349ae20413112e6fa4e89a97ea20a9eeee64b55d39a2192992a274fc1a836ba3c23a3feebbd454d4423643ce80e2a9ac94fa54ca49f"
    );
}
