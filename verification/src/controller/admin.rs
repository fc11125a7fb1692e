//! The administrative endpoints' decisions: a configuration reload needs the admin token.
use vstd::prelude::*;
use vstd::utf8::encode_utf8;

use crate::infra::crypto::{hex_spec, sha256_hex, sha256_of};
use crate::textops::str_eq;

verus! {

/// Why a configuration reload is refused (both are answered with status 401).
#[derive(Debug, PartialEq, Eq, Structural)]
pub enum ReloadRefusal {
    /// No admin token hash is configured: the endpoint is closed.
    NotConfigured,
    /// The presented token does not hash to the configured value.
    Unauthorized,
}

impl ReloadRefusal {
    /// The HTTP status of the refusal.
    pub fn status(&self) -> (r: u16)
        ensures
            r == 401,
    {
        401
    }

    /// The text of the refusal.
    pub fn message(&self) -> (r: &'static str)
        ensures
            r@ == match self {
                ReloadRefusal::NotConfigured => "admin token not configured"@,
                ReloadRefusal::Unauthorized => "unauthorized"@,
            },
    {
        match self {
            ReloadRefusal::NotConfigured => "admin token not configured",
            ReloadRefusal::Unauthorized => "unauthorized",
        }
    }
}

/// A reload is allowed only when an admin token hash is configured and the lower-case hex
/// SHA-256 of the presented bearer token equals it; with none configured the endpoint stays
/// closed.
pub fn authorize_reload(expected_sha256: &str, token: &str) -> (r: Result<(), ReloadRefusal>)
    ensures
        expected_sha256@.len() == 0 ==> r == Err::<(), ReloadRefusal>(ReloadRefusal::NotConfigured),
        expected_sha256@.len() > 0 ==> (r is Ok <==> hex_spec(sha256_of(encode_utf8(token@))) == expected_sha256@),
        expected_sha256@.len() > 0 && r is Err ==> r == Err::<(), ReloadRefusal>(ReloadRefusal::Unauthorized),
{
    if expected_sha256.is_empty() {
        return Err(ReloadRefusal::NotConfigured);
    }
    let hash = sha256_hex(token.as_bytes());
    if str_eq(hash.as_str(), expected_sha256) {
        Ok(())
    } else {
        Err(ReloadRefusal::Unauthorized)
    }
}

} // verus!
