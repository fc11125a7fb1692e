//! Authentication of calling systems and the request body limit.
use vstd::prelude::*;
use vstd::string::StringSliceAdditionalSpecFns;
use vstd::utf8::encode_utf8;

use crate::config::compiled::CompiledConfig;
use crate::infra::crypto::{constant_time_eq, hex_spec, sha256_hex, sha256_of, sha256_raw};

verus! {

/// Who is calling, and the id of the request.
pub struct RequestCtx {
    pub request_id: String,
    pub system_id: String,
}

/// Why authentication failed.
#[derive(Debug, Clone, Copy, PartialEq, Eq, Structural)]
pub enum AuthFailure {
    /// No credentials at all: a candidate for anonymous access.
    Missing,
    /// Credentials that name an unknown system or carry a wrong key.
    Invalid,
}

impl AuthFailure {
    /// The HTTP status of a failure: unauthorized.
    pub fn status(self) -> (r: u16)
        ensures
            r == 401,
    {
        401
    }
}

/// The key is the system's: its SHA-256 equals the stored 32 bytes, or, when the stored
/// digest was not valid hex, its hex SHA-256 equals the stored text.
pub open spec fn key_matches(cfg: CompiledConfig, system_id: Seq<char>, key: Seq<char>) -> bool {
    match cfg.system_key_bytes.get_spec(system_id) {
        Some(b) => sha256_of(encode_utf8(key)) == b@,
        None => encode_utf8(hex_spec(sha256_of(encode_utf8(key)))) == encode_utf8(
            cfg.system_keys.get_spec(system_id)->0@,
        ),
    }
}

/// The outcome of authentication: the system, or why not.
pub open spec fn auth_spec(cfg: CompiledConfig, system_id: Option<Seq<char>>, key: Option<Seq<char>>) -> Result<
    Seq<char>,
    AuthFailure,
> {
    match (system_id, key) {
        (Some(s), Some(k)) => if cfg.system_keys.get_spec(s) is None {
            Err(AuthFailure::Invalid)
        } else if key_matches(cfg, s, k) {
            Ok(s)
        } else {
            Err(AuthFailure::Invalid)
        },
        (None, None) => Err(AuthFailure::Missing),
        _ => Err(AuthFailure::Invalid),
    }
}

/// The value of an optional string slice.
pub open spec fn opt_view(o: Option<&str>) -> Option<Seq<char>> {
    match o {
        Some(s) => Some(s@),
        None => None,
    }
}

/// Authenticates a system by the values of its id and key headers; the request keeps the id
/// it came with, else `fresh_request_id`.
pub fn authenticate(
    cfg: &CompiledConfig,
    system_id: Option<&str>,
    key: Option<&str>,
    request_id: Option<&str>,
    fresh_request_id: String,
) -> (r: Result<RequestCtx, AuthFailure>)
    ensures
        match auth_spec(*cfg, opt_view(system_id), opt_view(key)) {
            Ok(s) => r matches Ok(ctx) && ctx.system_id@ == s && ctx.request_id@ == match request_id {
                Some(id) => id@,
                None => fresh_request_id@,
            },
            Err(f) => r matches Err(g) && g == f,
        },
{
    let (sid, k) = match (system_id, key) {
        (Some(s), Some(k)) => (s, k),
        (None, None) => return Err(AuthFailure::Missing),
        _ => return Err(AuthFailure::Invalid),
    };
    let sid_string = sid.to_string();
    let expected = match cfg.system_keys.get(&sid_string) {
        Some(e) => e,
        None => return Err(AuthFailure::Invalid),
    };
    let key_hash = sha256_raw(k.as_bytes());
    let ok = match cfg.system_key_bytes.get(&sid_string) {
        Some(expected_bytes) => constant_time_eq(key_hash.as_slice(), expected_bytes.as_slice()),
        None => {
            let key_hex = sha256_hex(k.as_bytes());
            constant_time_eq(key_hex.as_str().as_bytes(), expected.as_str().as_bytes())
        },
    };
    if !ok {
        return Err(AuthFailure::Invalid);
    }
    let rid = match request_id {
        Some(id) => id.to_string(),
        None => fresh_request_id,
    };
    Ok(RequestCtx { request_id: rid, system_id: sid_string })
}

/// Refuses a body longer than the configured limit, with status 413.
pub fn check_body_limit(cfg: &CompiledConfig, len: usize) -> (r: Result<(), u16>)
    ensures
        len > cfg.raw.server.max_body_bytes ==> r == Err::<(), u16>(413),
        len <= cfg.raw.server.max_body_bytes ==> r is Ok,
{
    if len > cfg.raw.server.max_body_bytes {
        Err(413)
    } else {
        Ok(())
    }
}

/// The system a request is served for: the authenticated one; with no credentials at all,
/// the configured default system when there is one (with the request's own id); otherwise
/// the failure.
pub fn caller_system(auth: Result<RequestCtx, AuthFailure>, default_system_id: &str, request_id: String) -> (r: Result<
    RequestCtx,
    AuthFailure,
>)
    ensures
        match auth {
            Ok(ctx) => r matches Ok(c) && c.system_id == ctx.system_id && c.request_id == ctx.request_id,
            Err(AuthFailure::Missing) => if default_system_id@.len() > 0 {
                r matches Ok(c) && c.system_id@ == default_system_id@ && c.request_id == request_id
            } else {
                r == Err::<RequestCtx, AuthFailure>(AuthFailure::Missing)
            },
            Err(f) => r == Err::<RequestCtx, AuthFailure>(f),
        },
{
    match auth {
        Ok(ctx) => Ok(ctx),
        Err(AuthFailure::Missing) => {
            if !default_system_id.is_empty() {
                Ok(RequestCtx { request_id, system_id: default_system_id.to_string() })
            } else {
                Err(AuthFailure::Missing)
            }
        },
        Err(f) => Err(f),
    }
}

} // verus!
