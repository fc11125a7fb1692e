//! Errors of the domain layer, each with the message it is shown with.
use vstd::prelude::*;

use crate::textops::{push_decimal, push_str};

verus! {

/// Failure of named-entity recognition.
#[derive(Debug)]
pub enum NerError {
    Unavailable(String),
    Timeout,
    Internal(String),
}

/// Failure of the upstream model.
#[derive(Debug)]
pub enum UpstreamError {
    Connect(String),
    Timeout,
    Status(u16),
    Other(String),
}

/// Failure of the mapping store or its cryptography.
#[derive(Debug)]
pub enum VaultError {
    Unavailable(String),
    Crypto(String),
    Serialization(String),
    Internal(String),
}

fn joined(prefix: &str, detail: &str) -> (r: String)
    ensures
        r@ == prefix@ + detail@,
{
    let mut s = String::new();
    push_str(&mut s, prefix);
    push_str(&mut s, detail);
    s
}

impl NerError {
    /// The text of the error.
    pub fn message(&self) -> (r: String)
        ensures
            r@ == match self {
                NerError::Unavailable(d) => "NER engine unavailable: "@ + d@,
                NerError::Timeout => "NER timeout"@,
                NerError::Internal(d) => "NER internal error: "@ + d@,
            },
    {
        match self {
            NerError::Unavailable(d) => joined("NER engine unavailable: ", d.as_str()),
            NerError::Timeout => "NER timeout".to_string(),
            NerError::Internal(d) => joined("NER internal error: ", d.as_str()),
        }
    }
}

impl UpstreamError {
    /// The text of the error.
    pub fn message(&self) -> (r: String)
        ensures
            r@ == match self {
                UpstreamError::Connect(d) => "upstream connection error: "@ + d@,
                UpstreamError::Timeout => "upstream timeout"@,
                UpstreamError::Status(code) => "upstream returned status "@ + crate::textops::decimal_spec(*code as nat),
                UpstreamError::Other(d) => "upstream error: "@ + d@,
            },
    {
        match self {
            UpstreamError::Connect(d) => joined("upstream connection error: ", d.as_str()),
            UpstreamError::Timeout => "upstream timeout".to_string(),
            UpstreamError::Status(code) => {
                let mut s = String::new();
                push_str(&mut s, "upstream returned status ");
                push_decimal(&mut s, *code as u64);
                s
            },
            UpstreamError::Other(d) => joined("upstream error: ", d.as_str()),
        }
    }
}

impl VaultError {
    /// The text of the error.
    pub fn message(&self) -> (r: String)
        ensures
            r@ == match self {
                VaultError::Unavailable(d) => "vault unavailable: "@ + d@,
                VaultError::Crypto(d) => "vault crypto error: "@ + d@,
                VaultError::Serialization(d) => "vault serialization error: "@ + d@,
                VaultError::Internal(d) => "vault internal error: "@ + d@,
            },
    {
        match self {
            VaultError::Unavailable(d) => joined("vault unavailable: ", d.as_str()),
            VaultError::Crypto(d) => joined("vault crypto error: ", d.as_str()),
            VaultError::Serialization(d) => joined("vault serialization error: ", d.as_str()),
            VaultError::Internal(d) => joined("vault internal error: ", d.as_str()),
        }
    }
}

} // verus!
