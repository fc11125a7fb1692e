//! Engines whose backends are not built in: the in-process named-entity engine and the
//! Redis vault. Each refuses to start and answers every call with an error.
use vstd::prelude::*;

use crate::domain::entity::Candidate;
use crate::domain::errors::{NerError, VaultError};
use crate::domain::traits::EncryptedMapping;

verus! {

/// The in-process named-entity engine (not built).
pub struct OnnxNerEngine;

impl OnnxNerEngine {
    /// Refuses to start: the engine is not built.
    pub fn new(model_path: &str, tokenizer_path: &str) -> (r: Result<OnnxNerEngine, String>)
        ensures
            r matches Err(m) && m@ == "onnx NER requires ort/tokenizers crates; add them to Cargo.toml under feature ner-onnx"@,
    {
        Err("onnx NER requires ort/tokenizers crates; add them to Cargo.toml under feature ner-onnx".to_string())
    }

    pub fn name(&self) -> (r: &'static str)
        ensures
            r@ == "onnx"@,
    {
        "onnx"
    }

    /// Every recognition fails: the engine is unavailable.
    pub fn recognize(&self, text: &str) -> (r: Result<Vec<Candidate>, NerError>)
        ensures
            r matches Err(NerError::Unavailable(m)) && m@ == "onnx engine not built"@,
    {
        Err(NerError::Unavailable("onnx engine not built".to_string()))
    }

    pub fn health(&self) -> (r: bool)
        ensures
            !r,
    {
        false
    }
}

/// The Redis vault (not built).
pub struct RedisVault;

impl RedisVault {
    /// Refuses to start: the vault is not built.
    pub fn new(url: &str) -> (r: Result<RedisVault, String>)
        ensures
            r matches Err(m) && m@ == "redis vault requires fred crate; add it to Cargo.toml under feature redis"@,
    {
        Err("redis vault requires fred crate; add it to Cargo.toml under feature redis".to_string())
    }

    pub fn put(&self, session: &str, mapping: EncryptedMapping) -> (r: Result<(), VaultError>)
        ensures
            r matches Err(VaultError::Unavailable(m)) && m@ == "redis not built"@,
    {
        Err(VaultError::Unavailable("redis not built".to_string()))
    }

    pub fn get(&self, session: &str) -> (r: Result<Option<EncryptedMapping>, VaultError>)
        ensures
            r matches Err(VaultError::Unavailable(m)) && m@ == "redis not built"@,
    {
        Err(VaultError::Unavailable("redis not built".to_string()))
    }

    pub fn delete(&self, session: &str) -> (r: Result<(), VaultError>)
        ensures
            r matches Err(VaultError::Unavailable(m)) && m@ == "redis not built"@,
    {
        Err(VaultError::Unavailable("redis not built".to_string()))
    }

    pub fn health(&self) -> (r: bool)
        ensures
            !r,
    {
        false
    }
}

} // verus!
