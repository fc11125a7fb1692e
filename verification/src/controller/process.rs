//! The decisions of the `/process` and `/process/batch` handlers: which step a request asks
//! for, and how errors and results are answered.
use vstd::prelude::*;

use crate::controller::dto::{BatchItem, ProcessRequest};
use crate::controller::error_mapper::ServiceError;
use crate::domain::errors::VaultError;
use crate::service::guard_service::MaskResult;
use crate::textops::str_eq;

verus! {

/// What a `/process` request asks for.
pub enum ProcessStep {
    /// A keyed request: the key and the text (empty when absent).
    Tz { payload_id: String, payload: String },
    /// Masking of a text (empty when absent).
    Mask { text: String },
    /// Demasking of a text in a session.
    Demask { session_id: String, text: String },
    /// A malformed request.
    Reject(ServiceError),
}

/// The characters of an optional string, empty when absent.
pub open spec fn or_empty(o: Option<String>) -> Seq<char> {
    match o {
        Some(s) => s@,
        None => Seq::empty(),
    }
}

fn take_or_empty(o: &Option<String>) -> (r: String)
    ensures
        r@ == or_empty(*o),
{
    match o {
        Some(s) => s.clone(),
        None => String::new(),
    }
}

/// The step of a request: a key makes it a keyed request; otherwise `mask` masks the text,
/// `demask` demasks it in the given session (which must be named), and anything else is
/// refused.
pub fn process_step(dto: &ProcessRequest) -> (r: ProcessStep)
    ensures
        dto.payload_id is Some ==> (r matches ProcessStep::Tz { payload_id, payload } && payload_id@
            == dto.payload_id->0@ && payload@ == or_empty(dto.payload)),
        dto.payload_id is None && or_empty(dto.operation) == "mask"@ ==> (r matches ProcessStep::Mask {
            text,
        } && text@ == or_empty(dto.text)),
        dto.payload_id is None && or_empty(dto.operation) == "demask"@ && or_empty(dto.session_id).len() == 0
            ==> (r matches ProcessStep::Reject(ServiceError::BadRequest(m)) && m@ == "session_id required"@),
        dto.payload_id is None && or_empty(dto.operation) == "demask"@ && or_empty(dto.session_id).len() > 0
            ==> (r matches ProcessStep::Demask { session_id, text } && session_id@ == or_empty(dto.session_id)
            && text@ == or_empty(dto.text)),
        dto.payload_id is None && or_empty(dto.operation) != "mask"@ && or_empty(dto.operation) != "demask"@
            ==> (r matches ProcessStep::Reject(ServiceError::BadRequest(m)) && m@ == "operation must be mask or demask"@),
{
    match &dto.payload_id {
        Some(id) => {
            return ProcessStep::Tz { payload_id: id.clone(), payload: take_or_empty(&dto.payload) };
        },
        None => {},
    }
    let op = take_or_empty(&dto.operation);
    proof {
        reveal_strlit("mask");
        reveal_strlit("demask");
        assert("mask"@.len() == 4);
        assert("demask"@.len() == 6);
        assert("mask"@ != "demask"@);
    }
    if str_eq(op.as_str(), "mask") {
        ProcessStep::Mask { text: take_or_empty(&dto.text) }
    } else if str_eq(op.as_str(), "demask") {
        let session_id = take_or_empty(&dto.session_id);
        assert(op@ == "demask"@);
        assert(session_id@ == or_empty(dto.session_id));
        if session_id.as_str().is_empty() {
            assert(or_empty(dto.session_id).len() == 0);
            ProcessStep::Reject(ServiceError::BadRequest("session_id required".to_string()))
        } else {
            ProcessStep::Demask { session_id, text: take_or_empty(&dto.text) }
        }
    } else {
        ProcessStep::Reject(ServiceError::BadRequest("operation must be mask or demask".to_string()))
    }
}

/// A failed masking (or keyed request): an unavailable store is answered as such, anything
/// else as an internal error.
pub fn mask_failure(e: &VaultError) -> (r: ServiceError)
    ensures
        r == match e {
            VaultError::Unavailable(_) => ServiceError::VaultUnavailable,
            _ => ServiceError::Internal,
        },
{
    match e {
        VaultError::Unavailable(_) => ServiceError::VaultUnavailable,
        _ => ServiceError::Internal,
    }
}

/// A failed demasking: an unavailable store means the session is not found, anything else
/// is an internal error.
pub fn demask_failure(e: &VaultError) -> (r: ServiceError)
    ensures
        r == match e {
            VaultError::Unavailable(_) => ServiceError::SessionNotFound,
            _ => ServiceError::Internal,
        },
{
    match e {
        VaultError::Unavailable(_) => ServiceError::SessionNotFound,
        _ => ServiceError::Internal,
    }
}

/// A batch result for a text that was masked.
pub fn batch_item_masked(index: usize, m: MaskResult) -> (r: BatchItem)
    ensures
        r.index == index,
        r.session_id == m.session_id,
        r.text == m.text,
        r.entities == m.entities,
        r.degraded == m.degraded,
        r.mask_context == m.mask_context,
        r.error is None,
{
    BatchItem {
        index,
        session_id: m.session_id,
        text: m.text,
        entities: m.entities,
        degraded: m.degraded,
        mask_context: m.mask_context,
        error: None,
    }
}

/// A batch result for a text that was not masked: the text unchanged, and why.
pub fn batch_item_failed(index: usize, text: &String, error: String) -> (r: BatchItem)
    ensures
        r.index == index,
        r.session_id@.len() == 0,
        r.text@ == text@,
        r.entities@.len() == 0,
        !r.degraded,
        r.mask_context is None,
        r.error == Some(error),
{
    BatchItem {
        index,
        session_id: String::new(),
        text: text.clone(),
        entities: Vec::new(),
        degraded: false,
        mask_context: None,
        error: Some(error),
    }
}

/// Whether a batch operation masks (only masking is offered in batches).
pub fn batch_masks(operation: &str) -> (r: bool)
    ensures
        r == (operation@ == "mask"@),
{
    str_eq(operation, "mask")
}

} // verus!
