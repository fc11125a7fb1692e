//! The requests and responses of the HTTP interface, as plain values.
use vstd::prelude::*;

use crate::service::pipeline::MaskedEntityInfo;

verus! {

/// A request to `/process`: either `payload` with `payload_id` (the direction follows from
/// whether the id was seen), or `operation` with `text`.
pub struct ProcessRequest {
    pub operation: Option<String>,
    pub payload: Option<String>,
    pub payload_id: Option<String>,
    pub session_id: Option<String>,
    pub mask_context: Option<String>,
    pub text: Option<String>,
    pub route: Option<String>,
    pub dry_run: bool,
}

/// The answer to a demasking request.
pub struct DemaskResponse {
    pub request_id: String,
    pub session_id: String,
    pub text: String,
    pub restored: usize,
    pub unresolved: usize,
    pub degraded: bool,
}

/// The answer to a keyed request.
pub struct TzResponse {
    pub result: String,
}

/// The body of an error answer.
pub struct ErrorResponse {
    pub error: ErrorBody,
}

/// An error: code, message, request id.
pub struct ErrorBody {
    pub code: String,
    pub message: String,
    pub request_id: String,
}

/// A request to `/process/batch`.
pub struct BatchRequest {
    pub operation: String,
    pub texts: Vec<String>,
    pub route: Option<String>,
}

/// One result of a batch.
pub struct BatchItem {
    pub index: usize,
    pub session_id: String,
    pub text: String,
    pub entities: Vec<MaskedEntityInfo>,
    pub degraded: bool,
    pub mask_context: Option<String>,
    pub error: Option<String>,
}

/// The answer to a batch.
pub struct BatchResponse {
    pub request_id: String,
    pub results: Vec<BatchItem>,
}

} // verus!
