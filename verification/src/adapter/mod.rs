pub mod circuit_breaker;
pub mod stubs;
pub mod ner_http;
