pub mod crypto;
pub mod pattern;
pub mod rate_limit;
