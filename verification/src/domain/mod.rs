pub mod document;
pub mod entity;
pub mod pd_type;
pub mod sensitive;
pub mod traits;
pub mod type_map;
pub mod errors;
