pub mod combination;
pub mod demask;
pub mod synthetic;
pub mod detect;
pub mod detection;
pub mod guard_service;
pub mod json_paths;
pub mod mask;
pub mod normalize;
pub mod pipeline;
pub mod relevance;
pub mod resolve;
pub mod tokens;
pub mod json_value;
pub mod line;
