pub mod compiled;
pub mod loader;
pub mod model;
