pub mod admin;
pub mod error_mapper;
pub mod middleware;
pub mod dto;
pub mod router;
pub mod process;
pub mod proxy;
