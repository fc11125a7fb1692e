use vstd::prelude::*;

pub mod adapter;
pub mod config;
pub mod controller;
pub mod domain;
pub mod infra;
pub mod service;
pub mod textops;

verus! {

} // verus!
