//! Package acquisition core: cache store, mirror registry, vulnerability
//! index, environment bookkeeping and the acquisition state machine.
use vstd::prelude::*;

pub mod cache;
pub mod environment;
pub mod mirrors;
pub mod models;
pub mod pipeline;
pub mod security;
pub mod text;
pub mod visualize;

verus! {

} // verus!
