//! Stack-switching continuations: the bookkeeping behind suspending a native
//! call stack, resuming it later, and reclaiming it.
//!
//! The crate manages addresses, states and handles; it never touches memory
//! itself. The embedder maps stack memory and performs the register swap, and
//! tells the crate what happened.

pub mod common;
pub mod continuation;
pub mod control_effect;
pub mod error;
pub mod fatpointer;
pub mod fiber_stack;
pub mod index_allocator;
pub mod layout;
pub mod model;
pub mod store;
pub mod translation_utils;
pub mod wasmfx_allocator;
pub mod wasmfx_on_demand;
pub mod wasmfx_pooling;
