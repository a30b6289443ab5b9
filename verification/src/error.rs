//! The ways in which an operation of this crate can fail.

use vstd::prelude::*;

verus! {

/// Why an operation did not take place. Whenever one is returned, the state
/// that the operation was asked to change is as it was before.
#[derive(Debug, Clone, Copy, PartialEq, Eq, Structural)]
pub enum StackSwitchError {
    /// No memory could be had for a stack, or its size does not fit the
    /// address space.
    StackAllocationFailed,
    /// Every stack of the pool is checked out.
    CapacityExceeded {
        /// The number of stacks in the pool.
        max_stacks: usize,
    },
    /// The pool was configured with stacks of size zero.
    PoolNotConfigured,
    /// One stack and its guard page do not fit the address space.
    StackSizeExceedsMemory,
    /// The stacks of the pool together do not fit the address space.
    TotalSizeExceedsMemory,
    /// The handle refers to no continuation, or its revision is stale: the
    /// continuation was consumed through another copy of the handle.
    ContinuationAlreadyConsumed,
    /// The continuation has returned, or is executing, and cannot be
    /// switched to.
    ContinuationNotResumable,
    /// No stack in the chain of the running continuation handles the tag.
    HandlerNotFound,
    /// The operation applies to a running continuation, and the initial
    /// stack is executing.
    NoRunningContinuation,
    /// The continuation is part of a chain and cannot be reclaimed.
    ContinuationInUse,
}

} // verus!
