//! Stacks on demand: every stack lies in a mapping of its own, which the
//! embedder makes when the stack is asked for and removes when the stack is
//! dropped.

use crate::common::StackSwitchingConfig;
use crate::error::StackSwitchError;
use crate::fiber_stack::{
    host_page_size,
    lemma_round_up_is_least_multiple,
    mapping_len,
    stack_mapping_len,
    stack_mapping_len_result,
    usable_len,
    Allocator,
    FiberStack,
};
use crate::layout::LAUNCHPAD_SIZE;
use vstd::prelude::*;

verus! {

/// What an on-demand allocator is, seen from outside.
pub struct OnDemandView {
    /// Usable bytes asked for each stack.
    pub stack_size: usize,
    /// Bytes of a page, and thereby of a guard.
    pub page_size: usize,
}

impl OnDemandView {
    /// Whether a mapping at `mapping_base` can hold a stack: there is a page
    /// size, the mapping fits the address space, and the usable part has
    /// room for the first frame.
    pub open spec fn fits(&self, mapping_base: usize) -> bool {
        &&& self.page_size > 0
        &&& mapping_base + mapping_len(self.stack_size as int, self.page_size as int)
            <= usize::MAX
        &&& usable_len(self.stack_size as int, self.page_size as int) >= LAUNCHPAD_SIZE
    }

    /// The stack in a fresh mapping at `mapping_base`: the lowest page is
    /// the guard, the rest is usable.
    pub open spec fn stack_at(&self, mapping_base: usize) -> FiberStack {
        FiberStack {
            top: (mapping_base + mapping_len(self.stack_size as int, self.page_size as int))
                as usize,
            len: usable_len(self.stack_size as int, self.page_size as int) as usize,
            guard: self.page_size,
            allocator: Allocator::Mmap,
        }
    }

    /// The bytes that the embedder maps for each stack, if a stack can be
    /// had at all.
    pub open spec fn mapping_len(&self) -> Option<usize> {
        stack_mapping_len_result(self.stack_size, self.page_size)
    }

    /// What an allocation returns, given the mapping that the embedder made
    /// for it, if it could.
    pub open spec fn next_stack(&self, mapping: Option<usize>) -> Result<
        FiberStack,
        StackSwitchError,
    > {
        match mapping {
            Some(mapping_base) if self.fits(mapping_base) => Ok(self.stack_at(mapping_base)),
            _ => Err(StackSwitchError::StackAllocationFailed),
        }
    }
}

/// Allocator of stacks that each lie in a mapping of their own.
#[derive(Debug)]
pub struct InnerAllocator {
    /// Usable bytes asked for each stack.
    stack_size: usize,
    /// Bytes of a page.
    page_size: usize,
}

impl View for InnerAllocator {
    type V = OnDemandView;

    closed spec fn view(&self) -> OnDemandView {
        OnDemandView { stack_size: self.stack_size, page_size: self.page_size }
    }
}

impl InnerAllocator {
    /// An allocator of stacks of `config.stack_size` usable bytes for a
    /// machine with pages of `page_size` bytes.
    pub fn with_page_size(config: &StackSwitchingConfig, page_size: usize) -> (allocator: Self)
        ensures
            allocator@ == (OnDemandView { stack_size: config.stack_size, page_size }),
    {
        InnerAllocator { stack_size: config.stack_size, page_size }
    }

    /// An allocator of stacks of `config.stack_size` usable bytes for this
    /// machine: its page size is the one of the machine. Never fails.
    pub fn new(config: &StackSwitchingConfig) -> (allocator: Result<Self, StackSwitchError>)
        ensures
            allocator matches Ok(allocator) && allocator@.stack_size == config.stack_size,
    {
        let page_size: usize = host_page_size();
        Ok(InnerAllocator::with_page_size(config, page_size))
    }

    /// Usable bytes that are asked for each stack.
    pub fn stack_size(&self) -> (size: usize)
        ensures
            size == self@.stack_size,
    {
        self.stack_size
    }

    /// The bytes that the embedder maps for each stack. `None` when no
    /// stack can be had: there is no page size, or the length does not fit
    /// the address space.
    pub fn mapping_len(&self) -> (len: Option<usize>)
        ensures
            len == self@.mapping_len(),
    {
        stack_mapping_len(self.stack_size, self.page_size)
    }

    /// The stack in the mapping that the embedder made for it. Fails when
    /// the embedder could make none, or the mapping cannot hold a stack.
    pub fn allocate(&self, mapping: Option<usize>) -> (stack: Result<FiberStack, StackSwitchError>)
        ensures
            stack == self@.next_stack(mapping),
            stack matches Ok(stack) ==> stack.wf() && stack.len >= LAUNCHPAD_SIZE && stack.len
                >= self@.stack_size,
    {
        let mapping_base: usize = match mapping {
            Some(mapping_base) => mapping_base,
            None => {
                return Err(StackSwitchError::StackAllocationFailed);
            },
        };
        proof {
            if self.page_size > 0 {
                lemma_round_up_is_least_multiple(self.stack_size as int, self.page_size as int);
            }
        }
        match FiberStack::with_page_size(mapping_base, self.stack_size, self.page_size) {
            Ok(stack) => {
                if stack.size() < LAUNCHPAD_SIZE {
                    Err(StackSwitchError::StackAllocationFailed)
                } else {
                    Ok(stack)
                }
            },
            Err(error) => Err(error),
        }
    }

    /// Takes note that `stack` is no longer used. There is nothing to note:
    /// the memory goes back when the stack is dropped.
    pub fn deallocate(&self, _stack: &FiberStack) {
    }
}

} // verus!
