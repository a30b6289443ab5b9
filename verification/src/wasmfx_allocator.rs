//! The allocator of continuation stacks, in one of two modes: on demand,
//! where each stack gets memory of its own, or pooling, where stacks are
//! slots of one reserved mapping.

use crate::common::StackSwitchingConfig;
use crate::error::StackSwitchError;
use crate::fiber_stack::FiberStack;
use crate::layout::LAUNCHPAD_SIZE;
use crate::wasmfx_on_demand::OnDemandView;
use crate::wasmfx_pooling::PoolView;
use vstd::prelude::*;

verus! {

/// The mode of an allocator, with the allocator of that mode.
#[derive(Debug)]
enum Mode {
    /// Each stack lies in a mapping of its own.
    OnDemand(crate::wasmfx_on_demand::InnerAllocator),
    /// Stacks are slots of one mapping.
    Pooling(crate::wasmfx_pooling::InnerAllocator),
}

/// What an allocator is, seen from outside.
pub enum AllocatorView {
    /// Each stack lies in a mapping of its own.
    OnDemand(OnDemandView),
    /// Stacks are slots of one mapping.
    Pooling(PoolView),
}

impl AllocatorView {
    /// The pool, if it is one, is well formed.
    pub open spec fn wf(&self) -> bool {
        match self {
            AllocatorView::OnDemand(on_demand) => true,
            AllocatorView::Pooling(pool) => pool.wf(),
        }
    }

    /// Usable bytes that the configuration asks for each stack. A stack has
    /// this number rounded up to whole pages.
    pub open spec fn stack_size(&self) -> usize {
        match self {
            AllocatorView::OnDemand(on_demand) => on_demand.stack_size,
            AllocatorView::Pooling(pool) => pool.configured_size,
        }
    }

    /// The bytes that the embedder maps before it asks for a stack: some on
    /// demand, if a stack can be had at all, and none for a pool.
    pub open spec fn mapping_len(&self) -> Option<usize> {
        match self {
            AllocatorView::OnDemand(on_demand) => on_demand.mapping_len(),
            AllocatorView::Pooling(pool) => None,
        }
    }

    /// What an allocation returns. `mapping` is the mapping that the
    /// embedder made for the stack, and matters on demand only.
    pub open spec fn next_stack(&self, mapping: Option<usize>) -> Result<
        FiberStack,
        StackSwitchError,
    > {
        match self {
            AllocatorView::OnDemand(on_demand) => on_demand.next_stack(mapping),
            AllocatorView::Pooling(pool) => pool.next_stack(),
        }
    }

    /// The allocator after an allocation was asked for.
    pub open spec fn after_allocate(&self) -> AllocatorView {
        match self {
            AllocatorView::OnDemand(on_demand) => *self,
            AllocatorView::Pooling(pool) => AllocatorView::Pooling(pool.after_allocate()),
        }
    }

    /// Whether `stack` can be given back: any stack on demand, the stack of
    /// a checked-out slot to a pool.
    pub open spec fn owns(&self, stack: FiberStack) -> bool {
        match self {
            AllocatorView::OnDemand(on_demand) => true,
            AllocatorView::Pooling(pool) => pool.slot_of_top(stack.top as int) is Some,
        }
    }

    /// The allocator after `stack` was given back.
    pub open spec fn after_deallocate(&self, stack: FiberStack) -> AllocatorView {
        match self {
            AllocatorView::OnDemand(on_demand) => *self,
            AllocatorView::Pooling(pool) => AllocatorView::Pooling(
                pool.after_deallocate(pool.slot_of_top(stack.top as int).unwrap()),
            ),
        }
    }
}

/// Handing out a stack leaves every stack that could be given back such
/// that it can be given back, and the stack handed out can be given back
/// too. A pool hands out no stack that could be given back before.
pub proof fn lemma_allocate_keeps_owned(allocator: AllocatorView, mapping: Option<usize>)
    requires
        allocator.wf(),
        allocator.next_stack(mapping) is Ok,
    ensures
        allocator.after_allocate().wf(),
        allocator.after_allocate().owns(allocator.next_stack(mapping).unwrap()),
        allocator is Pooling ==> !allocator.owns(allocator.next_stack(mapping).unwrap()),
        forall|other: FiberStack| #[trigger]
            allocator.owns(other) ==> allocator.after_allocate().owns(other),
{
    match allocator {
        AllocatorView::OnDemand(on_demand) => {},
        AllocatorView::Pooling(pool) => {
            crate::wasmfx_pooling::lemma_allocate_keeps_owned(pool);
            assert forall|other: FiberStack| #[trigger]
                allocator.owns(other) implies allocator.after_allocate().owns(other) by {
                assert(pool.slot_of_top(other.top as int) is Some);
            }
        },
    }
}

/// Giving a stack back leaves every stack with another top that could be
/// given back such that it can be given back.
pub proof fn lemma_deallocate_keeps_owned(allocator: AllocatorView, stack: FiberStack)
    requires
        allocator.wf(),
        allocator.owns(stack),
    ensures
        allocator.after_deallocate(stack).wf(),
        forall|other: FiberStack|
            other.top != stack.top && #[trigger] allocator.owns(other)
                ==> allocator.after_deallocate(stack).owns(other),
{
    match allocator {
        AllocatorView::OnDemand(on_demand) => {},
        AllocatorView::Pooling(pool) => {
            crate::wasmfx_pooling::lemma_deallocate_keeps_owned(pool, stack.top as int);
            assert forall|other: FiberStack|
                other.top != stack.top && #[trigger] allocator.owns(
                    other,
                ) implies allocator.after_deallocate(stack).owns(other) by {
                assert(pool.slot_of_top(other.top as int) is Some);
            }
        },
    }
}

/// Allocator of continuation stacks.
#[derive(Debug)]
pub struct WasmFXAllocator {
    /// The allocator of the chosen mode.
    inner: Mode,
}

impl View for WasmFXAllocator {
    type V = AllocatorView;

    closed spec fn view(&self) -> AllocatorView {
        match self.inner {
            Mode::OnDemand(on_demand) => AllocatorView::OnDemand(on_demand@),
            Mode::Pooling(pool) => AllocatorView::Pooling(pool@),
        }
    }
}

impl WasmFXAllocator {
    /// The allocator's bookkeeping is consistent.
    pub closed spec fn wf(&self) -> bool {
        match self.inner {
            Mode::OnDemand(on_demand) => true,
            Mode::Pooling(pool) => pool.wf(),
        }
    }

    /// A well-formed allocator has a well-formed view.
    pub proof fn lemma_view_wf(&self)
        requires
            self.wf(),
        ensures
            self@.wf(),
    {
        match self.inner {
            Mode::OnDemand(on_demand) => {},
            Mode::Pooling(pool) => {
                pool.lemma_view_wf();
            },
        }
    }

    /// An allocator that hands out stacks on demand, for this machine.
    /// Never fails.
    pub fn new(config: &StackSwitchingConfig) -> (allocator: Result<Self, StackSwitchError>)
        ensures
            allocator matches Ok(allocator) && allocator.wf() && (allocator@ matches AllocatorView::OnDemand(
                on_demand,
            ) && on_demand.stack_size == config.stack_size),
    {
        match crate::wasmfx_on_demand::InnerAllocator::new(config) {
            Ok(on_demand) => Ok(WasmFXAllocator { inner: Mode::OnDemand(on_demand) }),
            Err(error) => Err(error),
        }
    }

    /// An allocator that hands out stacks on demand.
    pub fn on_demand(inner: crate::wasmfx_on_demand::InnerAllocator) -> (allocator: Self)
        ensures
            allocator.wf(),
            allocator@ == AllocatorView::OnDemand(inner@),
    {
        WasmFXAllocator { inner: Mode::OnDemand(inner) }
    }

    /// An allocator that hands out the stacks of `pool`.
    pub fn pooling(pool: crate::wasmfx_pooling::InnerAllocator) -> (allocator: Self)
        requires
            pool.wf(),
        ensures
            allocator.wf(),
            allocator@ == AllocatorView::Pooling(pool@),
    {
        WasmFXAllocator { inner: Mode::Pooling(pool) }
    }

    /// Usable bytes that the configuration asks for each stack.
    pub fn stack_size(&self) -> (size: usize)
        ensures
            size == self@.stack_size(),
    {
        match &self.inner {
            Mode::OnDemand(on_demand) => on_demand.stack_size(),
            Mode::Pooling(pool) => pool.configured_size(),
        }
    }

    /// The bytes that the embedder maps before it asks for a stack: some on
    /// demand, if a stack can be had at all, and none for a pool.
    pub fn mapping_len(&self) -> (len: Option<usize>)
        ensures
            len == self@.mapping_len(),
    {
        match &self.inner {
            Mode::OnDemand(on_demand) => on_demand.mapping_len(),
            Mode::Pooling(_) => None,
        }
    }

    /// Hands out a stack. On demand it lies in `mapping`, the mapping that
    /// the embedder made for it; a pool takes one of its slots. When it
    /// fails the allocator is unchanged.
    pub fn allocate(&mut self, mapping: Option<usize>) -> (stack: Result<
        FiberStack,
        StackSwitchError,
    >)
        requires
            old(self).wf(),
        ensures
            final(self).wf(),
            stack == old(self)@.next_stack(mapping),
            final(self)@ == old(self)@.after_allocate(),
            stack matches Ok(stack) ==> stack.wf() && stack.len >= LAUNCHPAD_SIZE && stack.len
                >= old(self)@.stack_size(),
    {
        match &mut self.inner {
            Mode::OnDemand(on_demand) => on_demand.allocate(mapping),
            Mode::Pooling(pool) => pool.allocate(),
        }
    }

    /// Whether `stack` can be given back to this allocator.
    pub fn owns(&self, stack: &FiberStack) -> (owns: bool)
        requires
            self.wf(),
        ensures
            owns == self@.owns(*stack),
    {
        match &self.inner {
            Mode::OnDemand(_) => true,
            Mode::Pooling(pool) => pool.slot_of(stack).is_some(),
        }
    }

    /// Takes back a stack that this allocator handed out.
    pub fn deallocate(&mut self, stack: &FiberStack)
        requires
            old(self).wf(),
            old(self)@.owns(*stack),
        ensures
            final(self).wf(),
            final(self)@ == old(self)@.after_deallocate(*stack),
    {
        match &mut self.inner {
            Mode::OnDemand(on_demand) => on_demand.deallocate(stack),
            Mode::Pooling(pool) => pool.deallocate(stack),
        }
    }
}

} // verus!
