//! The control block of a continuation, the handle through which guest code
//! holds it, and the chain that links a stack to its parent.
//!
//! Continuations live in the slots of a store and refer to one another by
//! slot index.

use crate::common::{Array, CommonStackInformation, Payloads, StackInfoView, StackLimits, State};
use crate::fiber_stack::FiberStack;
use vstd::prelude::*;

verus! {

/// A handle to a continuation: the slot in which it lives, and the revision
/// that the continuation had when the handle was made. The handle is good
/// for one use. Consuming the continuation advances its revision, and every
/// copy of the handle is stale from then on.
#[derive(Debug, Clone, Copy, PartialEq, Eq, Structural)]
pub struct VMContObj {
    /// The revision of the continuation for which the handle is good.
    pub revision: u64,
    /// The slot of the continuation.
    pub contref: usize,
}

impl VMContObj {
    /// A handle to the continuation in slot `contref` at `revision`.
    pub fn new(contref: usize, revision: u64) -> (handle: Self)
        ensures
            handle == (VMContObj { revision, contref }),
    {
        VMContObj { contref, revision }
    }
}

/// A node of a chain of stacks. The successor of a node is the parent of
/// the stack that the node stands for.
#[derive(Debug, Clone, Copy, PartialEq, Eq, Structural)]
pub enum StackChain {
    /// The end of the chain of a continuation that is not running.
    Absent,
    /// The stack on which execution was entered. It has no parent.
    InitialStack,
    /// The stack of the continuation in the given slot.
    Continuation(usize),
}

impl StackChain {
    /// The number that stands for the variant in generated code.
    pub open spec fn discriminant_value(self) -> usize {
        match self {
            StackChain::Absent => crate::common::STACK_CHAIN_ABSENT_DISCRIMINANT,
            StackChain::InitialStack => crate::common::STACK_CHAIN_INITIAL_STACK_DISCRIMINANT,
            StackChain::Continuation(_) => crate::common::STACK_CHAIN_CONTINUATION_DISCRIMINANT,
        }
    }

    /// The number that stands for the variant in generated code.
    pub fn discriminant(&self) -> (value: usize)
        ensures
            value == self.discriminant_value(),
    {
        match self {
            StackChain::Absent => crate::common::STACK_CHAIN_ABSENT_DISCRIMINANT,
            StackChain::InitialStack => crate::common::STACK_CHAIN_INITIAL_STACK_DISCRIMINANT,
            StackChain::Continuation(_) => crate::common::STACK_CHAIN_CONTINUATION_DISCRIMINANT,
        }
    }

    /// Whether the node stands for the initial stack.
    pub fn is_initial_stack(&self) -> (initial: bool)
        ensures
            initial == (*self is InitialStack),
    {
        match self {
            StackChain::InitialStack => true,
            _ => false,
        }
    }

    /// A walk over the continuations of the chain that begins at this node.
    pub fn into_continuation_iter(self) -> (iter: ContinuationIterator)
        ensures
            iter.0 == self,
    {
        ContinuationIterator(self)
    }

    /// A walk over the saved limits of the stacks of the chain that begins
    /// at this node.
    pub fn into_stack_limits_iter(self) -> (iter: StackLimitsIterator)
        ensures
            iter.0 == self,
    {
        StackLimitsIterator(self)
    }
}

/// A walk over the continuations of a chain. It holds the node that it
/// visits next.
#[derive(Debug)]
pub struct ContinuationIterator(pub StackChain);

/// A walk over the saved limits of the stacks of a chain. It holds the node
/// that it visits next.
#[derive(Debug)]
pub struct StackLimitsIterator(pub StackChain);

/// The chain of a store before anything runs.
#[derive(Debug)]
pub struct StackChainCell(pub StackChain);

impl StackChainCell {
    /// A cell that holds no chain.
    pub fn absent() -> (cell: Self)
        ensures
            cell.0 == StackChain::Absent,
    {
        StackChainCell(StackChain::Absent)
    }
}

/// The control block of a continuation.
#[derive(Debug)]
pub struct VMContRef {
    /// State, saved limits and handlers of the continuation's stack.
    pub common_stack_information: CommonStackInformation,
    /// The parent of the continuation: another continuation, the initial
    /// stack, or nothing while the continuation is not part of the running
    /// chain.
    pub parent_chain: StackChain,
    /// While the continuation is `Fresh` or `Suspended`: the slot of the
    /// last stack of its chain, the one without a parent. That is the
    /// continuation itself while it is `Fresh`.
    pub last_ancestor: Option<usize>,
    /// The stack of the continuation.
    pub stack: FiberStack,
    /// The arguments of the entry function, and later its results.
    pub args: Payloads,
    /// The values handed over when the continuation suspends, is resumed, or
    /// is switched to.
    pub values: Payloads,
    /// Counts how often the continuation was consumed.
    pub revision: u64,
}

/// A control block as plain values.
pub struct ContinuationView {
    /// State, saved limits and handlers.
    pub info: StackInfoView,
    /// The parent.
    pub parent_chain: StackChain,
    /// The last stack of the chain, while the continuation is parked.
    pub last_ancestor: Option<usize>,
    /// The stack.
    pub stack: FiberStack,
    /// The occupied argument slots.
    pub args: Seq<u128>,
    /// The number of argument slots.
    pub args_capacity: u32,
    /// The occupied value slots.
    pub values: Seq<u128>,
    /// The number of value slots.
    pub values_capacity: u32,
    /// The revision.
    pub revision: u64,
}

impl ContinuationView {
    /// What an unused slot holds: no stack, no parent, no payloads.
    pub open spec fn vacant(revision: u64) -> ContinuationView {
        ContinuationView {
            info: StackInfoView {
                limits: StackLimits { stack_limit: 0, last_wasm_entry_fp: 0 },
                state: State::Fresh,
                handlers: Seq::empty(),
                first_switch_handler_index: 0,
            },
            parent_chain: StackChain::Absent,
            last_ancestor: None,
            stack: FiberStack::none(),
            args: Seq::empty(),
            args_capacity: 0,
            values: Seq::empty(),
            values_capacity: 0,
            revision,
        }
    }

    /// Whether the slot holds a continuation: it has a stack.
    pub open spec fn is_live(&self) -> bool {
        self.stack.len != 0
    }
}

impl View for VMContRef {
    type V = ContinuationView;

    open spec fn view(&self) -> ContinuationView {
        ContinuationView {
            info: self.common_stack_information@,
            parent_chain: self.parent_chain,
            last_ancestor: self.last_ancestor,
            stack: self.stack,
            args: self.args@,
            args_capacity: self.args.capacity,
            values: self.values@,
            values_capacity: self.values.capacity,
            revision: self.revision,
        }
    }
}

impl VMContRef {
    /// The buffers of the control block are well formed.
    pub open spec fn wf(&self) -> bool {
        &&& self.common_stack_information.wf()
        &&& self.args.wf()
        &&& self.values.wf()
    }

    /// The stack of the continuation.
    pub fn fiber_stack(&self) -> (stack: &FiberStack)
        ensures
            *stack == self.stack,
    {
        &self.stack
    }

    /// Takes the stack out of the control block, which is left without one.
    pub fn detach_stack(&mut self) -> (stack: FiberStack)
        ensures
            stack == old(self).stack,
            final(self)@ == (ContinuationView { stack: FiberStack::none(), ..old(self)@ }),
            old(self).wf() ==> final(self).wf(),
    {
        let mut stack = FiberStack::unallocated();
        core::mem::swap(&mut self.stack, &mut stack);
        stack
    }

    /// The control block of an unused slot.
    pub fn empty() -> (contref: Self)
        ensures
            contref.wf(),
            contref@ == ContinuationView::vacant(0),
    {
        let limits = StackLimits::with_stack_limit(0);
        let state = State::Fresh;
        let handlers = Array::empty();
        let common_stack_information = CommonStackInformation {
            limits,
            state,
            handlers,
            first_switch_handler_index: 0,
        };
        VMContRef {
            common_stack_information,
            parent_chain: StackChain::Absent,
            last_ancestor: None,
            stack: FiberStack::unallocated(),
            args: Array::empty(),
            values: Array::empty(),
            revision: 0,
        }
    }
}

} // verus!
