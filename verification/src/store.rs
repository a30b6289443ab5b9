//! The store: the slots in which continuations live, the chain of stacks
//! that are running, and the steps that take a continuation through its
//! life.
//!
//! Every step decides and records; none of them switches stacks. A step that
//! calls for a switch returns it, and the embedder performs it. What each
//! step does is specified in [`crate::model`].

use crate::common::{
    Array,
    CommonStackInformation,
    HandlerList,
    Payloads,
    StackInfoView,
    StackLimits,
    State,
    TagId,
};
use crate::continuation::{
    ContinuationIterator,
    StackChain,
    StackLimitsIterator,
    VMContObj,
    VMContRef,
};
use crate::control_effect::ControlEffect;
use crate::error::StackSwitchError;
use crate::fiber_stack::{Release, Switch, SwitchOver};
use crate::layout::{Launchpad, LAUNCHPAD_SIZE};
use crate::model::{larger, may_become, moves_along_life_cycle, HandlerSite, StoreView};
use crate::wasmfx_allocator::WasmFXAllocator;
use vstd::prelude::*;

verus! {

/// Where a slot stands in the bookkeeping of the chains.
enum Home {
    /// The slot holds no continuation.
    Free,
    /// The continuation has returned and belongs to no chain.
    Detached,
    /// The continuation is at the given position of the running chain.
    Active(int),
    /// The continuation is at the given position of the chain of the parked
    /// continuation in the given slot.
    Parked(usize, int),
}

/// The slots of the continuations and the chain of running stacks.
pub struct Store {
    /// The slots.
    conts: Vec<VMContRef>,
    /// The slots that hold no continuation; the last one is used next.
    free: Vec<usize>,
    /// The stack that is executing, followed by its ancestors.
    stack_chain: StackChain,
    /// What is recorded of the initial stack.
    initial: CommonStackInformation,
    /// The limits of the stack that is executing.
    runtime_limits: StackLimits,
    /// Where stacks come from.
    allocator: WasmFXAllocator,
    /// The bytes of stack that guest code may use.
    max_wasm_stack: usize,
    /// The slots of the running chain, the executing one first.
    active: Ghost<Seq<usize>>,
    /// For each parked continuation, the slots of its chain, itself first.
    parked: Ghost<Map<usize, Seq<usize>>>,
    /// For each slot, where it stands.
    home: Ghost<Seq<Home>>,
}

impl View for Store {
    type V = StoreView;

    closed spec fn view(&self) -> StoreView {
        StoreView {
            conts: Seq::new(self.conts@.len(), |i: int| self.conts@[i]@),
            free: self.free@,
            chain: self.stack_chain,
            initial: self.initial@,
            limits: self.runtime_limits,
            allocator: self.allocator@,
            max_wasm_stack: self.max_wasm_stack,
        }
    }
}

impl Store {
    /// The node after position `position` of the running chain.
    closed spec fn active_parent(&self, position: int) -> StackChain {
        if position + 1 < self.active@.len() {
            StackChain::Continuation(self.active@[position + 1])
        } else {
            StackChain::InitialStack
        }
    }

    /// The node after position `position` of the chain parked at `bottom`.
    closed spec fn parked_parent(&self, bottom: usize, position: int) -> StackChain {
        if position + 1 < self.parked@[bottom].len() {
            StackChain::Continuation(self.parked@[bottom][position + 1])
        } else {
            StackChain::Absent
        }
    }

    /// Slot `i` is as its place in the bookkeeping requires.
    closed spec fn slot_ok(&self, i: int) -> bool {
        let cont = self.conts@[i];
        &&& cont.wf()
        &&& match self.home@[i] {
            Home::Free => cont.stack.len == 0,
            Home::Detached => {
                &&& cont.stack.wf()
                &&& cont.stack.len >= LAUNCHPAD_SIZE
                &&& cont.common_stack_information.state == State::Returned
                &&& cont.parent_chain == StackChain::Absent
            },
            Home::Active(position) => {
                &&& cont.stack.wf()
                &&& cont.stack.len >= LAUNCHPAD_SIZE
                &&& 0 <= position < self.active@.len()
                &&& self.active@[position] == i
                &&& cont.common_stack_information.state == if position == 0 {
                    State::Running
                } else {
                    State::Parent
                }
                &&& cont.parent_chain == self.active_parent(position)
            },
            Home::Parked(bottom, position) => {
                &&& cont.stack.wf()
                &&& cont.stack.len >= LAUNCHPAD_SIZE
                &&& self.parked@.dom().contains(bottom)
                &&& 0 <= position < self.parked@[bottom].len()
                &&& self.parked@[bottom][position] == i
                &&& cont.parent_chain == self.parked_parent(bottom, position)
                &&& position == 0 ==> {
                    &&& cont.common_stack_information.state.is_resumable()
                    &&& cont.last_ancestor == Some(self.parked@[bottom].last())
                    &&& cont.common_stack_information.state == State::Fresh
                        ==> self.parked@[bottom].len() == 1
                }
                &&& position > 0 ==> cont.common_stack_information.state == State::Parent
            },
        }
    }

    /// The stacks of the continuations belong to the allocator, each to a
    /// slot of its own where the allocator is a pool.
    closed spec fn stacks_ok(&self) -> bool {
        &&& forall|i: int|
            0 <= i < self.conts@.len() && !(#[trigger] self.home@[i] is Free)
                ==> self.allocator@.owns(self.conts@[i].stack)
        &&& self.allocator@ is Pooling ==> forall|i: int, j: int|
            0 <= i < j < self.conts@.len() && !(#[trigger] self.home@[i] is Free) && !(
            #[trigger] self.home@[j] is Free) ==> self.conts@[i].stack.top
                != self.conts@[j].stack.top
    }

    /// The bookkeeping of the chains names each slot where it stands.
    closed spec fn chains_ok(&self) -> bool {
        &&& forall|position: int|
            0 <= position < self.active@.len() ==> (#[trigger] self.active@[position])
                < self.conts@.len() && self.home@[self.active@[position] as int] == Home::Active(
                position,
            )
        &&& forall|bottom: usize, position: int|
            self.parked@.dom().contains(bottom) && 0 <= position < self.parked@[bottom].len() ==> (
            #[trigger] self.parked@[bottom][position]) < self.conts@.len()
                && self.home@[self.parked@[bottom][position] as int] == Home::Parked(
                bottom,
                position,
            )
        &&& forall|bottom: usize| #[trigger]
            self.parked@.dom().contains(bottom) ==> self.parked@[bottom].len() > 0
                && self.parked@[bottom][0] == bottom
    }

    /// The free list names each free slot at most once.
    closed spec fn free_ok(&self) -> bool {
        &&& forall|j: int|
            0 <= j < self.free@.len() ==> (#[trigger] self.free@[j]) < self.conts@.len()
                && self.home@[self.free@[j] as int] is Free
        &&& forall|j: int, k: int| 0 <= j < k < self.free@.len() ==> self.free@[j] != self.free@[k]
    }

    /// The head of the chain and the state of the initial stack agree with
    /// the bookkeeping.
    closed spec fn head_ok(&self) -> bool {
        &&& self.initial.wf()
        &&& self.stack_chain == if self.active@.len() == 0 {
            StackChain::InitialStack
        } else {
            StackChain::Continuation(self.active@[0])
        }
        &&& self.initial.state == if self.active@.len() == 0 {
            State::Running
        } else {
            State::Parent
        }
    }

    /// The invariant of the store. The running chain leads from the
    /// executing stack through its ancestors to the initial stack; the chain
    /// of each parked continuation leads from it to a stack without parent;
    /// no continuation is part of two chains; each continuation has a stack
    /// of its own.
    pub closed spec fn wf(&self) -> bool {
        &&& self.allocator.wf()
        &&& self.home@.len() == self.conts@.len()
        &&& self.head_ok()
        &&& forall|i: int| 0 <= i < self.conts@.len() ==> #[trigger] self.slot_ok(i)
        &&& self.chains_ok()
        &&& self.free_ok()
        &&& self.stacks_ok()
    }

    /// A store without continuations, in which the initial stack executes.
    pub fn new(allocator: WasmFXAllocator, max_wasm_stack: usize) -> (store: Self)
        requires
            allocator.wf(),
        ensures
            store.wf(),
            store@ == (StoreView {
                conts: Seq::empty(),
                free: Seq::empty(),
                chain: StackChain::InitialStack,
                initial: StackInfoView {
                    limits: StackLimits { stack_limit: 0, last_wasm_entry_fp: 0 },
                    state: State::Running,
                    handlers: Seq::empty(),
                    first_switch_handler_index: 0,
                },
                limits: StackLimits { stack_limit: 0, last_wasm_entry_fp: 0 },
                allocator: allocator@,
                max_wasm_stack,
            }),
    {
        let store = Store {
            conts: Vec::new(),
            free: Vec::new(),
            stack_chain: StackChain::InitialStack,
            initial: CommonStackInformation::running_default(),
            runtime_limits: StackLimits::default(),
            allocator,
            max_wasm_stack,
            active: Ghost(Seq::empty()),
            parked: Ghost(Map::empty()),
            home: Ghost(Seq::empty()),
        };
        assert(store@.conts =~= Seq::empty());
        store
    }

    /// The stack that is executing, followed by its ancestors.
    pub fn stack_chain(&self) -> (chain: StackChain)
        ensures
            chain == self@.chain,
    {
        self.stack_chain
    }

    /// Number of slots.
    pub fn slots(&self) -> (slots: usize)
        ensures
            slots == self@.conts.len(),
    {
        self.conts.len()
    }

    /// The control block in slot `contref`.
    pub fn contref(&self, contref: usize) -> (cont: Option<&VMContRef>)
        ensures
            match cont {
                Some(cont) => contref < self@.conts.len() && cont@ == self@.conts[contref as int],
                None => contref >= self@.conts.len(),
            },
    {
        if contref < self.conts.len() {
            Some(&self.conts[contref])
        } else {
            None
        }
    }

    /// The state of the continuation in slot `contref`, if the slot holds
    /// one.
    pub fn state(&self, contref: usize) -> (state: Option<State>)
        ensures
            state == if self@.is_live(contref as int) {
                Some(self@.conts[contref as int].info.state)
            } else {
                None
            },
    {
        if contref < self.conts.len() && !self.conts[contref].stack.is_unallocated() {
            Some(self.conts[contref].common_stack_information.state)
        } else {
            None
        }
    }

    /// The bytes that the embedder maps before it creates a continuation:
    /// some where stacks are made on demand, if a stack can be had at all,
    /// and none where they come from a pool.
    pub fn mapping_len(&self) -> (len: Option<usize>)
        ensures
            len == self@.allocator.mapping_len(),
    {
        self.allocator.mapping_len()
    }

    /// What is recorded of the initial stack.
    pub fn initial_stack(&self) -> (info: &CommonStackInformation)
        ensures
            info@ == self@.initial,
    {
        &self.initial
    }

    /// The limits of the stack that is executing.
    pub fn runtime_limits(&self) -> (limits: StackLimits)
        ensures
            limits == self@.limits,
    {
        self.runtime_limits
    }

    /// Records the limits of the stack that is executing.
    pub fn set_runtime_limits(&mut self, limits: StackLimits)
        requires
            old(self).wf(),
        ensures
            final(self).wf(),
            final(self)@ == (StoreView { limits, ..old(self)@ }),
    {
        self.runtime_limits = limits;
        proof {
            assert(final(self)@.conts =~= old(self)@.conts);
            assert forall|i: int| 0 <= i < self.conts@.len() implies #[trigger] self.slot_ok(
                i,
            ) by {
                assert(old(self).slot_ok(i));
            }
        }
    }

    /// Consumes `handle`: checks it against the revision of the continuation
    /// and, if it is good, advances the revision, so that no copy of the
    /// handle is good any more. Returns the slot of the continuation.
    pub fn take(&mut self, handle: VMContObj) -> (taken: Result<usize, StackSwitchError>)
        requires
            old(self).wf(),
        ensures
            final(self).wf(),
            taken == old(self)@.take_result(handle),
            final(self)@ == old(self)@.after_take(handle),
    {
        let contref: usize = handle.contref;
        if contref >= self.conts.len() || self.conts[contref].stack.is_unallocated()
            || self.conts[contref].revision != handle.revision || handle.revision == u64::MAX {
            return Err(StackSwitchError::ContinuationAlreadyConsumed);
        }
        self.conts[contref].revision = handle.revision + 1;
        proof {
            assert(final(self)@.conts =~= old(self)@.after_take(handle).conts);
            assert forall|i: int| 0 <= i < self.conts@.len() implies #[trigger] self.slot_ok(
                i,
            ) by {
                assert(old(self).slot_ok(i));
            }
        }
        Ok(contref)
    }
}

/// Creates a continuation that will run `func`: takes a stack from the
/// allocator and a slot from the store, and sets the continuation up as
/// `Fresh`, without parent, as the last ancestor of itself. Its stack limit
/// is the higher of two addresses: the stack pointer of the first frame less
/// the budget of guest code, and the top of the stack less the configured
/// stack size. A slot that is used again keeps its revision; everything else
/// in it is new, and no other slot changes. Returns the slot and the frame
/// that the embedder writes at the top of the stack.
///
/// `mapping` is the memory that the embedder mapped for the stack, where the
/// allocator works on demand. When the allocator has no stack to give, its
/// error is returned and the store is unchanged.
#[verifier::spinoff_prover]
#[verifier::rlimit(60)]
pub fn cont_new(
    store: &mut Store,
    func: usize,
    caller_vmctx: usize,
    param_count: u32,
    result_count: u32,
    mapping: Option<usize>,
) -> (created: Result<(usize, Launchpad), StackSwitchError>)
    requires
        old(store).wf(),
    ensures
        final(store).wf(),
        match old(store)@.allocator.next_stack(mapping) {
            Err(error) => created == Err::<(usize, Launchpad), StackSwitchError>(error)
                && final(store)@ == old(store)@,
            Ok(stack) => ({
                let slot = old(store)@.next_slot();
                let slots = old(store)@.conts.len();
                &&& created == Ok::<(usize, Launchpad), StackSwitchError>(
                    (
                        slot,
                        StoreView::launchpad(
                            slot,
                            stack,
                            func,
                            caller_vmctx,
                            param_count,
                            result_count,
                        ),
                    ),
                )
                &&& final(store)@ == old(store)@.after_cont_new(stack, param_count, result_count)
                &&& slot <= slots
                &&& !old(store)@.is_live(slot as int)
                &&& final(store)@.conts.len() == if slot < slots {
                    slots
                } else {
                    slots + 1
                }
                &&& final(store)@.conts[slot as int] == old(store)@.created(
                    slot,
                    stack,
                    param_count,
                    result_count,
                )
                &&& forall|i: int|
                    0 <= i < slots && i != slot ==> final(store)@.conts[i] == old(store)@.conts[i]
                &&& final(store)@.is_live(slot as int)
                &&& stack.wf()
                &&& stack.len >= LAUNCHPAD_SIZE
                &&& stack.base() <= old(store)@.stack_limit(stack) <= stack.top
            }),
        },
{
    let ghost before = *old(store);
    proof {
        before.allocator.lemma_view_wf();
    }
    let stack = match store.allocator.allocate(mapping) {
        Ok(stack) => stack,
        Err(error) => {
            proof {
                assert(store@.conts =~= before@.conts);
                assert forall|i: int| 0 <= i < store.conts@.len() implies #[trigger] store.slot_ok(
                    i,
                ) by {
                    assert(before.slot_ok(i));
                }
            }
            return Err(error);
        },
    };
    proof {
        crate::wasmfx_allocator::lemma_allocate_keeps_owned(before@.allocator, mapping);
    }
    let capacity: u32 = if param_count > result_count {
        param_count
    } else {
        result_count
    };
    let slot: usize = match store.free.pop() {
        Some(slot) => slot,
        None => {
            store.conts.push(VMContRef::empty());
            store.home = Ghost(store.home@.push(Home::Free));
            store.conts.len() - 1
        },
    };
    let ghost grown = *store;
    proof {
        assert(slot == before@.next_slot());
        assert(grown.home@[slot as int] is Free);
        assert(grown.conts@[slot as int].revision == before@.next_revision()) by {
            if before.free@.len() > 0 {
                assert(before.free@[before.free@.len() - 1] == slot);
            }
        }
        assert(!grown.parked@.dom().contains(slot)) by {
            if grown.parked@.dom().contains(slot) {
                assert(before.parked@[slot][0] == slot);
            }
        }
    }
    let pad = stack.initialize(func, caller_vmctx, slot, capacity as usize);
    let by_size: usize = stack.top - store.allocator.stack_size();
    let limit: usize = if pad.stack_pointer >= store.max_wasm_stack && pad.stack_pointer
        - store.max_wasm_stack > by_size {
        pad.stack_pointer - store.max_wasm_stack
    } else {
        by_size
    };
    store.conts[slot].stack = stack;
    store.conts[slot].parent_chain = StackChain::Absent;
    store.conts[slot].last_ancestor = Some(slot);
    store.conts[slot].common_stack_information = CommonStackInformation {
        limits: StackLimits::with_stack_limit(limit),
        state: State::Fresh,
        handlers: Array::empty(),
        first_switch_handler_index: 0,
    };
    store.conts[slot].args = Array::with_capacity(capacity);
    store.conts[slot].values = Array::empty();
    store.home = Ghost(store.home@.update(slot as int, Home::Parked(slot, 0)));
    store.parked = Ghost(store.parked@.insert(slot, seq![slot]));
    proof {
        let after = before@.after_cont_new(stack, param_count, result_count);
        assert(store@.conts =~= after.conts);
        assert(store@.free =~= after.free);
        assert forall|i: int| 0 <= i < store.conts@.len() implies #[trigger] store.slot_ok(i) by {
            if i != slot {
                assert(before.slot_ok(i));
                assert(grown.home@[i] == before.home@[i]);
            }
        }
        assert(store.chains_ok()) by {
            assert forall|bottom: usize, position: int|
                store.parked@.dom().contains(bottom) && 0 <= position
                    < store.parked@[bottom].len() implies (
            #[trigger] store.parked@[bottom][position]) < store.conts@.len()
                && store.home@[store.parked@[bottom][position] as int] == Home::Parked(
                bottom,
                position,
            ) by {
                if bottom != slot {
                    assert(before.parked@[bottom][position] < before.conts@.len());
                }
            }
        }
        assert(store.free_ok()) by {
            assert forall|j: int| 0 <= j < store.free@.len() implies (#[trigger] store.free@[j])
                < store.conts@.len() && store.home@[store.free@[j] as int] is Free by {
                assert(before.free@[j] == store.free@[j]);
            }
        }
        assert(store.stacks_ok());
        assert(!before@.is_live(slot as int)) by {
            if slot < before.conts@.len() {
                assert(before.slot_ok(slot as int));
            }
        }
        assert(store@.conts[slot as int] == before@.created(
            slot,
            stack,
            param_count,
            result_count,
        ));
        assert forall|i: int| 0 <= i < before@.conts.len() && i != slot implies store@.conts[i]
            == before@.conts[i] by {}
    }
    Ok((slot, pad))
}

impl Store {
    /// A live continuation that can be resumed is the first of a parked
    /// chain, and its last ancestor is the last of that chain.
    proof fn lemma_resumable_is_parked(&self, contref: usize)
        requires
            self.wf(),
            self@.is_live(contref as int),
            self@.conts[contref as int].info.state.is_resumable(),
        ensures
            self.home@[contref as int] == Home::Parked(contref, 0),
            self.parked@.dom().contains(contref),
            self.parked@[contref].len() > 0,
            self.parked@[contref][0] == contref,
            self.conts@[contref as int].last_ancestor == Some(self.parked@[contref].last()),
            self.parked@[contref].last() < self.conts@.len(),
    {
        assert(self.slot_ok(contref as int));
        match self.home@[contref as int] {
            Home::Parked(bottom, position) => {
                assert(position == 0);
                assert(self.parked@[bottom][0] == bottom);
                let chain = self.parked@[contref];
                assert(chain[chain.len() - 1] < self.conts@.len());
            },
            _ => {},
        }
    }
}

/// Resumes the continuation that `handle` refers to. The handle is
/// consumed. The executing stack becomes the parent of the chain of the
/// continuation, with `handlers` installed, the first
/// `first_switch_handler_index` of which handle suspensions and the rest
/// switches. Returns the switch for the embedder to perform: through the
/// control context of the last ancestor of the continuation, which is where
/// the continuation was parked when it suspended, and is its own while it is
/// `Fresh`.
///
/// Fails, and leaves the store unchanged, when the handle is stale or the
/// continuation is neither `Fresh` nor `Suspended`.
#[verifier::spinoff_prover]
#[verifier::rlimit(60)]
pub fn resume(
    store: &mut Store,
    handle: VMContObj,
    handlers: HandlerList,
    first_switch_handler_index: u32,
) -> (switch: Result<Switch, StackSwitchError>)
    requires
        old(store).wf(),
        handlers.wf(),
        first_switch_handler_index <= handlers.length,
    ensures
        final(store).wf(),
        switch == old(store)@.resume_result(handle),
        final(store)@ == old(store)@.after_resume(
            handle,
            handlers@,
            first_switch_handler_index,
        ),
{
    let ghost before = *old(store);
    let contref: usize = handle.contref;
    if contref >= store.conts.len() || store.conts[contref].stack.is_unallocated()
        || store.conts[contref].revision != handle.revision || handle.revision == u64::MAX {
        return Err(StackSwitchError::ContinuationAlreadyConsumed);
    }
    match store.conts[contref].common_stack_information.state {
        State::Fresh | State::Suspended => {},
        _ => {
            return Err(StackSwitchError::ContinuationNotResumable);
        },
    }
    proof {
        before.lemma_resumable_is_parked(contref);
    }
    let last: usize = match store.conts[contref].last_ancestor {
        Some(last) => last,
        None => {
            return Err(StackSwitchError::ContinuationNotResumable);
        },
    };
    let onto = store.stack_chain;
    let limits = store.runtime_limits;
    match onto {
        StackChain::Continuation(resumer) => {
            assert(before.active@[0] < before.conts@.len());
            store.conts[resumer].common_stack_information = CommonStackInformation {
                limits,
                state: State::Parent,
                handlers,
                first_switch_handler_index,
            };
        },
        _ => {
            store.initial = CommonStackInformation {
                limits,
                state: State::Parent,
                handlers,
                first_switch_handler_index,
            };
        },
    }
    store.conts[last].parent_chain = onto;
    let target_limits = store.conts[contref].common_stack_information.limits;
    store.conts[contref].common_stack_information.state = State::Running;
    store.conts[contref].last_ancestor = None;
    store.conts[contref].revision = handle.revision + 1;
    store.runtime_limits = target_limits;
    store.stack_chain = StackChain::Continuation(contref);
    let ghost chain = before.parked@[contref];
    let ghost shift = chain.len() as int;
    store.active = Ghost(chain + before.active@);
    store.parked = Ghost(before.parked@.remove(contref));
    store.home = Ghost(
        Seq::new(
            before.home@.len(),
            |i: int|
                match before.home@[i] {
                    Home::Parked(bottom, position) => if bottom == contref {
                        Home::Active(position)
                    } else {
                        before.home@[i]
                    },
                    Home::Active(position) => Home::Active(position + shift),
                    Home::Free => Home::Free,
                    Home::Detached => Home::Detached,
                },
        ),
    );
    proof {
        let after = before@.after_resume(handle, handlers@, first_switch_handler_index);
        assert(store@.conts =~= after.conts);
        assert(store@ == after);
        assert forall|position: int| 0 <= position < store.active@.len() implies (
        #[trigger] store.active@[position]) < store.conts@.len()
            && store.home@[store.active@[position] as int] == Home::Active(position) by {
            if position < shift {
                assert(chain[position] < before.conts@.len());
            } else {
                assert(before.active@[position - shift] < before.conts@.len());
            }
        }
        assert forall|bottom: usize, position: int|
            store.parked@.dom().contains(bottom) && 0 <= position
                < store.parked@[bottom].len() implies (#[trigger] store.parked@[bottom][position])
            < store.conts@.len() && store.home@[store.parked@[bottom][position] as int]
            == Home::Parked(bottom, position) by {
            assert(before.parked@[bottom][position] < before.conts@.len());
        }
        assert(store.chains_ok());
        assert forall|i: int| 0 <= i < store.conts@.len() implies #[trigger] store.slot_ok(i) by {
            assert(before.slot_ok(i));
            match before.home@[i] {
                Home::Parked(bottom, position) => {
                    if bottom == contref {
                        assert(chain[position] == i);
                        assert(store.active@[position] == i);
                        if position + 1 < shift {
                            assert(store.active@[position + 1] == chain[position + 1]);
                        } else {
                            assert(i == last);
                            if before.active@.len() > 0 {
                                assert(store.active@[position + 1] == before.active@[0]);
                            }
                        }
                    } else {
                        assert(before.parked@[bottom][position] == i);
                        assert(i != last);
                        assert(i != contref);
                    }
                },
                Home::Active(position) => {
                    assert(store.active@[position + shift] == i);
                    if position + 1 < before.active@.len() {
                        assert(store.active@[position + shift + 1] == before.active@[position
                            + 1]);
                    }
                },
                _ => {},
            }
        }
        assert(store.free_ok()) by {
            assert forall|j: int| 0 <= j < store.free@.len() implies (#[trigger] store.free@[j])
                < store.conts@.len() && store.home@[store.free@[j] as int] is Free by {
                assert(before.home@[before.free@[j] as int] is Free);
            }
        }
        assert(store.stacks_ok()) by {
            assert forall|i: int|
                0 <= i < store.conts@.len() && !(#[trigger] store.home@[i] is Free)
                    implies store.allocator@.owns(store.conts@[i].stack) by {
                assert(!(before.home@[i] is Free));
            }
            if store.allocator@ is Pooling {
                assert forall|i: int, j: int|
                    0 <= i < j < store.conts@.len() && !(#[trigger] store.home@[i] is Free) && !(
                    #[trigger] store.home@[j] is Free) implies store.conts@[i].stack.top
                    != store.conts@[j].stack.top by {
                    assert(!(before.home@[i] is Free));
                    assert(!(before.home@[j] is Free));
                }
            }
        }
    }
    Ok(store.conts[last].stack.resume())
}

/// Ends the running continuation: its entry function has returned. The
/// continuation becomes `Returned` and loses its parent, which executes
/// again, without the handlers that it had installed. Returns the switch
/// that hands `Return` to the parent.
///
/// Fails when the initial stack is executing; the store is then unchanged.
#[verifier::spinoff_prover]
#[verifier::rlimit(60)]
pub fn cont_return(store: &mut Store) -> (switch: Result<Switch, StackSwitchError>)
    requires
        old(store).wf(),
    ensures
        final(store).wf(),
        switch == old(store)@.return_result(),
        final(store)@ == old(store)@.after_return(),
{
    let ghost before = *old(store);
    let head: usize = match store.stack_chain {
        StackChain::Continuation(head) => head,
        _ => {
            return Err(StackSwitchError::NoRunningContinuation);
        },
    };
    proof {
        assert(before.active@[0] == head);
        assert(before.slot_ok(head as int));
        if before.active@.len() > 1 {
            assert(before.active@[1] < before.conts@.len());
            assert(before.slot_ok(before.active@[1] as int));
        }
    }
    let parent = store.conts[head].parent_chain;
    store.conts[head].common_stack_information.state = State::Returned;
    store.conts[head].parent_chain = StackChain::Absent;
    let limits = match parent {
        StackChain::Continuation(above) => {
            let limits = store.conts[above].common_stack_information.limits;
            store.conts[above].common_stack_information = CommonStackInformation {
                limits,
                state: State::Running,
                handlers: Array::empty(),
                first_switch_handler_index: 0,
            };
            limits
        },
        _ => {
            let limits = store.initial.limits;
            store.initial = CommonStackInformation {
                limits,
                state: State::Running,
                handlers: Array::empty(),
                first_switch_handler_index: 0,
            };
            limits
        },
    };
    store.runtime_limits = limits;
    store.stack_chain = parent;
    store.active = Ghost(before.active@.subrange(1, before.active@.len() as int));
    store.home = Ghost(
        Seq::new(
            before.home@.len(),
            |i: int|
                match before.home@[i] {
                    Home::Active(position) => if position == 0 {
                        Home::Detached
                    } else {
                        Home::Active(position - 1)
                    },
                    Home::Parked(bottom, position) => Home::Parked(bottom, position),
                    Home::Free => Home::Free,
                    Home::Detached => Home::Detached,
                },
        ),
    );
    proof {
        let after = before@.after_return();
        assert(store@.conts =~= after.conts);
        assert(store@ == after);
        assert forall|position: int| 0 <= position < store.active@.len() implies (
        #[trigger] store.active@[position]) < store.conts@.len()
            && store.home@[store.active@[position] as int] == Home::Active(position) by {
            assert(before.active@[position + 1] < before.conts@.len());
        }
        assert forall|bottom: usize, position: int|
            store.parked@.dom().contains(bottom) && 0 <= position
                < store.parked@[bottom].len() implies (#[trigger] store.parked@[bottom][position])
            < store.conts@.len() && store.home@[store.parked@[bottom][position] as int]
            == Home::Parked(bottom, position) by {
            assert(before.parked@[bottom][position] < before.conts@.len());
        }
        assert(store.chains_ok());
        assert forall|i: int| 0 <= i < store.conts@.len() implies #[trigger] store.slot_ok(i) by {
            assert(before.slot_ok(i));
            match before.home@[i] {
                Home::Active(position) => {
                    if position > 0 {
                        assert(store.active@[position - 1] == i);
                        if position + 1 < before.active@.len() {
                            assert(store.active@[position] == before.active@[position + 1]);
                        }
                    }
                },
                Home::Parked(bottom, position) => {
                    assert(before.parked@[bottom][position] == i);
                },
                _ => {},
            }
        }
        assert(store.free_ok()) by {
            assert forall|j: int| 0 <= j < store.free@.len() implies (#[trigger] store.free@[j])
                < store.conts@.len() && store.home@[store.free@[j] as int] is Free by {
                assert(before.home@[before.free@[j] as int] is Free);
            }
        }
        assert(store.stacks_ok()) by {
            assert forall|i: int|
                0 <= i < store.conts@.len() && !(#[trigger] store.home@[i] is Free)
                    implies store.allocator@.owns(store.conts@[i].stack) by {
                assert(!(before.home@[i] is Free));
            }
            if store.allocator@ is Pooling {
                assert forall|i: int, j: int|
                    0 <= i < j < store.conts@.len() && !(#[trigger] store.home@[i] is Free) && !(
                    #[trigger] store.home@[j] is Free) implies store.conts@[i].stack.top
                    != store.conts@[j].stack.top by {
                    assert(!(before.home@[i] is Free));
                    assert(!(before.home@[j] is Free));
                }
            }
        }
    }
    Ok(Switch { top_of_stack: store.conts[head].stack.top, payload: ControlEffect::return_().encode() })
}

impl Store {
    /// Looks for the nearest handler for `tag` above the running
    /// continuation, which lives in slot `head`. Also tells the position in
    /// the running chain of the last stack below the handling one.
    fn find_site(&self, head: usize, tag: TagId, switching: bool) -> (found: (
        Option<HandlerSite>,
        Ghost<int>,
    ))
        requires
            self.wf(),
            self.stack_chain == StackChain::Continuation(head),
        ensures
            found.0 == self@.handler_site(head, tag, switching, self@.conts.len()),
            found.0 matches Some(site) ==> {
                &&& 0 <= found.1@ < self.active@.len()
                &&& self.active@[found.1@] == site.last
                &&& site.stack == self.active_parent(found.1@)
                &&& site.index < self@.info_at(site.stack).handlers.len()
            },
    {
        let mut child: usize = head;
        let mut fuel: usize = self.conts.len();
        let ghost mut position: int = 0;
        while fuel > 0
            invariant
                self.wf(),
                0 <= position < self.active@.len(),
                self.active@[position] == child,
                child < self.conts@.len(),
                fuel <= self.conts@.len(),
                self@.handler_site(head, tag, switching, self@.conts.len()) == self@.handler_site(
                    child,
                    tag,
                    switching,
                    fuel as nat,
                ),
            decreases fuel,
        {
            proof {
                assert(self.slot_ok(child as int));
                assert(self.home@[child as int] == Home::Active(position));
                if position + 1 < self.active@.len() {
                    assert(self.active@[position + 1] < self.conts@.len());
                    assert(self.slot_ok(self.active@[position + 1] as int));
                }
            }
            let parent = self.conts[child].parent_chain;
            match parent {
                StackChain::Absent => {
                    return (None, Ghost(position));
                },
                StackChain::InitialStack => {
                    let handler = if switching {
                        self.initial.switch_handler(tag)
                    } else {
                        self.initial.suspend_handler(tag)
                    };
                    proof {
                        crate::common::lemma_first_match(
                            self.initial@.handlers,
                            tag,
                            0,
                            self.initial.first_switch_handler_index as int,
                        );
                        crate::common::lemma_first_match(
                            self.initial@.handlers,
                            tag,
                            self.initial.first_switch_handler_index as int,
                            self.initial@.handlers.len() as int,
                        );
                    }
                    return match handler {
                        Some(index) => (
                            Some(HandlerSite { last: child, stack: parent, index }),
                            Ghost(position),
                        ),
                        None => (None, Ghost(position)),
                    };
                },
                StackChain::Continuation(next) => {
                    let info = &self.conts[next].common_stack_information;
                    let handler = if switching {
                        info.switch_handler(tag)
                    } else {
                        info.suspend_handler(tag)
                    };
                    proof {
                        crate::common::lemma_first_match(
                            info@.handlers,
                            tag,
                            0,
                            info.first_switch_handler_index as int,
                        );
                        crate::common::lemma_first_match(
                            info@.handlers,
                            tag,
                            info.first_switch_handler_index as int,
                            info@.handlers.len() as int,
                        );
                    }
                    match handler {
                        Some(index) => {
                            return (
                                Some(HandlerSite { last: child, stack: parent, index }),
                                Ghost(position),
                            );
                        },
                        None => {
                            child = next;
                            fuel = fuel - 1;
                            proof {
                                position = position + 1;
                            }
                        },
                    }
                },
            }
        }
        (None, Ghost(position))
    }
}

/// Suspends the running continuation to the nearest stack above it that
/// has a suspend handler for `tag`. The continuation and its ancestors
/// below that stack are parked as one chain; the handling stack executes
/// again, without the handlers that it had installed. Returns the switch
/// that hands `Suspend { handler_index }` to the handling stack, and the
/// handle through which the continuation can be resumed.
///
/// Fails when no stack above the running continuation handles the tag, or
/// the initial stack is executing; the store is then unchanged.
#[verifier::spinoff_prover]
#[verifier::rlimit(60)]
pub fn suspend(store: &mut Store, tag: TagId) -> (suspended: Result<
    (Switch, VMContObj),
    StackSwitchError,
>)
    requires
        old(store).wf(),
    ensures
        final(store).wf(),
        suspended == old(store)@.suspend_result(tag),
        final(store)@ == old(store)@.after_suspend(tag),
{
    let ghost before = *old(store);
    let head: usize = match store.stack_chain {
        StackChain::Continuation(head) => head,
        _ => {
            return Err(StackSwitchError::HandlerNotFound);
        },
    };
    let (site, Ghost(depth)) = store.find_site(head, tag, false);
    let site = match site {
        Some(site) => site,
        None => {
            return Err(StackSwitchError::HandlerNotFound);
        },
    };
    proof {
        assert(before.active@[0] == head);
        assert(before.slot_ok(head as int));
        assert(before.slot_ok(site.last as int));
        if depth + 1 < before.active@.len() {
            assert(before.active@[depth + 1] < before.conts@.len());
            assert(before.slot_ok(before.active@[depth + 1] as int));
        }
    }
    let handle = VMContObj::new(head, store.conts[head].revision);
    store.conts[head].common_stack_information.state = State::Suspended;
    store.conts[head].common_stack_information.limits = store.runtime_limits;
    store.conts[head].last_ancestor = Some(site.last);
    store.conts[site.last].parent_chain = StackChain::Absent;
    let limits = match site.stack {
        StackChain::Continuation(above) => {
            let limits = store.conts[above].common_stack_information.limits;
            store.conts[above].common_stack_information = CommonStackInformation {
                limits,
                state: State::Running,
                handlers: Array::empty(),
                first_switch_handler_index: 0,
            };
            limits
        },
        _ => {
            let limits = store.initial.limits;
            store.initial = CommonStackInformation {
                limits,
                state: State::Running,
                handlers: Array::empty(),
                first_switch_handler_index: 0,
            };
            limits
        },
    };
    store.runtime_limits = limits;
    store.stack_chain = site.stack;
    let ghost chain = before.active@.subrange(0, depth + 1);
    store.active = Ghost(before.active@.subrange(depth + 1, before.active@.len() as int));
    store.parked = Ghost(before.parked@.insert(head, chain));
    store.home = Ghost(
        Seq::new(
            before.home@.len(),
            |i: int|
                match before.home@[i] {
                    Home::Active(position) => if position <= depth {
                        Home::Parked(head, position)
                    } else {
                        Home::Active(position - depth - 1)
                    },
                    Home::Parked(bottom, position) => Home::Parked(bottom, position),
                    Home::Free => Home::Free,
                    Home::Detached => Home::Detached,
                },
        ),
    );
    proof {
        let after = before@.after_suspend(tag);
        assert(store@.conts =~= after.conts);
        assert(store@ == after);
        assert(!before.parked@.dom().contains(head)) by {
            if before.parked@.dom().contains(head) {
                assert(before.parked@[head][0] == head);
            }
        }
        assert forall|position: int| 0 <= position < store.active@.len() implies (
        #[trigger] store.active@[position]) < store.conts@.len()
            && store.home@[store.active@[position] as int] == Home::Active(position) by {
            assert(before.active@[position + depth + 1] < before.conts@.len());
        }
        assert forall|bottom: usize, position: int|
            store.parked@.dom().contains(bottom) && 0 <= position
                < store.parked@[bottom].len() implies (#[trigger] store.parked@[bottom][position])
            < store.conts@.len() && store.home@[store.parked@[bottom][position] as int]
            == Home::Parked(bottom, position) by {
            if bottom == head {
                assert(before.active@[position] < before.conts@.len());
            } else {
                assert(before.parked@[bottom][position] < before.conts@.len());
            }
        }
        assert(store.chains_ok());
        assert forall|i: int| 0 <= i < store.conts@.len() implies #[trigger] store.slot_ok(i) by {
            assert(before.slot_ok(i));
            match before.home@[i] {
                Home::Active(position) => {
                    if position <= depth {
                        assert(chain[position] == i);
                        if position + 1 <= depth {
                            assert(chain[position + 1] == before.active@[position + 1]);
                        }
                    } else {
                        assert(store.active@[position - depth - 1] == i);
                        if position + 1 < before.active@.len() {
                            assert(store.active@[position - depth] == before.active@[position
                                + 1]);
                        }
                    }
                },
                Home::Parked(bottom, position) => {
                    assert(before.parked@[bottom][position] == i);
                    assert(bottom != head);
                },
                _ => {},
            }
        }
        assert(store.free_ok()) by {
            assert forall|j: int| 0 <= j < store.free@.len() implies (#[trigger] store.free@[j])
                < store.conts@.len() && store.home@[store.free@[j] as int] is Free by {
                assert(before.home@[before.free@[j] as int] is Free);
            }
        }
        assert(store.stacks_ok()) by {
            assert forall|i: int|
                0 <= i < store.conts@.len() && !(#[trigger] store.home@[i] is Free)
                    implies store.allocator@.owns(store.conts@[i].stack) by {
                assert(!(before.home@[i] is Free));
            }
            if store.allocator@ is Pooling {
                assert forall|i: int, j: int|
                    0 <= i < j < store.conts@.len() && !(#[trigger] store.home@[i] is Free) && !(
                    #[trigger] store.home@[j] is Free) implies store.conts@[i].stack.top
                    != store.conts@[j].stack.top by {
                    assert(!(before.home@[i] is Free));
                    assert(!(before.home@[j] is Free));
                }
            }
        }
    }
    Ok(
        (
            Switch {
                top_of_stack: store.conts[site.last].stack.top,
                payload: ControlEffect::suspend(site.index).encode(),
            },
            handle,
        ),
    )
}

/// Switches from the running continuation to the continuation that
/// `target` refers to. The nearest stack above the running continuation
/// that has a switch handler for `tag` stays a parent; the running
/// continuation and its ancestors below that stack are parked as one chain,
/// and the chain of the target takes their place. The handle `target` is
/// consumed. Returns the switch that hands `Switch` to the target, and the
/// handle through which the continuation that was running can be resumed.
/// The switch names two control contexts: the one in which the continuation
/// that was running is parked, and the one through which the target is
/// entered, which receives the context of the handling stack.
///
/// Fails, and leaves the store unchanged, when the handle is stale, the
/// target is neither `Fresh` nor `Suspended`, or no stack above the running
/// continuation has a switch handler for the tag.
#[verifier::spinoff_prover]
#[verifier::rlimit(60)]
pub fn switch(store: &mut Store, target: VMContObj, tag: TagId) -> (switched: Result<
    (SwitchOver, VMContObj),
    StackSwitchError,
>)
    requires
        old(store).wf(),
    ensures
        final(store).wf(),
        switched == old(store)@.switch_result(target, tag),
        final(store)@ == old(store)@.after_switch(target, tag),
{
    let ghost before = *old(store);
    let contref: usize = target.contref;
    if contref >= store.conts.len() || store.conts[contref].stack.is_unallocated()
        || store.conts[contref].revision != target.revision || target.revision == u64::MAX {
        return Err(StackSwitchError::ContinuationAlreadyConsumed);
    }
    match store.conts[contref].common_stack_information.state {
        State::Fresh | State::Suspended => {},
        _ => {
            return Err(StackSwitchError::ContinuationNotResumable);
        },
    }
    let head: usize = match store.stack_chain {
        StackChain::Continuation(head) => head,
        _ => {
            return Err(StackSwitchError::HandlerNotFound);
        },
    };
    let (site, Ghost(depth)) = store.find_site(head, tag, true);
    let site = match site {
        Some(site) => site,
        None => {
            return Err(StackSwitchError::HandlerNotFound);
        },
    };
    proof {
        before.lemma_resumable_is_parked(contref);
        assert(before.active@[0] == head);
        assert(before.slot_ok(head as int));
        assert(before.slot_ok(site.last as int));
        assert(before.slot_ok(contref as int));
    }
    let last: usize = match store.conts[contref].last_ancestor {
        Some(last) => last,
        None => {
            return Err(StackSwitchError::ContinuationNotResumable);
        },
    };
    proof {
        assert(before.slot_ok(last as int));
    }
    let handle = VMContObj::new(head, store.conts[head].revision);
    store.conts[head].common_stack_information.state = State::Suspended;
    store.conts[head].common_stack_information.limits = store.runtime_limits;
    store.conts[head].last_ancestor = Some(site.last);
    store.conts[site.last].parent_chain = StackChain::Absent;
    store.conts[last].parent_chain = site.stack;
    let target_limits = store.conts[contref].common_stack_information.limits;
    store.conts[contref].common_stack_information.state = State::Running;
    store.conts[contref].last_ancestor = None;
    store.conts[contref].revision = target.revision + 1;
    store.runtime_limits = target_limits;
    store.stack_chain = StackChain::Continuation(contref);
    let ghost left = before.active@.subrange(0, depth + 1);
    let ghost entered = before.parked@[contref];
    let ghost shift = entered.len() as int;
    store.active = Ghost(
        entered + before.active@.subrange(depth + 1, before.active@.len() as int),
    );
    store.parked = Ghost(before.parked@.remove(contref).insert(head, left));
    store.home = Ghost(
        Seq::new(
            before.home@.len(),
            |i: int|
                match before.home@[i] {
                    Home::Active(position) => if position <= depth {
                        Home::Parked(head, position)
                    } else {
                        Home::Active(position - depth - 1 + shift)
                    },
                    Home::Parked(bottom, position) => if bottom == contref {
                        Home::Active(position)
                    } else {
                        Home::Parked(bottom, position)
                    },
                    Home::Free => Home::Free,
                    Home::Detached => Home::Detached,
                },
        ),
    );
    proof {
        let after = before@.after_switch(target, tag);
        assert(store@.conts =~= after.conts);
        assert(store@ == after);
        assert(!before.parked@.dom().contains(head)) by {
            if before.parked@.dom().contains(head) {
                assert(before.parked@[head][0] == head);
            }
        }
        assert forall|position: int| 0 <= position < store.active@.len() implies (
        #[trigger] store.active@[position]) < store.conts@.len()
            && store.home@[store.active@[position] as int] == Home::Active(position) by {
            if position < shift {
                assert(entered[position] < before.conts@.len());
            } else {
                assert(before.active@[position - shift + depth + 1] < before.conts@.len());
            }
        }
        assert forall|bottom: usize, position: int|
            store.parked@.dom().contains(bottom) && 0 <= position
                < store.parked@[bottom].len() implies (#[trigger] store.parked@[bottom][position])
            < store.conts@.len() && store.home@[store.parked@[bottom][position] as int]
            == Home::Parked(bottom, position) by {
            if bottom == head {
                assert(before.active@[position] < before.conts@.len());
            } else {
                assert(before.parked@[bottom][position] < before.conts@.len());
            }
        }
        assert(store.chains_ok());
        assert forall|i: int| 0 <= i < store.conts@.len() implies #[trigger] store.slot_ok(i) by {
            assert(before.slot_ok(i));
            match before.home@[i] {
                Home::Active(position) => {
                    if position <= depth {
                        assert(left[position] == i);
                        if position + 1 <= depth {
                            assert(left[position + 1] == before.active@[position + 1]);
                        }
                    } else {
                        assert(store.active@[position - depth - 1 + shift] == i);
                        if position + 1 < before.active@.len() {
                            assert(store.active@[position - depth + shift]
                                == before.active@[position + 1]);
                        }
                    }
                },
                Home::Parked(bottom, position) => {
                    assert(before.parked@[bottom][position] == i);
                    if bottom == contref {
                        assert(store.active@[position] == i);
                        if position + 1 < shift {
                            assert(store.active@[position + 1] == entered[position + 1]);
                        } else {
                            assert(i == last);
                            if depth + 1 < before.active@.len() {
                                assert(store.active@[position + 1] == before.active@[depth + 1]);
                            }
                        }
                    } else {
                        assert(bottom != head);
                    }
                },
                _ => {},
            }
        }
        assert(store.free_ok()) by {
            assert forall|j: int| 0 <= j < store.free@.len() implies (#[trigger] store.free@[j])
                < store.conts@.len() && store.home@[store.free@[j] as int] is Free by {
                assert(before.home@[before.free@[j] as int] is Free);
            }
        }
        assert(store.stacks_ok()) by {
            assert forall|i: int|
                0 <= i < store.conts@.len() && !(#[trigger] store.home@[i] is Free)
                    implies store.allocator@.owns(store.conts@[i].stack) by {
                assert(!(before.home@[i] is Free));
            }
            if store.allocator@ is Pooling {
                assert forall|i: int, j: int|
                    0 <= i < j < store.conts@.len() && !(#[trigger] store.home@[i] is Free) && !(
                    #[trigger] store.home@[j] is Free) implies store.conts@[i].stack.top
                    != store.conts@[j].stack.top by {
                    assert(!(before.home@[i] is Free));
                    assert(!(before.home@[j] is Free));
                }
            }
        }
    }
    Ok(
        (
            SwitchOver {
                source_top_of_stack: store.conts[site.last].stack.top,
                target_top_of_stack: store.conts[last].stack.top,
                payload: ControlEffect::switch().encode(),
            },
            handle,
        ),
    )
}

/// Reclaims the continuation in slot `contref`, which has returned or was
/// never resumed: its stack goes back to the allocator, and the slot is
/// vacant. The revision of the slot advances, so that no handle to the
/// continuation is good for a continuation that gets the slot later.
/// Returns what has to happen to the memory of the stack.
///
/// Fails, and leaves the store unchanged, when the slot holds no
/// continuation, or the continuation is running, a parent, or suspended.
#[verifier::spinoff_prover]
#[verifier::rlimit(60)]
pub fn drop_cont_obj(store: &mut Store, contref: usize) -> (dropped: Result<
    Release,
    StackSwitchError,
>)
    requires
        old(store).wf(),
    ensures
        final(store).wf(),
        dropped == old(store)@.drop_result(contref),
        final(store)@ == old(store)@.after_drop(contref),
{
    let ghost before = *old(store);
    if contref >= store.conts.len() || store.conts[contref].stack.is_unallocated() {
        return Err(StackSwitchError::ContinuationAlreadyConsumed);
    }
    match store.conts[contref].common_stack_information.state {
        State::Fresh | State::Returned => {},
        _ => {
            return Err(StackSwitchError::ContinuationInUse);
        },
    }
    proof {
        before.allocator.lemma_view_wf();
        assert(before.slot_ok(contref as int));
        assert(!(before.home@[contref as int] is Free));
        crate::wasmfx_allocator::lemma_deallocate_keeps_owned(
            before@.allocator,
            before.conts@[contref as int].stack,
        );
    }
    let revision: u64 = if store.conts[contref].revision < u64::MAX {
        store.conts[contref].revision + 1
    } else {
        store.conts[contref].revision
    };
    let stack = store.conts[contref].detach_stack();
    let release = stack.release();
    store.allocator.deallocate(&stack);
    let mut vacant = VMContRef::empty();
    vacant.revision = revision;
    store.conts[contref] = vacant;
    store.free.push(contref);
    store.parked = Ghost(before.parked@.remove(contref));
    store.home = Ghost(before.home@.update(contref as int, Home::Free));
    proof {
        let after = before@.after_drop(contref);
        assert(store@.conts =~= after.conts);
        assert(store@.free =~= after.free);
        assert(store@ == after);
        assert forall|bottom: usize, position: int|
            store.parked@.dom().contains(bottom) && 0 <= position
                < store.parked@[bottom].len() implies (#[trigger] store.parked@[bottom][position])
            < store.conts@.len() && store.home@[store.parked@[bottom][position] as int]
            == Home::Parked(bottom, position) by {
            assert(before.parked@[bottom][position] < before.conts@.len());
            assert(before.home@[before.parked@[bottom][position] as int] == Home::Parked(
                bottom,
                position,
            ));
        }
        assert forall|position: int| 0 <= position < store.active@.len() implies (
        #[trigger] store.active@[position]) < store.conts@.len()
            && store.home@[store.active@[position] as int] == Home::Active(position) by {
            assert(before.active@[position] < before.conts@.len());
        }
        assert(store.chains_ok());
        assert forall|i: int| 0 <= i < store.conts@.len() implies #[trigger] store.slot_ok(i) by {
            assert(before.slot_ok(i));
            match before.home@[i] {
                Home::Parked(bottom, position) => {
                    assert(before.parked@[bottom][position] == i);
                },
                _ => {},
            }
        }
        assert(store.free_ok()) by {
            assert forall|j: int| 0 <= j < store.free@.len() implies (#[trigger] store.free@[j])
                < store.conts@.len() && store.home@[store.free@[j] as int] is Free by {
                if j < before.free@.len() {
                    assert(before.home@[before.free@[j] as int] is Free);
                }
            }
            assert forall|j: int, k: int| 0 <= j < k < store.free@.len() implies store.free@[j]
                != store.free@[k] by {
                if k == before.free@.len() {
                    assert(before.home@[before.free@[j] as int] is Free);
                }
            }
        }
        assert(store.stacks_ok()) by {
            assert forall|i: int|
                0 <= i < store.conts@.len() && !(#[trigger] store.home@[i] is Free)
                    implies store.allocator@.owns(store.conts@[i].stack) by {
                assert(!(before.home@[i] is Free));
                assert(before.allocator@.owns(before.conts@[i].stack));
                if before.allocator@ is Pooling {
                    if i < contref {
                        assert(before.conts@[i].stack.top != before.conts@[contref as int].stack.top);
                    } else {
                        assert(before.conts@[contref as int].stack.top != before.conts@[i].stack.top);
                    }
                }
            }
            if store.allocator@ is Pooling {
                assert forall|i: int, j: int|
                    0 <= i < j < store.conts@.len() && !(#[trigger] store.home@[i] is Free) && !(
                    #[trigger] store.home@[j] is Free) implies store.conts@[i].stack.top
                    != store.conts@[j].stack.top by {
                    assert(!(before.home@[i] is Free));
                    assert(!(before.home@[j] is Free));
                }
            }
        }
    }
    Ok(release)
}

impl ContinuationIterator {
    /// Visits the next continuation of the chain: returns its slot and
    /// moves on to its parent. At the initial stack and at the end of a
    /// chain the walk is over, and stays there.
    pub fn next(&mut self, store: &Store) -> (visited: Option<usize>)
        ensures
            match old(self).0 {
                StackChain::Continuation(contref) if contref < store@.conts.len() => visited
                    == Some(contref) && final(self).0 == store@.conts[contref as int].parent_chain,
                _ => visited is None && final(self).0 == old(self).0,
            },
            visited is Some <==> store@.successor(old(self).0) is Some,
    {
        match self.0 {
            StackChain::Continuation(contref) => {
                if contref < store.conts.len() {
                    self.0 = store.conts[contref].parent_chain;
                    Some(contref)
                } else {
                    None
                }
            },
            _ => None,
        }
    }
}

impl StackLimitsIterator {
    /// Visits the next stack of the chain: returns its saved limits and
    /// moves on to its parent. After the initial stack, and at the end of a
    /// chain, the walk is over.
    pub fn next(&mut self, store: &Store) -> (visited: Option<StackLimits>)
        ensures
            match old(self).0 {
                StackChain::Continuation(contref) if contref < store@.conts.len() => visited
                    == Some(store@.conts[contref as int].info.limits) && final(self).0
                    == store@.conts[contref as int].parent_chain,
                StackChain::InitialStack => visited == Some(store@.initial.limits) && final(self).0 == StackChain::Absent,
                _ => visited is None && final(self).0 == old(self).0,
            },
    {
        match self.0 {
            StackChain::Continuation(contref) => {
                if contref < store.conts.len() {
                    self.0 = store.conts[contref].parent_chain;
                    Some(store.conts[contref].common_stack_information.limits)
                } else {
                    None
                }
            },
            StackChain::InitialStack => {
                self.0 = StackChain::Absent;
                Some(store.initial.limits)
            },
            StackChain::Absent => None,
        }
    }
}

impl Store {
    /// The slots of the continuations of the chain that begins at `node`,
    /// in the order of the chain.
    pub fn continuations(&self, node: StackChain) -> (slots: Vec<usize>)
        ensures
            slots@ == self@.continuations(node),
    {
        let mut slots: Vec<usize> = Vec::new();
        let mut iter = node.into_continuation_iter();
        let mut fuel: usize = self.conts.len();
        while fuel > 0
            invariant
                fuel <= self@.conts.len(),
                self@.continuations(node) == slots@ + self@.continuations_from(
                    iter.0,
                    fuel as nat,
                ),
            decreases fuel,
        {
            match iter.next(self) {
                Some(contref) => {
                    slots.push(contref);
                    fuel = fuel - 1;
                },
                None => {
                    assert(self@.continuations_from(iter.0, fuel as nat) == Seq::<
                        usize,
                    >::empty());
                    return slots;
                },
            }
        }
        slots
    }

    /// The limits saved for the stacks of the chain that begins at `node`,
    /// in the order of the chain.
    pub fn stack_limits(&self, node: StackChain) -> (limits: Vec<StackLimits>)
        ensures
            limits@ == self@.limits_from(node, self@.conts.len() + 1),
    {
        let mut limits: Vec<StackLimits> = Vec::new();
        let mut iter = node.into_stack_limits_iter();
        let mut fuel: usize = self.conts.len();
        while fuel > 0
            invariant
                fuel <= self@.conts.len(),
                self@.limits_from(node, self@.conts.len() + 1) == limits@ + self@.limits_from(
                    iter.0,
                    (fuel + 1) as nat,
                ),
            decreases fuel,
        {
            let at = iter.0;
            match iter.next(self) {
                Some(visited) => {
                    limits.push(visited);
                    if at.is_initial_stack() {
                        assert(self@.limits_from(iter.0, fuel as nat) == Seq::<
                            StackLimits,
                        >::empty());
                        return limits;
                    }
                    fuel = fuel - 1;
                },
                None => {
                    return limits;
                },
            }
        }
        let ghost at = iter.0;
        match iter.next(self) {
            Some(visited) => {
                assert(self@.limits_from(at, 1) == seq![visited]) by {
                    if at is Continuation {
                        assert(self@.limits_from(iter.0, 0) == Seq::<StackLimits>::empty());
                    }
                }
                limits.push(visited);
            },
            None => {},
        }
        limits
    }
}

/// Distinct slots below a bound are no more than the bound.
proof fn lemma_distinct_slots_fit(slots: Seq<usize>, bound: nat)
    requires
        slots.no_duplicates(),
        forall|k: int| 0 <= k < slots.len() ==> slots[k] < bound,
    ensures
        slots.len() <= bound,
    decreases bound,
{
    if bound == 0 {
        if slots.len() > 0 {
            assert(slots[0] < bound);
        }
    } else {
        let top = (bound - 1) as usize;
        if slots.contains(top) {
            let at = choose|at: int| 0 <= at < slots.len() && slots[at] == top;
            let rest = slots.subrange(0, at) + slots.subrange(at + 1, slots.len() as int);
            assert forall|k: int| 0 <= k < rest.len() implies rest[k] < (bound - 1) as nat by {
                if k < at {
                    assert(rest[k] == slots[k]);
                } else {
                    assert(rest[k] == slots[k + 1]);
                }
            }
            assert forall|j: int, k: int| 0 <= j < rest.len() && 0 <= k < rest.len() && j
                != k implies rest[j] != rest[k] by {
                let from_j = if j < at {
                    j
                } else {
                    j + 1
                };
                let from_k = if k < at {
                    k
                } else {
                    k + 1
                };
                assert(rest[j] == slots[from_j]);
                assert(rest[k] == slots[from_k]);
            }
            lemma_distinct_slots_fit(rest, (bound - 1) as nat);
        } else {
            assert forall|k: int| 0 <= k < slots.len() implies slots[k] < (bound - 1) as nat by {
                assert(slots[k] < bound);
                if slots[k] == top {
                    assert(slots.contains(top));
                }
            }
            lemma_distinct_slots_fit(slots, (bound - 1) as nat);
        }
    }
}

/// The node at position `from` of the chain that runs through `path` and
/// then ends with `end`.
spec fn node_at(path: Seq<usize>, from: int, end: StackChain) -> StackChain {
    if from < path.len() {
        StackChain::Continuation(path[from])
    } else {
        end
    }
}

/// A walk along linked slots visits exactly those slots and stops at the
/// node that follows the last of them.
proof fn lemma_walk(store: StoreView, path: Seq<usize>, from: int, end: StackChain, fuel: nat)
    requires
        0 <= from <= path.len(),
        forall|k: int|
            from <= k < path.len() ==> (#[trigger] path[k]) < store.conts.len()
                && store.conts[path[k] as int].parent_chain == node_at(path, k + 1, end),
        !(end is Continuation),
        fuel >= path.len() - from,
    ensures
        store.continuations_from(node_at(path, from, end), fuel) == path.subrange(
            from,
            path.len() as int,
        ),
        store.end_from(node_at(path, from, end), fuel) == end,
    decreases path.len() - from,
{
    if from < path.len() {
        assert(path[from] < store.conts.len());
        lemma_walk(store, path, from + 1, end, (fuel - 1) as nat);
        assert(seq![path[from]] + path.subrange(from + 1, path.len() as int) =~= path.subrange(
            from,
            path.len() as int,
        ));
    } else {
        assert(path.subrange(from, path.len() as int) =~= Seq::<usize>::empty());
        if fuel > 0 {
            assert(store.continuations_from(end, fuel) =~= Seq::<usize>::empty());
        }
    }
}

impl Store {
    /// Of every store: the chain of the executing stack leads through
    /// continuations that hold a stack, no slot twice, to the initial
    /// stack, and never ends before it. The first of them is `Running`, the
    /// others are `Parent`, and so is the initial stack unless it is the
    /// one that executes.
    pub proof fn lemma_running_chain(&self)
        requires
            self.wf(),
        ensures
            self@.chain !is Absent,
            self@.chain_end(self@.chain) == StackChain::InitialStack,
            self@.continuations(self@.chain).no_duplicates(),
            forall|k: int|
                0 <= k < self@.continuations(self@.chain).len() ==> self@.is_live(
                    (#[trigger] self@.continuations(self@.chain)[k]) as int,
                ) && self@.conts[self@.continuations(self@.chain)[k] as int].info.state == if k
                    == 0 {
                    State::Running
                } else {
                    State::Parent
                },
            self@.initial.state == if self@.chain is InitialStack {
                State::Running
            } else {
                State::Parent
            },
    {
        let path = self.active@;
        assert forall|j: int, k: int| 0 <= j < path.len() && 0 <= k < path.len() && j
            != k implies path[j] != path[k] by {
            assert(self.home@[path[j] as int] == Home::Active(j));
            assert(self.home@[path[k] as int] == Home::Active(k));
        }
        assert forall|k: int| 0 <= k < path.len() implies (#[trigger] path[k])
            < self@.conts.len() && self@.conts[path[k] as int].parent_chain == node_at(
            path,
            k + 1,
            StackChain::InitialStack,
        ) by {
            assert(self.slot_ok(path[k] as int));
        }
        lemma_distinct_slots_fit(path, self.conts@.len());
        lemma_walk(self@, path, 0, StackChain::InitialStack, self.conts@.len());
        assert(path.subrange(0, path.len() as int) =~= path);
        assert(self@.chain == node_at(path, 0, StackChain::InitialStack));
        assert forall|k: int| 0 <= k < path.len() implies self@.is_live(
            (#[trigger] path[k]) as int,
        ) && self@.conts[path[k] as int].info.state == if k == 0 {
            State::Running
        } else {
            State::Parent
        } by {
            assert(self.slot_ok(path[k] as int));
        }
    }

    /// Of every continuation that is `Fresh` or `Suspended`: its chain leads
    /// through continuations that hold a stack, no slot twice, to the one
    /// that it names as its last ancestor, and ends there, without reaching
    /// the initial stack. The continuations after the first are `Parent`. A
    /// `Fresh` continuation is its own last ancestor.
    pub proof fn lemma_parked_chain(&self, contref: usize)
        requires
            self.wf(),
            self@.is_live(contref as int),
            self@.conts[contref as int].info.state.is_resumable(),
        ensures
            self@.chain_end(StackChain::Continuation(contref)) == StackChain::Absent,
            self@.continuations(StackChain::Continuation(contref)).len() > 0,
            self@.continuations(StackChain::Continuation(contref))[0] == contref,
            self@.conts[contref as int].last_ancestor == Some(
                self@.continuations(StackChain::Continuation(contref)).last(),
            ),
            self@.continuations(StackChain::Continuation(contref)).no_duplicates(),
            forall|k: int|
                0 < k < self@.continuations(StackChain::Continuation(contref)).len()
                    ==> self@.is_live(
                    (#[trigger] self@.continuations(StackChain::Continuation(contref))[k]) as int,
                ) && self@.conts[self@.continuations(
                    StackChain::Continuation(contref),
                )[k] as int].info.state == State::Parent,
            self@.conts[contref as int].info.state == State::Fresh ==> self@.continuations(
                StackChain::Continuation(contref),
            ) == seq![contref],
            forall|k: int|
                0 <= k < self@.continuations(StackChain::Continuation(contref)).len()
                    ==> !self@.continuations(self@.chain).contains(
                    #[trigger] self@.continuations(StackChain::Continuation(contref))[k],
                ),
    {
        self.lemma_resumable_is_parked(contref);
        self.lemma_running_chain();
        let path = self.parked@[contref];
        assert forall|j: int, k: int| 0 <= j < path.len() && 0 <= k < path.len() && j
            != k implies path[j] != path[k] by {
            assert(self.home@[path[j] as int] == Home::Parked(contref, j));
            assert(self.home@[path[k] as int] == Home::Parked(contref, k));
        }
        assert forall|k: int| 0 <= k < path.len() implies (#[trigger] path[k])
            < self@.conts.len() && self@.conts[path[k] as int].parent_chain == node_at(
            path,
            k + 1,
            StackChain::Absent,
        ) by {
            assert(self.slot_ok(path[k] as int));
        }
        lemma_distinct_slots_fit(path, self.conts@.len());
        lemma_walk(self@, path, 0, StackChain::Absent, self.conts@.len());
        assert(path.subrange(0, path.len() as int) =~= path);
        assert forall|k: int| 0 < k < path.len() implies self@.is_live(
            (#[trigger] path[k]) as int,
        ) && self@.conts[path[k] as int].info.state == State::Parent by {
            assert(self.slot_ok(path[k] as int));
        }
        if self@.conts[contref as int].info.state == State::Fresh {
            assert(self.slot_ok(contref as int));
            assert(path =~= seq![contref]);
        }
        let running = self.active@;
        assert forall|k: int| 0 <= k < running.len() implies (#[trigger] running[k])
            < self@.conts.len() && self@.conts[running[k] as int].parent_chain == node_at(
            running,
            k + 1,
            StackChain::InitialStack,
        ) by {
            assert(self.slot_ok(running[k] as int));
        }
        assert forall|j: int, k: int| 0 <= j < running.len() && 0 <= k < running.len() && j
            != k implies running[j] != running[k] by {
            assert(self.home@[running[j] as int] == Home::Active(j));
            assert(self.home@[running[k] as int] == Home::Active(k));
        }
        lemma_distinct_slots_fit(running, self.conts@.len());
        lemma_walk(self@, running, 0, StackChain::InitialStack, self.conts@.len());
        assert(running.subrange(0, running.len() as int) =~= running);
        assert(self@.chain == node_at(running, 0, StackChain::InitialStack));
        assert forall|k: int| 0 <= k < path.len() implies !running.contains(
            #[trigger] path[k],
        ) by {
            if running.contains(path[k]) {
                let j = choose|j: int| 0 <= j < running.len() && running[j] == path[k];
                assert(self.home@[running[j] as int] == Home::Active(j));
                assert(self.home@[path[k] as int] == Home::Parked(contref, k));
            }
        }
    }
}

/// Resuming consumes the handle: once a continuation was resumed through a
/// handle, every handle to it at that revision is stale, for `take`, for
/// `resume` and for `switch`.
pub proof fn lemma_resume_consumes_handle(
    store: Store,
    used: VMContObj,
    copy: VMContObj,
    handlers: Seq<TagId>,
    first_switch_handler_index: u32,
    tag: TagId,
)
    requires
        store.wf(),
        store@.resume_result(used) is Ok,
        copy.contref == used.contref,
        copy.revision == used.revision,
    ensures
        store@.after_resume(used, handlers, first_switch_handler_index).take_result(copy) == Err::<
            usize,
            StackSwitchError,
        >(StackSwitchError::ContinuationAlreadyConsumed),
        store@.after_resume(used, handlers, first_switch_handler_index).resume_result(copy)
            == Err::<Switch, StackSwitchError>(StackSwitchError::ContinuationAlreadyConsumed),
        store@.after_resume(used, handlers, first_switch_handler_index).switch_result(copy, tag)
            == Err::<(SwitchOver, VMContObj), StackSwitchError>(
            StackSwitchError::ContinuationAlreadyConsumed,
        ),
{
    store.lemma_resumable_is_parked(used.contref);
}

impl Store {
    /// A handler that is found above a continuation of the running chain
    /// belongs to a stack of that chain: the stack that handles is the
    /// parent of the last stack below it, is `Parent`, and holds the tag at
    /// the position found.
    proof fn lemma_site_is_on_chain(
        &self,
        child: usize,
        position: int,
        tag: TagId,
        switching: bool,
        fuel: nat,
    ) -> (depth: int)
        requires
            self.wf(),
            0 <= position < self.active@.len(),
            self.active@[position] == child,
            self@.handler_site(child, tag, switching, fuel) is Some,
        ensures
            position <= depth < self.active@.len(),
            self.active@[depth] == self@.handler_site(child, tag, switching, fuel).unwrap().last,
            self.active_parent(depth) == self@.handler_site(
                child,
                tag,
                switching,
                fuel,
            ).unwrap().stack,
            self@.handler_in(
                self.active_parent(depth),
                tag,
                switching,
            ) == Some(self@.handler_site(child, tag, switching, fuel).unwrap().index as int),
            self@.info_at(self.active_parent(depth)).state == State::Parent,
        decreases fuel,
    {
        assert(child < self.conts@.len());
        assert(self.slot_ok(child as int));
        assert(self.home@[child as int] == Home::Active(position));
        let parent = self.active_parent(position);
        if position + 1 < self.active@.len() {
            let next = self.active@[position + 1];
            assert(next < self.conts@.len());
            assert(self.slot_ok(next as int));
            assert(self.home@[next as int] == Home::Active(position + 1));
        }
        let info = self@.info_at(parent);
        crate::common::lemma_first_match(
            info.handlers,
            tag,
            0,
            info.first_switch_handler_index as int,
        );
        crate::common::lemma_first_match(
            info.handlers,
            tag,
            info.first_switch_handler_index as int,
            info.handlers.len() as int,
        );
        match self@.handler_in(parent, tag, switching) {
            Some(index) => position,
            None => {
                let next = self.active@[position + 1];
                self.lemma_site_is_on_chain(next, position + 1, tag, switching, (fuel - 1) as nat)
            },
        }
    }
}

/// A suspension reaches the nearest handler once and can be resumed from:
/// the switch carries `Suspend` with the position at which the handling
/// stack, which was `Parent`, holds the tag among its suspend handlers;
/// afterwards that stack executes and is `Running`, the continuation is
/// `Suspended`, and the handle that was returned resumes it, through the
/// control context through which it suspended, after which it is `Running`
/// and the head of the chain again.
#[verifier::spinoff_prover]
#[verifier::rlimit(60)]
pub proof fn lemma_suspend_then_resume(
    store: Store,
    tag: TagId,
    handlers: Seq<TagId>,
    first_switch_handler_index: u32,
)
    requires
        store.wf(),
        store@.suspend_result(tag) is Ok,
        store@.running_handle().revision < u64::MAX,
    ensures
        ({
            let switch = store@.suspend_result(tag).unwrap().0;
            let handle = store@.suspend_result(tag).unwrap().1;
            let site = store@.nearest_handler(tag, false).unwrap();
            let suspended = store@.after_suspend(tag);
            let resumed = suspended.after_resume(handle, handlers, first_switch_handler_index);
            &&& store@.chain == StackChain::Continuation(handle.contref)
            &&& ControlEffect::decoding(switch.payload) == Some(
                ControlEffect::Suspend { handler_index: site.index },
            )
            &&& site.index < store@.info_at(site.stack).first_switch_handler_index
            &&& site.index < store@.info_at(site.stack).handlers.len()
            &&& store@.info_at(site.stack).handlers[site.index as int] == tag
            &&& store@.info_at(site.stack).state == State::Parent
            &&& suspended.chain == site.stack
            &&& suspended.info_at(site.stack).state == State::Running
            &&& suspended.conts[handle.contref as int].info.state == State::Suspended
            &&& suspended.conts[handle.contref as int].last_ancestor == Some(site.last)
            &&& suspended.resume_result(handle) is Ok
            &&& suspended.resume_result(handle).unwrap().top_of_stack == switch.top_of_stack
            &&& resumed.chain == StackChain::Continuation(handle.contref)
            &&& resumed.conts[handle.contref as int].info.state == State::Running
            &&& resumed.conts[site.last as int].parent_chain == site.stack
        }),
{
    let head = store@.running_handle().contref;
    assert(store.active@.len() > 0);
    assert(store.active@[0] == head);
    assert(head < store.conts@.len());
    assert(store.slot_ok(head as int));
    let depth = store.lemma_site_is_on_chain(head, 0, tag, false, store@.conts.len());
    let site = store@.nearest_handler(tag, false).unwrap();
    assert(store.slot_ok(site.last as int));
    assert(store.home@[site.last as int] == Home::Active(depth));
    crate::control_effect::lemma_decoding_inverts_encoding(
        ControlEffect::Suspend { handler_index: site.index },
    );
    let info = store@.info_at(site.stack);
    crate::common::lemma_first_match(
        info.handlers,
        tag,
        0,
        info.first_switch_handler_index as int,
    );
    if depth + 1 < store.active@.len() {
        let above = store.active@[depth + 1];
        assert(above < store.conts@.len());
        assert(store.home@[above as int] == Home::Active(depth + 1));
        assert(store.slot_ok(above as int));
    }
}

/// No step takes a stack out of the life cycle: whatever the step and its
/// arguments, every continuation that is there before and after it, and the
/// initial stack, is afterwards in a state that its state before may
/// become.
#[verifier::spinoff_prover]
#[verifier::rlimit(60)]
pub proof fn lemma_steps_follow_life_cycle(
    store: Store,
    handle: VMContObj,
    handlers: Seq<TagId>,
    first_switch_handler_index: u32,
    tag: TagId,
    stack: crate::fiber_stack::FiberStack,
    param_count: u32,
    result_count: u32,
    contref: usize,
)
    requires
        store.wf(),
    ensures
        moves_along_life_cycle(store@, store@.after_take(handle)),
        moves_along_life_cycle(
            store@,
            store@.after_resume(handle, handlers, first_switch_handler_index),
        ),
        moves_along_life_cycle(store@, store@.after_suspend(tag)),
        moves_along_life_cycle(store@, store@.after_switch(handle, tag)),
        moves_along_life_cycle(store@, store@.after_return()),
        moves_along_life_cycle(store@, store@.after_drop(contref)),
        moves_along_life_cycle(store@, store@.after_cont_new(stack, param_count, result_count)),
{
    let view = store@;
    assert forall|i: int| 0 <= i < view.conts.len() implies #[trigger] store.slot_ok(i) by {}
    if store.active@.len() > 0 {
        assert(store.active@[0] < store.conts@.len());
        assert(store.home@[store.active@[0] as int] == Home::Active(0));
        assert(store.slot_ok(store.active@[0] as int));
    }
    // Taking.
    assert(moves_along_life_cycle(view, view.after_take(handle)));
    // Creating.
    assert(moves_along_life_cycle(view, view.after_cont_new(stack, param_count, result_count)))
        by {
        let after = view.after_cont_new(stack, param_count, result_count);
        let slot = view.next_slot();
        assert forall|i: int| view.is_live(i) && after.is_live(i) implies may_become(
            (#[trigger] view.conts[i]).info.state,
            after.conts[i].info.state,
        ) by {
            if view.free.len() > 0 {
                assert(view.free[view.free.len() - 1] == slot);
                assert(store.home@[slot as int] is Free);
                assert(store.slot_ok(slot as int));
            }
        }
    }
    // Dropping.
    assert(moves_along_life_cycle(view, view.after_drop(contref)));
    // Resuming.
    assert(moves_along_life_cycle(
        view,
        view.after_resume(handle, handlers, first_switch_handler_index),
    )) by {
        if view.resume_result(handle) is Ok {
            store.lemma_resumable_is_parked(handle.contref);
            assert(store.slot_ok(handle.contref as int));
        }
    }
    // Returning.
    assert(moves_along_life_cycle(view, view.after_return())) by {
        if store.active@.len() > 1 {
            assert(store.active@[1] < store.conts@.len());
            assert(store.home@[store.active@[1] as int] == Home::Active(1));
            assert(store.slot_ok(store.active@[1] as int));
        }
    }
    // Suspending.
    assert(moves_along_life_cycle(view, view.after_suspend(tag))) by {
        if view.nearest_handler(tag, false) is Some {
            let head = store.active@[0];
            let depth = store.lemma_site_is_on_chain(head, 0, tag, false, view.conts.len());
            let site = view.nearest_handler(tag, false).unwrap();
            assert(store.slot_ok(site.last as int));
            if depth + 1 < store.active@.len() {
                let above = store.active@[depth + 1];
                assert(above < store.conts@.len());
                assert(store.home@[above as int] == Home::Active(depth + 1));
                assert(store.slot_ok(above as int));
            }
        }
    }
    // Switching.
    assert(moves_along_life_cycle(view, view.after_switch(handle, tag))) by {
        if view.switch_result(handle, tag) is Ok {
            store.lemma_resumable_is_parked(handle.contref);
            assert(store.slot_ok(handle.contref as int));
            let head = store.active@[0];
            let depth = store.lemma_site_is_on_chain(head, 0, tag, true, view.conts.len());
            let site = view.nearest_handler(tag, true).unwrap();
            assert(store.slot_ok(site.last as int));
            assert(store.home@[site.last as int] == Home::Active(depth));
            let last = view.conts[handle.contref as int].last_ancestor.unwrap();
            assert(store.slot_ok(last as int));
        }
    }
}

/// A continuation that switches away can be resumed from where it was
/// parked: after a switch the target is `Running` and the head of the chain,
/// the continuation that switched is `Suspended`, the handling stack is
/// still `Parent` and is the parent of the chain that was entered, and the
/// handle that was returned resumes the continuation through the control
/// context that the switch named as its source. The two control contexts of
/// the switch belong to different slots.
#[verifier::spinoff_prover]
#[verifier::rlimit(60)]
pub proof fn lemma_switch_then_resume(store: Store, target: VMContObj, tag: TagId)
    requires
        store.wf(),
        store@.switch_result(target, tag) is Ok,
        store@.running_handle().revision < u64::MAX,
    ensures
        ({
            let over = store@.switch_result(target, tag).unwrap().0;
            let handle = store@.switch_result(target, tag).unwrap().1;
            let site = store@.nearest_handler(tag, true).unwrap();
            let entered_last = store@.conts[target.contref as int].last_ancestor.unwrap();
            let switched = store@.after_switch(target, tag);
            &&& store@.chain == StackChain::Continuation(handle.contref)
            &&& handle.contref != target.contref
            &&& site.last != entered_last
            &&& over.source_top_of_stack == store@.conts[site.last as int].stack.top
            &&& over.target_top_of_stack == store@.conts[entered_last as int].stack.top
            &&& ControlEffect::decoding(over.payload) == Some(ControlEffect::Switch)
            &&& store@.info_at(site.stack).state == State::Parent
            &&& switched.info_at(site.stack).state == State::Parent
            &&& switched.info_at(site.stack).handlers == store@.info_at(site.stack).handlers
            &&& switched.chain == StackChain::Continuation(target.contref)
            &&& switched.conts[target.contref as int].info.state == State::Running
            &&& switched.conts[entered_last as int].parent_chain == site.stack
            &&& switched.conts[handle.contref as int].info.state == State::Suspended
            &&& switched.conts[handle.contref as int].last_ancestor == Some(site.last)
            &&& switched.conts[site.last as int].parent_chain == StackChain::Absent
            &&& switched.resume_result(handle) is Ok
            &&& switched.resume_result(handle).unwrap().top_of_stack == over.source_top_of_stack
        }),
{
    let head = store@.running_handle().contref;
    assert(store.active@.len() > 0);
    assert(store.active@[0] == head);
    assert(head < store.conts@.len());
    assert(store.slot_ok(head as int));
    assert(store.home@[head as int] == Home::Active(0));
    store.lemma_resumable_is_parked(target.contref);
    assert(store.slot_ok(target.contref as int));
    let depth = store.lemma_site_is_on_chain(head, 0, tag, true, store@.conts.len());
    let site = store@.nearest_handler(tag, true).unwrap();
    assert(store.slot_ok(site.last as int));
    assert(store.home@[site.last as int] == Home::Active(depth));
    let entered = store.parked@[target.contref];
    let entered_last = entered.last();
    assert(entered[entered.len() - 1] < store.conts@.len());
    assert(store.home@[entered_last as int] == Home::Parked(
        target.contref,
        entered.len() - 1,
    ));
    assert(store.slot_ok(entered_last as int));
    crate::control_effect::lemma_decoding_inverts_encoding(ControlEffect::Switch);
    if depth + 1 < store.active@.len() {
        let above = store.active@[depth + 1];
        assert(above < store.conts@.len());
        assert(store.home@[above as int] == Home::Active(depth + 1));
        assert(store.slot_ok(above as int));
    }
}

impl Store {
    /// Of every store: the free slots are slots of the store, each is named
    /// once, and none of them holds a continuation. So the slot that the
    /// next continuation gets is a vacant slot of the store, or the slot
    /// after the last one.
    pub proof fn lemma_free_slots_are_vacant(&self)
        requires
            self.wf(),
        ensures
            self@.free.no_duplicates(),
            forall|j: int|
                0 <= j < self@.free.len() ==> (#[trigger] self@.free[j]) < self@.conts.len()
                    && !self@.is_live(self@.free[j] as int),
            self@.next_slot() <= self@.conts.len(),
            !self@.is_live(self@.next_slot() as int),
    {
        assert forall|j: int| 0 <= j < self@.free.len() implies (#[trigger] self@.free[j])
            < self@.conts.len() && !self@.is_live(self@.free[j] as int) by {
            assert(self.free@[j] < self.conts@.len());
            assert(self.slot_ok(self.free@[j] as int));
        }
        if self@.free.len() > 0 {
            assert(self@.free[self@.free.len() - 1] == self@.next_slot());
        } else {
            assert(self.conts.len() == self.conts@.len());
        }
    }
}

/// A continuation that is resumed and returns without suspending ends as
/// `Returned`: after the resume it is `Running` and the head of the chain,
/// and the stack that resumed it is `Parent`; after its return it is
/// `Returned` and without parent, and no handle resumes it any more. If it
/// was `Fresh`, the stack that resumed it then executes again, is `Running`,
/// and has its limits back.
#[verifier::spinoff_prover]
#[verifier::rlimit(60)]
pub proof fn lemma_runs_to_completion(
    store: Store,
    handle: VMContObj,
    handlers: Seq<TagId>,
    first_switch_handler_index: u32,
    later: VMContObj,
)
    requires
        store.wf(),
        store@.resume_result(handle) is Ok,
        later.contref == handle.contref,
    ensures
        ({
            let resumed = store@.after_resume(handle, handlers, first_switch_handler_index);
            let returned = resumed.after_return();
            &&& resumed.chain == StackChain::Continuation(handle.contref)
            &&& resumed.conts[handle.contref as int].info.state == State::Running
            &&& resumed.info_at(store@.chain).state == State::Parent
            &&& resumed.return_result() is Ok
            &&& returned.conts[handle.contref as int].info.state == State::Returned
            &&& returned.conts[handle.contref as int].parent_chain == StackChain::Absent
            &&& returned.resume_result(later) is Err
            &&& store@.conts[handle.contref as int].info.state == State::Fresh ==> {
                &&& returned.chain == store@.chain
                &&& returned.info_at(store@.chain).state == State::Running
                &&& returned.limits == store@.limits
            }
        }),
{
    let contref = handle.contref;
    store.lemma_resumable_is_parked(contref);
    let chain = store.parked@[contref];
    let last = chain.last();
    assert(store.slot_ok(contref as int));
    assert(store.slot_ok(last as int));
    assert(store.home@[last as int] == Home::Parked(contref, chain.len() - 1));
    if store.active@.len() > 0 {
        assert(store.active@[0] < store.conts@.len());
        assert(store.home@[store.active@[0] as int] == Home::Active(0));
    }
    if chain.len() > 1 {
        assert(chain[1] < store.conts@.len());
        assert(store.home@[chain[1] as int] == Home::Parked(contref, 1));
        assert(store.slot_ok(chain[1] as int));
    }
}

/// A handle to the continuation in slot `contref` at its present revision,
/// if the slot holds a continuation.
pub fn new_cont_ref(store: &Store, contref: usize) -> (handle: Option<VMContObj>)
    ensures
        handle == if store@.is_live(contref as int) {
            Some(VMContObj { contref, revision: store@.conts[contref as int].revision })
        } else {
            None
        },
{
    if contref < store.conts.len() && !store.conts[contref].stack.is_unallocated() {
        Some(VMContObj::new(contref, store.conts[contref].revision))
    } else {
        None
    }
}

/// The slot of the continuation that `handle` refers to, if the handle is
/// good. The handle is not consumed.
pub fn cont_ref_get_cont_obj(store: &Store, handle: VMContObj) -> (contref: Result<
    usize,
    StackSwitchError,
>)
    ensures
        contref == store@.take_result(handle),
{
    let contref: usize = handle.contref;
    if contref >= store.conts.len() || store.conts[contref].stack.is_unallocated()
        || store.conts[contref].revision != handle.revision || handle.revision == u64::MAX {
        Err(StackSwitchError::ContinuationAlreadyConsumed)
    } else {
        Ok(contref)
    }
}

/// The values handed to or from the continuation in slot `contref`.
pub fn cont_obj_get_payloads(store: &Store, contref: usize) -> (payloads: &Payloads)
    requires
        store.wf(),
        contref < store@.conts.len(),
        store@.conts[contref as int].values_capacity > 0,
    ensures
        payloads.wf(),
        payloads@ == store@.conts[contref as int].values,
        payloads.capacity == store@.conts[contref as int].values_capacity,
{
    proof {
        assert(store.slot_ok(contref as int));
    }
    &store.conts[contref].values
}

/// The arguments of the continuation in slot `contref`, or, once it has
/// returned, its results.
pub fn cont_obj_get_results(store: &Store, contref: usize) -> (results: &Payloads)
    requires
        store.wf(),
        contref < store@.conts.len(),
        store@.conts[contref as int].args_capacity > 0,
    ensures
        results.wf(),
        results@ == store@.conts[contref as int].args,
        results.capacity == store@.conts[contref as int].args_capacity,
{
    proof {
        assert(store.slot_ok(contref as int));
    }
    &store.conts[contref].args
}

/// The index of the next free slot among the values of the continuation in
/// slot `contref`.
pub fn cont_obj_get_next_free_payload_slot(store: &Store, contref: usize) -> (index: u32)
    requires
        store.wf(),
        contref < store@.conts.len(),
    ensures
        index == store@.conts[contref as int].values.len(),
{
    proof {
        assert(store.slot_ok(contref as int));
    }
    store.conts[contref].values.next_free_slot()
}

/// Vacates the values of the continuation in slot `contref`. Their
/// capacity stays.
pub fn cont_obj_reset_payloads(store: &mut Store, contref: usize)
    requires
        old(store).wf(),
        contref < old(store)@.conts.len(),
    ensures
        final(store).wf(),
        final(store)@ == old(store)@.with_values(
            contref,
            Seq::empty(),
            old(store)@.conts[contref as int].values_capacity,
        ),
{
    let ghost before = *old(store);
    store.conts[contref].values.reset();
    proof {
        store.lemma_payloads_changed(before, contref);
    }
}

/// Makes room for `capacity` more values of the continuation in slot
/// `contref`. The values stay as they are.
pub fn cont_obj_ensure_payloads_additional_capacity(
    store: &mut Store,
    contref: usize,
    capacity: u32,
)
    requires
        old(store).wf(),
        contref < old(store)@.conts.len(),
        old(store)@.conts[contref as int].values.len() + capacity != 0,
        old(store)@.conts[contref as int].values.len() + capacity <= u32::MAX,
    ensures
        final(store).wf(),
        final(store)@ == old(store)@.with_values(
            contref,
            old(store)@.conts[contref as int].values,
            larger(
                old(store)@.conts[contref as int].values_capacity,
                (old(store)@.conts[contref as int].values.len() + capacity) as u32,
            ),
        ),
{
    let ghost before = *old(store);
    proof {
        assert(before.slot_ok(contref as int));
    }
    let length: u32 = store.conts[contref].values.length;
    store.conts[contref].values.ensure_capacity(length + capacity);
    proof {
        store.lemma_payloads_changed(before, contref);
    }
}

/// Adds `value` to the values of the continuation in slot `contref`.
/// Returns whether there was room; if not, nothing changes.
pub fn cont_obj_push_payload(store: &mut Store, contref: usize, value: u128) -> (stored: bool)
    requires
        old(store).wf(),
        contref < old(store)@.conts.len(),
    ensures
        final(store).wf(),
        stored == (old(store)@.conts[contref as int].values.len() < old(store)@.conts[contref as int].values_capacity),
        final(store)@ == if stored {
            old(store)@.with_values(
                contref,
                old(store)@.conts[contref as int].values.push(value),
                old(store)@.conts[contref as int].values_capacity,
            )
        } else {
            old(store)@
        },
{
    let ghost before = *old(store);
    proof {
        assert(before.slot_ok(contref as int));
    }
    let stored = store.conts[contref].values.push(value);
    proof {
        store.lemma_payloads_changed(before, contref);
        if !stored {
            assert(store@.conts =~= before@.conts);
        }
    }
    stored
}

/// Vacates the arguments, or results, of the continuation in slot
/// `contref`. Their capacity stays.
pub fn cont_obj_reset_results(store: &mut Store, contref: usize)
    requires
        old(store).wf(),
        contref < old(store)@.conts.len(),
    ensures
        final(store).wf(),
        final(store)@ == old(store)@.with_args(contref, Seq::empty()),
{
    let ghost before = *old(store);
    store.conts[contref].args.reset();
    proof {
        store.lemma_args_changed(before, contref);
    }
}

/// Adds `value` to the arguments of the continuation in slot `contref`, or,
/// when its entry function returns, to its results. Returns whether there
/// was room; if not, nothing changes.
pub fn cont_obj_push_result(store: &mut Store, contref: usize, value: u128) -> (stored: bool)
    requires
        old(store).wf(),
        contref < old(store)@.conts.len(),
    ensures
        final(store).wf(),
        stored == (old(store)@.conts[contref as int].args.len() < old(store)@.conts[contref as int].args_capacity),
        final(store)@ == if stored {
            old(store)@.with_args(contref, old(store)@.conts[contref as int].args.push(value))
        } else {
            old(store)@
        },
{
    let ghost before = *old(store);
    proof {
        assert(before.slot_ok(contref as int));
    }
    let stored = store.conts[contref].args.push(value);
    proof {
        store.lemma_args_changed(before, contref);
        if !stored {
            assert(store@.conts =~= before@.conts);
        }
    }
    stored
}

impl Store {
    /// A store in which only the arguments of one continuation have
    /// changed, and are well formed, is well formed.
    proof fn lemma_args_changed(&self, before: Store, contref: usize)
        requires
            before.wf(),
            contref < before.conts@.len(),
            self.conts@.len() == before.conts@.len(),
            forall|i: int|
                0 <= i < before.conts@.len() && i != contref ==> self.conts@[i]
                    == before.conts@[i],
            self.conts@[contref as int].args.wf(),
            self.conts@[contref as int].args.capacity
                == before.conts@[contref as int].args.capacity,
            self.conts@[contref as int].common_stack_information
                == before.conts@[contref as int].common_stack_information,
            self.conts@[contref as int].parent_chain == before.conts@[contref as int].parent_chain,
            self.conts@[contref as int].last_ancestor
                == before.conts@[contref as int].last_ancestor,
            self.conts@[contref as int].stack == before.conts@[contref as int].stack,
            self.conts@[contref as int].values == before.conts@[contref as int].values,
            self.conts@[contref as int].revision == before.conts@[contref as int].revision,
            self.free == before.free,
            self.stack_chain == before.stack_chain,
            self.initial == before.initial,
            self.runtime_limits == before.runtime_limits,
            self.allocator == before.allocator,
            self.max_wasm_stack == before.max_wasm_stack,
            self.active == before.active,
            self.parked == before.parked,
            self.home == before.home,
        ensures
            self.wf(),
            self@ == before@.with_args(contref, self.conts@[contref as int].args@),
    {
        assert(self@.conts =~= before@.with_args(
            contref,
            self.conts@[contref as int].args@,
        ).conts);
        assert forall|i: int| 0 <= i < self.conts@.len() implies #[trigger] self.slot_ok(i) by {
            assert(before.slot_ok(i));
        }
    }
}

impl Store {
    /// A store in which only the values of one continuation have changed,
    /// and are well formed, is well formed.
    proof fn lemma_payloads_changed(&self, before: Store, contref: usize)
        requires
            before.wf(),
            contref < before.conts@.len(),
            self.conts@.len() == before.conts@.len(),
            forall|i: int|
                0 <= i < before.conts@.len() && i != contref ==> self.conts@[i]
                    == before.conts@[i],
            self.conts@[contref as int].values.wf(),
            self.conts@[contref as int].common_stack_information
                == before.conts@[contref as int].common_stack_information,
            self.conts@[contref as int].parent_chain == before.conts@[contref as int].parent_chain,
            self.conts@[contref as int].last_ancestor
                == before.conts@[contref as int].last_ancestor,
            self.conts@[contref as int].stack == before.conts@[contref as int].stack,
            self.conts@[contref as int].args == before.conts@[contref as int].args,
            self.conts@[contref as int].revision == before.conts@[contref as int].revision,
            self.free == before.free,
            self.stack_chain == before.stack_chain,
            self.initial == before.initial,
            self.runtime_limits == before.runtime_limits,
            self.allocator == before.allocator,
            self.max_wasm_stack == before.max_wasm_stack,
            self.active == before.active,
            self.parked == before.parked,
            self.home == before.home,
        ensures
            self.wf(),
            self@ == before@.with_values(
                contref,
                self.conts@[contref as int].values@,
                self.conts@[contref as int].values.capacity,
            ),
    {
        assert(self@.conts =~= before@.with_values(
            contref,
            self.conts@[contref as int].values@,
            self.conts@[contref as int].values.capacity,
        ).conts);
        assert forall|i: int| 0 <= i < self.conts@.len() implies #[trigger] self.slot_ok(i) by {
            assert(before.slot_ok(i));
        }
    }
}

} // verus!
