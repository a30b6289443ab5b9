//! The store as plain values, and what each step makes of it.
//!
//! The functions here are the specification of the steps in
//! [`crate::store`]: for every step, what it returns and what the store is
//! afterwards.

use crate::common::{StackInfoView, StackLimits, State, TagId};
use crate::continuation::{ContinuationView, StackChain, VMContObj};
use crate::control_effect::ControlEffect;
use crate::error::StackSwitchError;
use crate::fiber_stack::{FiberStack, Release, Switch, SwitchOver};
use crate::layout::{Launchpad, LAUNCHPAD_SIZE};
use crate::wasmfx_allocator::AllocatorView;
use vstd::prelude::*;

verus! {

/// Where a handler was found: the stack that handles, and the last stack
/// below it.
pub struct HandlerSite {
    /// The slot of the continuation whose parent handles: the last stack of
    /// the chain that is parked.
    pub last: usize,
    /// The stack that handles.
    pub stack: StackChain,
    /// The position of the handler in the handler list of that stack.
    pub index: u32,
}

/// A store as plain values.
pub struct StoreView {
    /// The slots.
    pub conts: Seq<ContinuationView>,
    /// The slots that hold no continuation; the last one is used next.
    pub free: Seq<usize>,
    /// The stack that is executing, followed by its ancestors.
    pub chain: StackChain,
    /// What is recorded of the initial stack.
    pub initial: StackInfoView,
    /// The limits of the stack that is executing.
    pub limits: StackLimits,
    /// Where stacks come from.
    pub allocator: AllocatorView,
    /// The bytes of stack that guest code may use.
    pub max_wasm_stack: usize,
}

/// The greater of two numbers of slots.
pub open spec fn larger(a: u32, b: u32) -> u32 {
    if a > b {
        a
    } else {
        b
    }
}

impl StoreView {
    /// Whether slot `contref` exists and holds a continuation.
    pub open spec fn is_live(&self, contref: int) -> bool {
        0 <= contref < self.conts.len() && self.conts[contref].is_live()
    }

    /// The slot that the next continuation gets: the free slot that was
    /// vacated last, or a new one.
    pub open spec fn next_slot(&self) -> usize {
        if self.free.len() > 0 {
            self.free.last()
        } else {
            self.conts.len() as usize
        }
    }

    /// The revision that the next continuation starts with: the one that
    /// its slot has reached.
    pub open spec fn next_revision(&self) -> u64 {
        if self.free.len() > 0 {
            self.conts[self.free.last() as int].revision
        } else {
            0
        }
    }

    /// The lowest address that the stack pointer may reach on `stack`: the
    /// higher of two addresses, the one that leaves guest code its budget
    /// below the first frame, and the one that leaves the stack the size
    /// that was configured, counted from its top.
    pub open spec fn stack_limit(&self, stack: FiberStack) -> usize {
        let by_budget = stack.top - LAUNCHPAD_SIZE - self.max_wasm_stack;
        let by_size = stack.top - self.allocator.stack_size();
        if by_budget > by_size {
            by_budget as usize
        } else {
            by_size as usize
        }
    }

    /// The control block of a continuation that was just created on `stack`
    /// in slot `slot`.
    pub open spec fn created(
        &self,
        slot: usize,
        stack: FiberStack,
        param_count: u32,
        result_count: u32,
    ) -> ContinuationView {
        ContinuationView {
            info: StackInfoView {
                limits: StackLimits {
                    stack_limit: self.stack_limit(stack),
                    last_wasm_entry_fp: 0,
                },
                state: State::Fresh,
                handlers: Seq::empty(),
                first_switch_handler_index: 0,
            },
            parent_chain: StackChain::Absent,
            last_ancestor: Some(slot),
            stack,
            args: Seq::empty(),
            args_capacity: larger(param_count, result_count),
            values: Seq::empty(),
            values_capacity: 0,
            revision: self.next_revision(),
        }
    }

    /// The frame that starts a continuation created on `stack` in slot
    /// `slot`.
    pub open spec fn launchpad(
        slot: usize,
        stack: FiberStack,
        func: usize,
        caller_vmctx: usize,
        param_count: u32,
        result_count: u32,
    ) -> Launchpad {
        Launchpad {
            top_of_stack: stack.top,
            stack_pointer: (stack.top - LAUNCHPAD_SIZE) as usize,
            frame_pointer: (stack.top - 16) as usize,
            func_ref: func,
            caller_vmctx,
            args_ptr: slot,
            args_capacity: larger(param_count, result_count) as usize,
        }
    }

    /// The store after a continuation was created on `stack`.
    pub open spec fn after_cont_new(
        &self,
        stack: FiberStack,
        param_count: u32,
        result_count: u32,
    ) -> StoreView {
        let slot = self.next_slot();
        let created = self.created(slot, stack, param_count, result_count);
        StoreView {
            conts: if self.free.len() > 0 {
                self.conts.update(slot as int, created)
            } else {
                self.conts.push(created)
            },
            free: if self.free.len() > 0 {
                self.free.drop_last()
            } else {
                self.free
            },
            allocator: self.allocator.after_allocate(),
            ..*self
        }
    }

    /// What `take` returns for `handle`: the slot of the continuation, if
    /// the handle refers to a continuation at its present revision, and the
    /// revision can still advance.
    pub open spec fn take_result(&self, handle: VMContObj) -> Result<usize, StackSwitchError> {
        if self.is_live(handle.contref as int) && self.conts[handle.contref as int].revision
            == handle.revision && handle.revision < u64::MAX {
            Ok(handle.contref)
        } else {
            Err(StackSwitchError::ContinuationAlreadyConsumed)
        }
    }

    /// The store after `take` was called with `handle`: on success the
    /// revision of the continuation has advanced by one.
    pub open spec fn after_take(&self, handle: VMContObj) -> StoreView {
        if self.take_result(handle) is Ok {
            let taken = self.conts[handle.contref as int];
            StoreView {
                conts: self.conts.update(
                    handle.contref as int,
                    ContinuationView { revision: (taken.revision + 1) as u64, ..taken },
                ),
                ..*self
            }
        } else {
            *self
        }
    }

    /// The store in which the continuation in slot `contref` holds the given
    /// values in a buffer of the given capacity.
    pub open spec fn with_values(&self, contref: usize, values: Seq<u128>, capacity: u32) -> StoreView {
        StoreView {
            conts: self.conts.update(
                contref as int,
                ContinuationView {
                    values,
                    values_capacity: capacity,
                    ..self.conts[contref as int]
                },
            ),
            ..*self
        }
    }

    /// The store in which the continuation in slot `contref` holds the given
    /// arguments.
    pub open spec fn with_args(&self, contref: usize, args: Seq<u128>) -> StoreView {
        StoreView {
            conts: self.conts.update(
                contref as int,
                ContinuationView { args, ..self.conts[contref as int] },
            ),
            ..*self
        }
    }

    /// What is recorded of the stack at `node`.
    pub open spec fn info_at(&self, node: StackChain) -> StackInfoView {
        match node {
            StackChain::Continuation(contref) => self.conts[contref as int].info,
            _ => self.initial,
        }
    }

    /// The store in which `info` is recorded of the stack at `node`.
    pub open spec fn with_info(&self, node: StackChain, info: StackInfoView) -> StoreView {
        match node {
            StackChain::Continuation(contref) => StoreView {
                conts: self.conts.update(
                    contref as int,
                    ContinuationView { info, ..self.conts[contref as int] },
                ),
                ..*self
            },
            StackChain::InitialStack => StoreView { initial: info, ..*self },
            StackChain::Absent => *self,
        }
    }

    /// The store in which the continuation in slot `contref` has `parent` as
    /// its parent.
    pub open spec fn with_parent(&self, contref: usize, parent: StackChain) -> StoreView {
        StoreView {
            conts: self.conts.update(
                contref as int,
                ContinuationView { parent_chain: parent, ..self.conts[contref as int] },
            ),
            ..*self
        }
    }

    /// The top of the stack below which the context of the parked
    /// continuation in slot `contref` lies: the stack of its last ancestor,
    /// through which it was left when it suspended, and which is its own
    /// while it is `Fresh`.
    pub open spec fn parked_top(&self, contref: usize) -> usize {
        self.conts[self.conts[contref as int].last_ancestor.unwrap() as int].stack.top
    }

    /// What `resume` returns for `handle`: the switch through the control
    /// context in which the continuation is parked, if the handle is good
    /// and the continuation is `Fresh` or `Suspended`.
    pub open spec fn resume_result(&self, handle: VMContObj) -> Result<Switch, StackSwitchError> {
        match self.take_result(handle) {
            Err(error) => Err(error),
            Ok(contref) => if self.conts[contref as int].info.state.is_resumable() {
                Ok(
                    Switch {
                        top_of_stack: self.parked_top(contref),
                        payload: ControlEffect::Resume.encoding(),
                    },
                )
            } else {
                Err(StackSwitchError::ContinuationNotResumable)
            },
        }
    }

    /// The store in which the parked continuation in slot `contref` runs on
    /// top of the chain `onto`: the last stack of its chain has `onto` as
    /// parent, the continuation is `Running` and consumed once more, and
    /// its limits are the limits in force.
    pub open spec fn entered(&self, contref: usize, onto: StackChain) -> StoreView {
        let last = self.conts[contref as int].last_ancestor.unwrap();
        let linked = self.with_parent(last, onto);
        let target = linked.conts[contref as int];
        StoreView {
            conts: linked.conts.update(
                contref as int,
                ContinuationView {
                    info: StackInfoView { state: State::Running, ..target.info },
                    last_ancestor: None,
                    revision: (target.revision + 1) as u64,
                    ..target
                },
            ),
            chain: StackChain::Continuation(contref),
            limits: target.info.limits,
            ..linked
        }
    }

    /// The store after `resume` was called: the executing stack has become
    /// a parent with the given handlers and has saved its limits, and the
    /// continuation runs on top of it.
    pub open spec fn after_resume(
        &self,
        handle: VMContObj,
        handlers: Seq<TagId>,
        first_switch_handler_index: u32,
    ) -> StoreView {
        if self.resume_result(handle) is Ok {
            self.with_info(
                self.chain,
                self.info_at(self.chain).as_parent(
                    handlers,
                    first_switch_handler_index,
                    self.limits,
                ),
            ).entered(handle.contref, self.chain)
        } else {
            *self
        }
    }

    /// What `cont_return` returns: the switch that leaves the stack of the
    /// running continuation with the effect `Return`.
    pub open spec fn return_result(&self) -> Result<Switch, StackSwitchError> {
        match self.chain {
            StackChain::Continuation(contref) => Ok(
                Switch {
                    top_of_stack: self.conts[contref as int].stack.top,
                    payload: ControlEffect::Return.encoding(),
                },
            ),
            _ => Err(StackSwitchError::NoRunningContinuation),
        }
    }

    /// The store in which the stack at `node` executes again: it is
    /// `Running`, its handlers are gone, and its saved limits are the limits
    /// in force.
    pub open spec fn back_at(&self, node: StackChain) -> StoreView {
        StoreView {
            chain: node,
            limits: self.info_at(node).limits,
            ..self.with_info(node, self.info_at(node).as_running())
        }
    }

    /// The store after `cont_return` was called: the running continuation
    /// is `Returned` and without parent, and its parent executes again.
    pub open spec fn after_return(&self) -> StoreView {
        match self.chain {
            StackChain::Continuation(contref) => {
                let done = self.conts[contref as int];
                StoreView {
                    conts: self.conts.update(
                        contref as int,
                        ContinuationView {
                            info: StackInfoView { state: State::Returned, ..done.info },
                            parent_chain: StackChain::Absent,
                            ..done
                        },
                    ),
                    ..*self
                }.back_at(done.parent_chain)
            },
            _ => *self,
        }
    }

    /// The position of the handler for `tag` in the handler list of the
    /// stack at `node`: among the switch handlers if `switching`, among the
    /// suspend handlers if not.
    pub open spec fn handler_in(&self, node: StackChain, tag: TagId, switching: bool) -> Option<
        int,
    > {
        if switching {
            self.info_at(node).switch_handler(tag)
        } else {
            self.info_at(node).suspend_handler(tag)
        }
    }

    /// The nearest handler for `tag` above the continuation in slot `child`,
    /// looking at no more than `fuel` stacks.
    pub open spec fn handler_site(
        &self,
        child: usize,
        tag: TagId,
        switching: bool,
        fuel: nat,
    ) -> Option<HandlerSite>
        decreases fuel,
    {
        if fuel == 0 || child >= self.conts.len() {
            None
        } else {
            let parent = self.conts[child as int].parent_chain;
            match parent {
                StackChain::Absent => None,
                _ => match self.handler_in(parent, tag, switching) {
                    Some(index) => Some(
                        HandlerSite { last: child, stack: parent, index: index as u32 },
                    ),
                    None => match parent {
                        StackChain::Continuation(next) => self.handler_site(
                            next,
                            tag,
                            switching,
                            (fuel - 1) as nat,
                        ),
                        _ => None,
                    },
                },
            }
        }
    }

    /// The nearest handler for `tag` above the running continuation. There
    /// is none while the initial stack executes.
    pub open spec fn nearest_handler(&self, tag: TagId, switching: bool) -> Option<HandlerSite> {
        match self.chain {
            StackChain::Continuation(head) => self.handler_site(
                head,
                tag,
                switching,
                self.conts.len(),
            ),
            _ => None,
        }
    }

    /// The store in which the running continuation in slot `contref` is
    /// parked together with its ancestors up to the one in slot `last`: it
    /// is `Suspended` and has saved the limits in force, and `last` has no
    /// parent.
    pub open spec fn parked_at(&self, contref: usize, last: usize) -> StoreView {
        let suspended = self.conts[contref as int];
        StoreView {
            conts: self.conts.update(
                contref as int,
                ContinuationView {
                    info: StackInfoView {
                        state: State::Suspended,
                        limits: self.limits,
                        ..suspended.info
                    },
                    last_ancestor: Some(last),
                    ..suspended
                },
            ),
            ..*self
        }.with_parent(last, StackChain::Absent)
    }

    /// The handle to the running continuation at its present revision.
    pub open spec fn running_handle(&self) -> VMContObj {
        match self.chain {
            StackChain::Continuation(head) => VMContObj {
                contref: head,
                revision: self.conts[head as int].revision,
            },
            _ => VMContObj { contref: 0, revision: 0 },
        }
    }

    /// What `suspend` returns for `tag`: the switch that hands
    /// `Suspend { handler_index }` to the nearest stack with a suspend
    /// handler for the tag, and the handle to the continuation that is now
    /// suspended.
    pub open spec fn suspend_result(&self, tag: TagId) -> Result<
        (Switch, VMContObj),
        StackSwitchError,
    > {
        match self.nearest_handler(tag, false) {
            Some(site) => Ok(
                (
                    Switch {
                        top_of_stack: self.conts[site.last as int].stack.top,
                        payload: (ControlEffect::Suspend { handler_index: site.index }).encoding(),
                    },
                    self.running_handle(),
                ),
            ),
            None => Err(StackSwitchError::HandlerNotFound),
        }
    }

    /// The store after `suspend` was called: the running continuation and
    /// its ancestors below the handling stack are parked, and the handling
    /// stack executes again.
    pub open spec fn after_suspend(&self, tag: TagId) -> StoreView {
        match self.nearest_handler(tag, false) {
            Some(site) => self.parked_at(self.running_handle().contref, site.last).back_at(
                site.stack,
            ),
            None => *self,
        }
    }

    /// What `switch` returns: the switch with the effect `Switch` that parks
    /// the running continuation in the control context of the last stack
    /// below the handling one, where `resume` will look for it, and enters
    /// the target through the control context in which it is parked; and the
    /// handle to the continuation that is now suspended.
    pub open spec fn switch_result(&self, target: VMContObj, tag: TagId) -> Result<
        (SwitchOver, VMContObj),
        StackSwitchError,
    > {
        match self.resume_result(target) {
            Err(error) => Err(error),
            Ok(_) => match self.nearest_handler(tag, true) {
                Some(site) => Ok(
                    (
                        SwitchOver {
                            source_top_of_stack: self.conts[site.last as int].stack.top,
                            target_top_of_stack: self.parked_top(target.contref),
                            payload: ControlEffect::Switch.encoding(),
                        },
                        self.running_handle(),
                    ),
                ),
                None => Err(StackSwitchError::HandlerNotFound),
            },
        }
    }

    /// The store after `switch` was called: the running continuation and its
    /// ancestors below the handling stack are parked, and the target runs
    /// on top of the handling stack, which stays a parent.
    pub open spec fn after_switch(&self, target: VMContObj, tag: TagId) -> StoreView {
        if self.switch_result(target, tag) is Ok {
            let site = self.nearest_handler(tag, true).unwrap();
            self.parked_at(self.running_handle().contref, site.last).entered(
                target.contref,
                site.stack,
            )
        } else {
            *self
        }
    }

    /// What `drop_cont_obj` returns for slot `contref`: what has to happen
    /// to the memory of the stack, if the slot holds a continuation that has
    /// returned or was never resumed.
    pub open spec fn drop_result(&self, contref: usize) -> Result<Release, StackSwitchError> {
        if !self.is_live(contref as int) {
            Err(StackSwitchError::ContinuationAlreadyConsumed)
        } else if self.conts[contref as int].info.state != State::Returned
            && self.conts[contref as int].info.state != State::Fresh {
            Err(StackSwitchError::ContinuationInUse)
        } else {
            Ok(self.conts[contref as int].stack.release_action())
        }
    }

    /// The revision after `revision`, up to the last one.
    pub open spec fn advanced(revision: u64) -> u64 {
        if revision < u64::MAX {
            (revision + 1) as u64
        } else {
            revision
        }
    }

    /// The store after `drop_cont_obj` was called: the stack has gone back
    /// to the allocator, and the slot is vacant, at an advanced revision,
    /// and the next to be used.
    pub open spec fn after_drop(&self, contref: usize) -> StoreView {
        if self.drop_result(contref) is Ok {
            StoreView {
                conts: self.conts.update(
                    contref as int,
                    ContinuationView::vacant(
                        StoreView::advanced(self.conts[contref as int].revision),
                    ),
                ),
                free: self.free.push(contref),
                allocator: self.allocator.after_deallocate(self.conts[contref as int].stack),
                ..*self
            }
        } else {
            *self
        }
    }

    /// The node after `node`: the parent of the continuation that it stands
    /// for. The initial stack and the end of a chain have no successor.
    pub open spec fn successor(&self, node: StackChain) -> Option<StackChain> {
        match node {
            StackChain::Continuation(contref) if contref < self.conts.len() => Some(
                self.conts[contref as int].parent_chain,
            ),
            _ => None,
        }
    }

    /// The slots of the continuations met on a walk of `fuel` steps at most
    /// that begins at `node`.
    pub open spec fn continuations_from(&self, node: StackChain, fuel: nat) -> Seq<usize>
        decreases fuel,
    {
        if fuel == 0 {
            Seq::empty()
        } else {
            match node {
                StackChain::Continuation(contref) if contref < self.conts.len() => seq![contref]
                    + self.continuations_from(
                    self.conts[contref as int].parent_chain,
                    (fuel - 1) as nat,
                ),
                _ => Seq::empty(),
            }
        }
    }

    /// The node at which a walk of `fuel` steps at most that begins at
    /// `node` stops.
    pub open spec fn end_from(&self, node: StackChain, fuel: nat) -> StackChain
        decreases fuel,
    {
        if fuel == 0 {
            node
        } else {
            match node {
                StackChain::Continuation(contref) if contref < self.conts.len() => self.end_from(
                    self.conts[contref as int].parent_chain,
                    (fuel - 1) as nat,
                ),
                _ => node,
            }
        }
    }

    /// The slots of the continuations of the chain that begins at `node`.
    /// A walk needs no more steps than there are slots.
    pub open spec fn continuations(&self, node: StackChain) -> Seq<usize> {
        self.continuations_from(node, self.conts.len())
    }

    /// The node that ends the chain that begins at `node`.
    pub open spec fn chain_end(&self, node: StackChain) -> StackChain {
        self.end_from(node, self.conts.len())
    }

    /// The limits saved for the stacks met on a walk of `fuel` steps at most
    /// that begins at `node`: those of the continuations, and at last those
    /// of the initial stack, if the walk reaches it.
    pub open spec fn limits_from(&self, node: StackChain, fuel: nat) -> Seq<StackLimits>
        decreases fuel,
    {
        if fuel == 0 {
            Seq::empty()
        } else {
            match node {
                StackChain::Continuation(contref) if contref < self.conts.len() => seq![
                    self.conts[contref as int].info.limits,
                ] + self.limits_from(self.conts[contref as int].parent_chain, (fuel - 1) as nat),
                StackChain::InitialStack => seq![self.initial.limits],
                _ => Seq::empty(),
            }
        }
    }
}

/// The moves of the life cycle: a continuation that is `Fresh` or
/// `Suspended` may come to run; one that runs may become a parent, suspend,
/// or return; a parent may come to run again.
pub open spec fn may_become(from: State, to: State) -> bool {
    ||| from == to
    ||| from.is_resumable() && to == State::Running
    ||| from == State::Running && (to == State::Parent || to == State::Suspended || to
        == State::Returned)
    ||| from == State::Parent && to == State::Running
}

/// Whether every stack that `before` and `after` both hold is in `after` in
/// a state that its state in `before` may become.
pub open spec fn moves_along_life_cycle(before: StoreView, after: StoreView) -> bool {
    &&& before.conts.len() <= after.conts.len()
    &&& may_become(before.initial.state, after.initial.state)
    &&& forall|contref: int|
        before.is_live(contref) && after.is_live(contref) ==> may_become(
            (#[trigger] before.conts[contref]).info.state,
            after.conts[contref].info.state,
        )
}

/// A handle is good for one use: of two handles to one continuation at one
/// revision, whichever is taken first, the other is stale afterwards. A
/// handle that could not be taken changes nothing.
pub proof fn lemma_take_is_linear(store: StoreView, first: VMContObj, second: VMContObj)
    requires
        first.contref == second.contref,
        first.revision == second.revision,
    ensures
        store.take_result(first) is Ok ==> store.after_take(first).take_result(second) == Err::<
            usize,
            StackSwitchError,
        >(StackSwitchError::ContinuationAlreadyConsumed),
        store.take_result(first) is Err ==> store.after_take(first) == store,
        store.take_result(first) == store.take_result(second),
        store.after_take(first).after_take(second) == store.after_take(first),
{
}

/// Taking a handle leaves every other continuation, and everything but the
/// revision of the continuation taken, as it was.
pub proof fn lemma_take_advances_revision_only(store: StoreView, handle: VMContObj)
    requires
        store.take_result(handle) is Ok,
    ensures
        store.after_take(handle).conts.len() == store.conts.len(),
        store.after_take(handle).conts[handle.contref as int].revision == handle.revision + 1,
        store.after_take(handle).conts[handle.contref as int] == (ContinuationView {
            revision: (handle.revision + 1) as u64,
            ..store.conts[handle.contref as int]
        }),
        forall|i: int|
            0 <= i < store.conts.len() && i != handle.contref ==> store.after_take(
                handle,
            ).conts[i] == store.conts[i],
{
}

/// A continuation that has returned is not resumed again: whatever the
/// handle, `resume` fails and changes nothing.
pub proof fn lemma_returned_rejects_resume(
    store: StoreView,
    handle: VMContObj,
    handlers: Seq<TagId>,
    first_switch_handler_index: u32,
)
    requires
        store.is_live(handle.contref as int),
        store.conts[handle.contref as int].info.state == State::Returned,
    ensures
        store.resume_result(handle) is Err,
        store.resume_result(handle) == if handle.revision
            == store.conts[handle.contref as int].revision && handle.revision < u64::MAX {
            Err::<Switch, StackSwitchError>(StackSwitchError::ContinuationNotResumable)
        } else {
            Err::<Switch, StackSwitchError>(StackSwitchError::ContinuationAlreadyConsumed)
        },
        store.after_resume(handle, handlers, first_switch_handler_index) == store,
{
}

} // verus!
