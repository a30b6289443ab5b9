//! Types shared by every stack, whether it belongs to a continuation or is the
//! stack on which execution was entered: configuration, saved limits, the
//! life-cycle state, and the bounded buffers that hold payloads and handlers.

use vstd::prelude::*;

verus! {

/// Size in bytes of a continuation stack when nothing else is configured:
/// 2 MiB, that is 512 pages of 4 KiB.
pub const DEFAULT_FIBER_SIZE: usize = 2097152;

/// Discriminant of the chain terminator of a suspended continuation.
pub const STACK_CHAIN_ABSENT_DISCRIMINANT: usize = 0;

/// Discriminant of the chain node that stands for the initial stack.
pub const STACK_CHAIN_INITIAL_STACK_DISCRIMINANT: usize = 1;

/// Discriminant of a chain node that stands for a continuation.
pub const STACK_CHAIN_CONTINUATION_DISCRIMINANT: usize = 2;

/// Runtime configuration of stack switching.
#[derive(Debug, Clone, Copy)]
pub struct StackSwitchingConfig {
    /// The fixed size, in bytes, of a continuation stack.
    pub stack_size: usize,
}

impl Default for StackSwitchingConfig {
    fn default() -> (config: Self)
        ensures
            config.stack_size == DEFAULT_FIBER_SIZE,
    {
        StackSwitchingConfig { stack_size: DEFAULT_FIBER_SIZE }
    }
}

/// The part of the runtime limits that is saved while a stack is not
/// executing, and restored when it executes again.
#[derive(Debug, Clone, Copy, PartialEq, Eq, Structural)]
pub struct StackLimits {
    /// Lowest address the stack pointer may reach.
    pub stack_limit: usize,
    /// Frame pointer at which execution last entered guest code.
    pub last_wasm_entry_fp: usize,
}

impl Default for StackLimits {
    fn default() -> (limits: Self)
        ensures
            limits == (StackLimits { stack_limit: 0, last_wasm_entry_fp: 0 }),
    {
        StackLimits { stack_limit: 0, last_wasm_entry_fp: 0 }
    }
}

impl StackLimits {
    /// Limits with the given stack limit and no recorded entry frame.
    pub fn with_stack_limit(stack_limit: usize) -> (limits: Self)
        ensures
            limits == (StackLimits { stack_limit, last_wasm_entry_fp: 0 }),
    {
        StackLimits { stack_limit, last_wasm_entry_fp: 0 }
    }
}

/// The life cycle of a continuation.
#[derive(Debug, Clone, Copy, PartialEq, Eq, Structural)]
pub enum State {
    /// Created, never switched to. Arguments may still be added.
    Fresh,
    /// Currently executing.
    Running,
    /// Waiting for a continuation that it resumed.
    Parent,
    /// Parked by a suspend or a switch.
    Suspended,
    /// The entry function returned; never to be resumed again.
    Returned,
}

impl State {
    /// The number that stands for the state in generated code.
    pub open spec fn discriminant_value(self) -> i32 {
        match self {
            State::Fresh => 0,
            State::Running => 1,
            State::Parent => 2,
            State::Suspended => 3,
            State::Returned => 4,
        }
    }

    /// States from which a continuation can be switched to.
    pub open spec fn is_resumable(self) -> bool {
        self == State::Fresh || self == State::Suspended
    }

    /// The number that stands for the state in generated code.
    pub fn discriminant(&self) -> (value: i32)
        ensures
            value == self.discriminant_value(),
    {
        match self {
            State::Fresh => 0,
            State::Running => 1,
            State::Parent => 2,
            State::Suspended => 3,
            State::Returned => 4,
        }
    }
}

impl From<State> for i32 {
    fn from(state: State) -> (value: i32) {
        state.discriminant()
    }
}

impl vstd::std_specs::convert::FromSpecImpl<State> for i32 {
    open spec fn obeys_from_spec() -> bool {
        true
    }

    open spec fn from_spec(state: State) -> i32 {
        state.discriminant_value()
    }
}

/// A bounded buffer: `length` occupied slots out of `capacity`.
#[derive(Debug, Clone)]
pub struct Array<T> {
    /// Number of occupied slots.
    pub length: u32,
    /// Number of slots.
    pub capacity: u32,
    /// The occupied slots, in order.
    pub data: Vec<T>,
}

impl<T> View for Array<T> {
    type V = Seq<T>;

    open spec fn view(&self) -> Seq<T> {
        self.data@
    }
}

impl<T> Array<T> {
    /// `length` counts the occupied slots and does not exceed `capacity`.
    pub open spec fn wf(&self) -> bool {
        &&& self.length as nat == self.data@.len()
        &&& self.length <= self.capacity
    }

    /// A buffer without slots.
    pub fn empty() -> (array: Self)
        ensures
            array.wf(),
            array.length == 0,
            array.capacity == 0,
            array@ == Seq::<T>::empty(),
    {
        Array { length: 0, capacity: 0, data: Vec::new() }
    }

    /// An unoccupied buffer of `capacity` slots.
    pub fn with_capacity(capacity: u32) -> (array: Self)
        ensures
            array.wf(),
            array.length == 0,
            array.capacity == capacity,
            array@ == Seq::<T>::empty(),
    {
        Array { length: 0, capacity, data: Vec::new() }
    }

    /// Gives up every slot.
    pub fn clear(&mut self)
        ensures
            final(self).wf(),
            final(self).length == 0,
            final(self).capacity == 0,
            final(self)@ == Seq::<T>::empty(),
    {
        *self = Array::empty();
    }

    /// Vacates every slot and keeps the capacity.
    pub fn reset(&mut self)
        ensures
            final(self).wf(),
            final(self).length == 0,
            final(self).capacity == old(self).capacity,
            final(self)@ == Seq::<T>::empty(),
    {
        self.length = 0;
        self.data.clear();
    }

    /// Grows the buffer to at least `requested_capacity` slots. The occupied
    /// slots stay as they are.
    pub fn ensure_capacity(&mut self, requested_capacity: u32)
        requires
            old(self).wf(),
            requested_capacity != 0,
        ensures
            final(self).wf(),
            final(self).length == old(self).length,
            final(self)@ == old(self)@,
            final(self).capacity == if requested_capacity > old(self).capacity {
                requested_capacity
            } else {
                old(self).capacity
            },
    {
        if requested_capacity > self.capacity {
            self.capacity = requested_capacity;
        }
    }

    /// Occupies the next free slot with `value`. Returns whether there was
    /// one; a full buffer stays as it is.
    pub fn push(&mut self, value: T) -> (stored: bool)
        requires
            old(self).wf(),
        ensures
            final(self).wf(),
            final(self).capacity == old(self).capacity,
            stored == (old(self).length < old(self).capacity),
            stored ==> final(self)@ == old(self)@.push(value),
            !stored ==> final(self)@ == old(self)@,
    {
        if self.length < self.capacity {
            self.data.push(value);
            self.length = self.length + 1;
            true
        } else {
            false
        }
    }

    /// Index of the next free slot, which is the number of occupied ones.
    pub fn next_free_slot(&self) -> (index: u32)
        ensures
            index == self.length,
    {
        self.length
    }
}

/// Buffer for the values handed to and from a continuation.
pub type Payloads = Array<u128>;

/// Identity of a tag: the address of its definition.
pub type TagId = usize;

/// The tags a stack handles, one entry per handler clause, suspend handlers
/// first.
pub type HandlerList = Array<TagId>;

/// What is recorded of every stack in a chain.
#[derive(Debug, Clone)]
pub struct CommonStackInformation {
    /// The limits saved while the stack is not executing.
    pub limits: StackLimits,
    /// The state of the stack. For the initial stack, `Running` or `Parent`.
    pub state: State,
    /// The handlers installed by the resume that made this stack a parent.
    /// Empty unless the state is `Parent`.
    pub handlers: HandlerList,
    /// Index in `handlers` of the first switch handler. Meaningful only in
    /// state `Parent`.
    pub first_switch_handler_index: u32,
}

/// Position of the first occurrence of `tag` in `handlers` at or after
/// `from` and before `to`.
pub open spec fn first_match(handlers: Seq<TagId>, tag: TagId, from: int, to: int) -> Option<int>
    decreases to - from,
{
    if from >= to {
        None
    } else if handlers[from] == tag {
        Some(from)
    } else {
        first_match(handlers, tag, from + 1, to)
    }
}

/// `first_match` finds the least position in range that holds the tag, and
/// finds none only if no position in range holds it.
pub proof fn lemma_first_match(handlers: Seq<TagId>, tag: TagId, from: int, to: int)
    ensures
        match first_match(handlers, tag, from, to) {
            Some(found) => from <= found < to && handlers[found] == tag && forall|i: int|
                from <= i < found ==> handlers[i] != tag,
            None => forall|i: int| from <= i < to ==> handlers[i] != tag,
        },
    decreases to - from,
{
    if from < to && handlers[from] != tag {
        lemma_first_match(handlers, tag, from + 1, to);
    }
}

/// What a stack records of itself, as plain values.
pub struct StackInfoView {
    /// The limits saved while the stack is not executing.
    pub limits: StackLimits,
    /// The state of the stack.
    pub state: State,
    /// The tags that the stack handles, suspend handlers first.
    pub handlers: Seq<TagId>,
    /// Position of the first switch handler.
    pub first_switch_handler_index: u32,
}

impl StackInfoView {
    /// Position of the first suspend handler for `tag`.
    pub open spec fn suspend_handler(&self, tag: TagId) -> Option<int> {
        first_match(self.handlers, tag, 0, self.first_switch_handler_index as int)
    }

    /// Position of the first switch handler for `tag`.
    pub open spec fn switch_handler(&self, tag: TagId) -> Option<int> {
        first_match(
            self.handlers,
            tag,
            self.first_switch_handler_index as int,
            self.handlers.len() as int,
        )
    }

    /// The record after the stack resumed a continuation with the given
    /// handlers, while the runtime limits were `limits`.
    pub open spec fn as_parent(
        &self,
        handlers: Seq<TagId>,
        first_switch_handler_index: u32,
        limits: StackLimits,
    ) -> StackInfoView {
        StackInfoView { limits, state: State::Parent, handlers, first_switch_handler_index }
    }

    /// The record after control came back to the stack: it runs, and its
    /// handlers are gone.
    pub open spec fn as_running(&self) -> StackInfoView {
        StackInfoView {
            limits: self.limits,
            state: State::Running,
            handlers: Seq::empty(),
            first_switch_handler_index: 0,
        }
    }
}

impl View for CommonStackInformation {
    type V = StackInfoView;

    open spec fn view(&self) -> StackInfoView {
        StackInfoView {
            limits: self.limits,
            state: self.state,
            handlers: self.handlers@,
            first_switch_handler_index: self.first_switch_handler_index,
        }
    }
}

impl CommonStackInformation {
    /// The buffers are well formed, and the suspend handlers are a prefix of
    /// the handler list.
    pub open spec fn wf(&self) -> bool {
        &&& self.handlers.wf()
        &&& self.first_switch_handler_index <= self.handlers.length
    }

    /// The information of a stack that is executing and has installed no
    /// handlers.
    pub fn running_default() -> (info: Self)
        ensures
            info.wf(),
            info@ == (StackInfoView {
                limits: StackLimits { stack_limit: 0, last_wasm_entry_fp: 0 },
                state: State::Running,
                handlers: Seq::empty(),
                first_switch_handler_index: 0,
            }),
            info.handlers.capacity == 0,
    {
        CommonStackInformation {
            limits: StackLimits::default(),
            state: State::Running,
            handlers: Array::empty(),
            first_switch_handler_index: 0,
        }
    }

    /// Position of the first suspend handler for `tag`.
    pub fn suspend_handler(&self, tag: TagId) -> (found: Option<u32>)
        requires
            self.wf(),
        ensures
            match self@.suspend_handler(tag) {
                Some(index) => found == Some(index as u32),
                None => found is None,
            },
    {
        find_handler(&self.handlers, tag, 0, self.first_switch_handler_index)
    }

    /// Position of the first switch handler for `tag`.
    pub fn switch_handler(&self, tag: TagId) -> (found: Option<u32>)
        requires
            self.wf(),
        ensures
            match self@.switch_handler(tag) {
                Some(index) => found == Some(index as u32),
                None => found is None,
            },
    {
        find_handler(&self.handlers, tag, self.first_switch_handler_index, self.handlers.length)
    }
}

/// Position of the first occurrence of `tag` in `handlers` at or after
/// `from` and before `to`.
pub fn find_handler(handlers: &HandlerList, tag: TagId, from: u32, to: u32) -> (found: Option<u32>)
    requires
        handlers.wf(),
        from <= to <= handlers.length,
    ensures
        match first_match(handlers@, tag, from as int, to as int) {
            Some(index) => found == Some(index as u32),
            None => found is None,
        },
{
    let mut index: u32 = from;
    while index < to
        invariant
            handlers.wf(),
            from <= index <= to <= handlers.length,
            first_match(handlers@, tag, from as int, to as int) == first_match(
                handlers@,
                tag,
                index as int,
                to as int,
            ),
        decreases to - index,
    {
        if handlers.data[index as usize] == tag {
            proof {
                lemma_first_match(handlers@, tag, index as int, to as int);
            }
            return Some(index);
        }
        index = index + 1;
    }
    None
}

} // verus!
