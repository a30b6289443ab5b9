//! Where the switch code expects to find what, at the top of a stack.
//!
//! The control context is the topmost region of every continuation stack. It
//! holds the stack pointer, frame pointer and instruction pointer from which
//! execution continues after a switch. Below it, a fresh stack holds the
//! arguments of the entry function until the first switch consumes them.

use vstd::prelude::*;

verus! {

/// Size in bytes of a saved register.
pub const WORD_SIZE: usize = 8;

/// Size in bytes of the frame that a fresh stack starts with: the control
/// context, one word of padding, and the four arguments of the entry
/// function.
pub const LAUNCHPAD_SIZE: usize = 64;

/// Byte offsets within the control context.
#[derive(Debug, Clone, Copy, PartialEq, Eq, Structural)]
pub struct ControlContextLayout {
    /// Size of the control context.
    pub size: usize,
    /// Offset of the saved stack pointer.
    pub stack_pointer_offset: usize,
    /// Offset of the saved frame pointer.
    pub frame_pointer_offset: usize,
    /// Offset of the saved instruction pointer.
    pub ip_offset: usize,
}

/// A general-purpose integer register, named by its hardware encoding.
#[derive(Debug, Clone, Copy, PartialEq, Eq, Structural)]
pub struct Reg {
    /// The hardware encoding of the register.
    pub hw_enc: u8,
}

/// The layout of the control context: three words, holding the stack
/// pointer, the frame pointer and the instruction pointer, in this order.
pub open spec fn context_layout() -> ControlContextLayout {
    ControlContextLayout {
        size: 24,
        stack_pointer_offset: 0,
        frame_pointer_offset: 8,
        ip_offset: 16,
    }
}

/// The layout of the control context: three words, holding the stack
/// pointer, the frame pointer and the instruction pointer, in this order.
pub fn control_context_layout() -> (layout: ControlContextLayout)
    ensures
        layout == context_layout(),
{
    ControlContextLayout {
        size: 24,
        stack_pointer_offset: 0,
        frame_pointer_offset: 8,
        ip_offset: 16,
    }
}

/// The register in which the payload of a switch travels: the first integer
/// argument register.
pub fn payload_register() -> (reg: Reg)
    ensures
        reg.hw_enc == 0,
{
    Reg { hw_enc: 0 }
}

/// The frame at the top of a stack that has been initialized and not yet
/// switched to. The first switch restores the control context and thereby
/// enters the entry trampoline, which pops the four arguments.
#[derive(Debug, Clone, Copy, PartialEq, Eq, Structural)]
pub struct Launchpad {
    /// Address of the top of the stack.
    pub top_of_stack: usize,
    /// Saved stack pointer: the address of the lowest word of the frame.
    pub stack_pointer: usize,
    /// Saved frame pointer: the address of its own slot, so that a frame
    /// pointer walk passes from the trampoline into the resuming stack.
    pub frame_pointer: usize,
    /// The function that the continuation runs.
    pub func_ref: usize,
    /// The context of the code that created the continuation.
    pub caller_vmctx: usize,
    /// Where the arguments and results are kept.
    pub args_ptr: usize,
    /// Number of slots in the argument buffer.
    pub args_capacity: usize,
}

impl Launchpad {
    /// The frame is laid out below `top_of_stack` as the switch code expects.
    pub open spec fn wf(&self) -> bool {
        &&& self.top_of_stack >= LAUNCHPAD_SIZE
        &&& self.stack_pointer == self.top_of_stack - LAUNCHPAD_SIZE
        &&& self.frame_pointer == self.top_of_stack - 16
    }

    /// The eight words of the frame in ascending address order, starting at
    /// `stack_pointer`, with `entry` as the instruction pointer.
    pub open spec fn frame(&self, entry: usize) -> Seq<usize> {
        seq![
            self.args_capacity,
            self.args_ptr,
            self.caller_vmctx,
            self.func_ref,
            0usize,
            self.stack_pointer,
            self.frame_pointer,
            entry,
        ]
    }

    /// Address of the control context within the frame.
    pub fn control_context(&self) -> (address: usize)
        requires
            self.wf(),
        ensures
            address == self.top_of_stack - 24,
            address == self.stack_pointer + 5 * WORD_SIZE,
    {
        self.top_of_stack - control_context_layout().size
    }

    /// The words to write, in ascending address order starting at
    /// `stack_pointer`, for a stack whose entry trampoline is at `entry`.
    pub fn words(&self, entry: usize) -> (words: [usize; 8])
        ensures
            words@ == self.frame(entry),
    {
        let words: [usize; 8] = [
            self.args_capacity,
            self.args_ptr,
            self.caller_vmctx,
            self.func_ref,
            0,
            self.stack_pointer,
            self.frame_pointer,
            entry,
        ];
        assert(words@ =~= self.frame(entry));
        words
    }
}

/// Index in the frame of the word at byte `offset` of the control context,
/// which is the topmost part of the frame.
pub open spec fn word_of_context(offset: int) -> int {
    (LAUNCHPAD_SIZE - context_layout().size + offset) / (WORD_SIZE as int)
}

/// The control context of a launchpad lies where the layout says: the frame
/// fills the top of the stack, and its topmost words are the saved stack
/// pointer, frame pointer and instruction pointer.
pub proof fn lemma_launchpad_matches_layout(pad: Launchpad, entry: usize)
    requires
        pad.wf(),
    ensures
        pad.frame(entry).len() * WORD_SIZE == LAUNCHPAD_SIZE,
        pad.frame(entry)[word_of_context(context_layout().stack_pointer_offset as int)]
            == pad.stack_pointer,
        pad.frame(entry)[word_of_context(context_layout().frame_pointer_offset as int)]
            == pad.frame_pointer,
        pad.frame(entry)[word_of_context(context_layout().ip_offset as int)] == entry,
        pad.stack_pointer + LAUNCHPAD_SIZE == pad.top_of_stack,
{
}

} // verus!
