//! A stack for a continuation: a block of memory with an inaccessible guard
//! page below it.
//!
//! ```text
//! top       +-----------------------+
//!           | control context       |
//!           +-----------------------+
//!           |                       |
//!           ~   usable stack        ~   len bytes
//!           |                       |
//! top - len +-----------------------+
//!           | guard                 |   guard bytes
//!           +-----------------------+
//! ```
//!
//! A `FiberStack` records where the memory is. Mapping, protecting and
//! unmapping it is the embedder's part.

use crate::control_effect::ControlEffect;
use crate::error::StackSwitchError;
use crate::layout::{Launchpad, LAUNCHPAD_SIZE};
use vstd::arithmetic::div_mod::{lemma_fundamental_div_mod, lemma_mod_multiples_basic};
use vstd::prelude::*;

verus! {

/// How the memory of a stack was obtained, which decides how it is given
/// back.
#[derive(Debug, Clone, Copy, PartialEq, Eq, Structural)]
pub enum Allocator {
    /// From the heap.
    Malloc,
    /// From a mapping of its own.
    Mmap,
    /// From memory that somebody else manages.
    Custom,
}

/// A stack switch that is ready to be made: the registers and the control
/// context below `top_of_stack` change places. That context holds where the
/// other side continues, and afterwards where this side does.
#[derive(Debug, Clone, Copy, PartialEq, Eq, Structural)]
pub struct Switch {
    /// Top of the stack whose control context is swapped with the
    /// registers.
    pub top_of_stack: usize,
    /// The encoded control effect handed to the other side.
    pub payload: u64,
}

/// A switch from a running continuation to a sibling, ready to be made. Two
/// control contexts take part in it, because the stack that handles the
/// switch gets a new child.
#[derive(Debug, Clone, Copy, PartialEq, Eq, Structural)]
pub struct SwitchOver {
    /// Top of the last stack of the chain that is left. Its control context
    /// holds the context of the handling stack. That context moves to the
    /// control context below `target_top_of_stack`, and the context of the
    /// code that switches takes its place.
    pub source_top_of_stack: usize,
    /// Top of the last stack of the chain that is entered. Its control
    /// context holds the context at which the target continues, and
    /// receives the context of the handling stack.
    pub target_top_of_stack: usize,
    /// The encoded control effect handed to the target.
    pub payload: u64,
}

/// What has to happen to the memory of a stack that is dropped.
#[derive(Debug, Clone, Copy, PartialEq, Eq, Structural)]
pub enum Release {
    /// Unmap `len` bytes at `base`.
    Unmap {
        /// Lowest address of the mapping.
        base: usize,
        /// Length of the mapping.
        len: usize,
    },
    /// Free the heap block of `len` bytes at `base`.
    Free {
        /// Lowest address of the block.
        base: usize,
        /// Length of the block.
        len: usize,
    },
    /// Nothing: whoever provided the memory reclaims it.
    Keep,
}

/// Whether `n` is a whole number of pages.
pub open spec fn is_page_multiple(n: int, page_size: int) -> bool {
    n % page_size == 0
}

/// The least multiple of `page_size` that is not below `size`.
pub open spec fn round_up(size: int, page_size: int) -> int {
    if size % page_size == 0 {
        size
    } else {
        size - size % page_size + page_size
    }
}

/// The usable bytes of a stack mapped for a request of `size` bytes: the
/// request rounded up to whole pages, and one page where nothing was asked
/// for.
pub open spec fn usable_len(size: int, page_size: int) -> int {
    if size == 0 {
        page_size
    } else {
        round_up(size, page_size)
    }
}

/// The bytes to map for a request of `size` bytes: the usable bytes and one
/// guard page.
pub open spec fn mapping_len(size: int, page_size: int) -> int {
    usable_len(size, page_size) + page_size
}

/// `round_up` yields a multiple of the page size, and the least one that is
/// not below `size`.
pub proof fn lemma_round_up_is_least_multiple(size: int, page_size: int)
    requires
        0 <= size,
        0 < page_size,
    ensures
        is_page_multiple(round_up(size, page_size), page_size),
        size <= round_up(size, page_size) < size + page_size,
        forall|m: int|
            size <= m && #[trigger] is_page_multiple(m, page_size) ==> round_up(size, page_size)
                <= m,
{
    let r = round_up(size, page_size);
    lemma_fundamental_div_mod(size, page_size);
    if size % page_size != 0 {
        assert(r == page_size * (size / page_size + 1)) by (nonlinear_arith)
            requires
                r == size - size % page_size + page_size,
                size == page_size * (size / page_size) + size % page_size,
        ;
        lemma_mod_multiples_basic(size / page_size + 1, page_size);
        assert(r == (size / page_size + 1) * page_size) by (nonlinear_arith)
            requires
                r == page_size * (size / page_size + 1),
        ;
    }
    assert forall|m: int| size <= m && #[trigger] is_page_multiple(m, page_size) implies r
        <= m by {
        lemma_fundamental_div_mod(m, page_size);
        if m < r {
            assert(size / page_size < m / page_size) by (nonlinear_arith)
                requires
                    size == page_size * (size / page_size) + size % page_size,
                    m == page_size * (m / page_size),
                    size <= m,
                    size % page_size != 0,
                    0 <= size % page_size < page_size,
                    0 < page_size,
            ;
            assert(m >= page_size * (size / page_size + 1)) by (nonlinear_arith)
                requires
                    m == page_size * (m / page_size),
                    size / page_size + 1 <= m / page_size,
                    0 < page_size,
            ;
        }
    }
}

/// The least multiple of `page_size` that is not below `n`. `None` when there
/// is no page size or the result does not fit the address space.
pub fn round_up_to_page(n: usize, page_size: usize) -> (rounded: Option<usize>)
    ensures
        rounded == if page_size > 0 && round_up(n as int, page_size as int) <= usize::MAX {
            Some(round_up(n as int, page_size as int) as usize)
        } else {
            None
        },
{
    if page_size == 0 {
        return None;
    }
    let rest: usize = n % page_size;
    assert(n as int % page_size as int <= n) by (nonlinear_arith)
        requires
            0 < page_size,
    ;
    if rest == 0 {
        Some(n)
    } else {
        (n - rest).checked_add(page_size)
    }
}

/// The bytes to map for a stack of `size` usable bytes on a machine with
/// pages of `page_size` bytes. `None` when there is no page size or the
/// length does not fit the address space.
pub fn stack_mapping_len(size: usize, page_size: usize) -> (len: Option<usize>)
    ensures
        len == stack_mapping_len_result(size, page_size),
{
    proof {
        if page_size > 0 {
            lemma_round_up_is_least_multiple(size as int, page_size as int);
        }
    }
    let usable: Option<usize> = if size == 0 {
        if page_size == 0 {
            None
        } else {
            Some(page_size)
        }
    } else {
        round_up_to_page(size, page_size)
    };
    match usable {
        Some(usable) => usable.checked_add(page_size),
        None => None,
    }
}

/// The page size of this machine, as `rustix::param::page_size` reports it.
/// Nothing is claimed of the number.
#[verifier::external_body]
pub(crate) fn host_page_size() -> (page_size: usize) {
    rustix::param::page_size()
}

/// What `stack_mapping_len` returns.
pub open spec fn stack_mapping_len_result(size: usize, page_size: usize) -> Option<usize> {
    if page_size > 0 && mapping_len(size as int, page_size as int) <= usize::MAX {
        Some(mapping_len(size as int, page_size as int) as usize)
    } else {
        None
    }
}

/// The bytes to map for a stack of `size` usable bytes on this machine:
/// what `stack_mapping_len` returns for the page size of the machine.
pub fn host_mapping_len(size: usize) -> (len: Option<usize>)
    ensures
        exists|page_size: usize| len == #[trigger] stack_mapping_len_result(size, page_size),
{
    let page_size: usize = host_page_size();
    let len = stack_mapping_len(size, page_size);
    assert(len == stack_mapping_len_result(size, page_size));
    len
}

/// Where a stack for a continuation lies in memory.
#[derive(Debug, PartialEq, Eq, Structural)]
pub struct FiberStack {
    /// One past the highest usable address.
    pub top: usize,
    /// Number of usable bytes below `top`.
    pub len: usize,
    /// Number of inaccessible bytes below the usable ones.
    pub guard: usize,
    /// How the memory was obtained.
    pub allocator: Allocator,
}

impl FiberStack {
    /// The guard and the usable bytes lie within the address space.
    pub open spec fn wf(&self) -> bool {
        self.guard + self.len <= self.top
    }

    /// Lowest usable address.
    pub open spec fn base(&self) -> int {
        self.top - self.len
    }

    /// Lowest address of the guard.
    pub open spec fn guard_base(&self) -> int {
        self.base() - self.guard
    }

    /// Whether `address` is a usable byte of the stack.
    pub open spec fn contains(&self, address: int) -> bool {
        self.base() <= address < self.top
    }

    /// Whether `address` is a byte of the guard.
    pub open spec fn guards(&self, address: int) -> bool {
        self.guard_base() <= address < self.base()
    }

    /// The stack of `len` usable bytes at `base`, with `guard` bytes of
    /// guard below them, if all of it lies within the address space.
    pub open spec fn at(base: usize, len: usize, guard: usize, allocator: Allocator) -> Result<
        FiberStack,
        StackSwitchError,
    > {
        if guard <= base && base + len <= usize::MAX {
            Ok(FiberStack { top: (base + len) as usize, len, guard, allocator })
        } else {
            Err(StackSwitchError::StackAllocationFailed)
        }
    }

    /// What has to happen to the memory when the stack is dropped: a mapping
    /// is unmapped, guard included; a heap block is freed; memory of
    /// somebody else is left alone.
    pub open spec fn release_action(&self) -> Release {
        match self.allocator {
            Allocator::Mmap => Release::Unmap {
                base: self.guard_base() as usize,
                len: (self.len + self.guard) as usize,
            },
            Allocator::Malloc => Release::Free { base: self.base() as usize, len: self.len },
            Allocator::Custom => Release::Keep,
        }
    }

    /// The stack that stands for no memory at all.
    pub open spec fn none() -> FiberStack {
        FiberStack { top: 0, len: 0, guard: 0, allocator: Allocator::Custom }
    }

    /// What `with_page_size` returns: the stack whose guard is the lowest
    /// page of the mapping and whose usable part is the rest, if there is a
    /// page size and the mapping fits the address space.
    pub open spec fn mapped(mapping_base: usize, size: usize, page_size: usize) -> Result<
        FiberStack,
        StackSwitchError,
    > {
        if page_size > 0 && mapping_base + mapping_len(size as int, page_size as int)
            <= usize::MAX {
            Ok(
                FiberStack {
                    top: (mapping_base + mapping_len(size as int, page_size as int)) as usize,
                    len: usable_len(size as int, page_size as int) as usize,
                    guard: page_size,
                    allocator: Allocator::Mmap,
                },
            )
        } else {
            Err(StackSwitchError::StackAllocationFailed)
        }
    }

    /// The stack in a fresh mapping at `mapping_base` made for a request of
    /// `size` bytes with pages of `page_size` bytes: the lowest page is the
    /// guard, the rest is usable. Fails when there is no page size or the
    /// mapping does not fit the address space.
    pub fn with_page_size(mapping_base: usize, size: usize, page_size: usize) -> (stack: Result<
        FiberStack,
        StackSwitchError,
    >)
        ensures
            stack == FiberStack::mapped(mapping_base, size, page_size),
            stack matches Ok(stack) ==> stack.wf() && stack.guard_base() == mapping_base
                && stack.len >= size && stack.len > 0,
    {
        proof {
            if page_size > 0 {
                lemma_round_up_is_least_multiple(size as int, page_size as int);
            }
        }
        let mmap_len: usize = match stack_mapping_len(size, page_size) {
            Some(len) => len,
            None => {
                return Err(StackSwitchError::StackAllocationFailed);
            },
        };
        match mapping_base.checked_add(mmap_len) {
            Some(top) => Ok(
                FiberStack {
                    top,
                    len: mmap_len - page_size,
                    guard: page_size,
                    allocator: Allocator::Mmap,
                },
            ),
            None => Err(StackSwitchError::StackAllocationFailed),
        }
    }

    /// The stack in a fresh mapping at `mapping_base` of
    /// `host_mapping_len(size)` bytes: what `with_page_size` returns for the
    /// page size of this machine.
    pub fn new(mapping_base: usize, size: usize) -> (stack: Result<FiberStack, StackSwitchError>)
        ensures
            exists|page_size: usize|
                stack == #[trigger] FiberStack::mapped(mapping_base, size, page_size),
            stack matches Ok(stack) ==> {
                &&& stack.wf()
                &&& stack.guard_base() == mapping_base
                &&& stack.guard > 0
                &&& stack.len >= size
                &&& stack.len > 0
                &&& stack.allocator == Allocator::Mmap
            },
            stack matches Err(error) ==> error == StackSwitchError::StackAllocationFailed,
    {
        let page_size: usize = host_page_size();
        let stack = FiberStack::with_page_size(mapping_base, size, page_size);
        assert(stack == FiberStack::mapped(mapping_base, size, page_size));
        stack
    }

    /// The stack in a heap block of `size` bytes at `base`. It has no guard.
    /// Fails when the block does not fit the address space.
    pub fn malloc(base: usize, size: usize) -> (stack: Result<FiberStack, StackSwitchError>)
        ensures
            stack == FiberStack::at(base, size, 0, Allocator::Malloc),
            stack matches Ok(stack) ==> stack.wf(),
    {
        match base.checked_add(size) {
            Some(top) => Ok(FiberStack { top, len: size, guard: 0, allocator: Allocator::Malloc }),
            None => Err(StackSwitchError::StackAllocationFailed),
        }
    }

    /// The stack that stands for no memory at all.
    pub fn unallocated() -> (stack: FiberStack)
        ensures
            stack.wf(),
            stack == FiberStack::none(),
    {
        FiberStack { top: 0, len: 0, guard: 0, allocator: Allocator::Custom }
    }

    /// Whether the stack stands for no memory.
    pub fn is_unallocated(&self) -> (unallocated: bool)
        ensures
            unallocated == (self.len == 0),
    {
        self.len == 0
    }

    /// The stack in `len` bytes at `base` that somebody else manages. It has
    /// no guard of its own. Fails when the bytes do not fit the address
    /// space.
    pub fn from_raw_parts(base: usize, len: usize) -> (stack: Result<FiberStack, StackSwitchError>)
        ensures
            stack == FiberStack::at(base, len, 0, Allocator::Custom),
            stack matches Ok(stack) ==> stack.wf(),
    {
        match base.checked_add(len) {
            Some(top) => Ok(FiberStack { top, len, guard: 0, allocator: Allocator::Custom }),
            None => Err(StackSwitchError::StackAllocationFailed),
        }
    }

    /// The stack in `len` bytes at `base`, below which `guard` bytes are
    /// known to be inaccessible. The memory is managed by somebody else.
    /// Fails when the guard or the bytes do not fit the address space.
    pub fn from_guarded_parts(base: usize, len: usize, guard: usize) -> (stack: Result<
        FiberStack,
        StackSwitchError,
    >)
        ensures
            stack == FiberStack::at(base, len, guard, Allocator::Custom),
            stack matches Ok(stack) ==> stack.wf(),
    {
        if guard > base {
            return Err(StackSwitchError::StackAllocationFailed);
        }
        match base.checked_add(len) {
            Some(top) => Ok(FiberStack { top, len, guard, allocator: Allocator::Custom }),
            None => Err(StackSwitchError::StackAllocationFailed),
        }
    }

    /// Whether the memory is managed by somebody else.
    pub fn is_from_raw_parts(&self) -> (custom: bool)
        ensures
            custom == (self.allocator == Allocator::Custom),
    {
        match self.allocator {
            Allocator::Custom => true,
            _ => false,
        }
    }

    /// One past the highest usable address.
    pub fn top(&self) -> (top: Option<usize>)
        ensures
            top == Some(self.top),
    {
        Some(self.top)
    }

    /// Number of usable bytes.
    pub fn size(&self) -> (len: usize)
        ensures
            len == self.len,
    {
        self.len
    }

    /// The usable addresses: from `top - len` up to `top`. The guard is not
    /// among them.
    pub fn range(&self) -> (range: Option<std::ops::Range<usize>>)
        requires
            self.wf(),
        ensures
            range matches Some(range) && range.start == self.base() && range.end
                == self.top,
            range matches Some(range) ==> self.top - range.start == self.len,
            range matches Some(range) ==> forall|address: int|
                range.start <= address < range.end ==> !self.guards(address),
    {
        let base: usize = self.top - self.len;
        Some(base..self.top)
    }

    /// The guard addresses: the `guard_len` bytes below the usable ones.
    pub fn guard_range(&self) -> (range: std::ops::Range<usize>)
        requires
            self.wf(),
        ensures
            range.start == self.guard_base(),
            range.end == self.base(),
    {
        let base: usize = self.top - self.len;
        (base - self.guard)..base
    }

    /// The frame to write at the top of the stack so that the first switch
    /// to it calls the entry function with the given arguments.
    pub fn initialize(
        &self,
        func_ref: usize,
        caller_vmctx: usize,
        args_ptr: usize,
        args_capacity: usize,
    ) -> (pad: Launchpad)
        requires
            self.wf(),
            self.len >= LAUNCHPAD_SIZE,
        ensures
            pad.wf(),
            pad == (Launchpad {
                top_of_stack: self.top,
                stack_pointer: (self.top - LAUNCHPAD_SIZE) as usize,
                frame_pointer: (self.top - 16) as usize,
                func_ref,
                caller_vmctx,
                args_ptr,
                args_capacity,
            }),
            self.contains(pad.stack_pointer as int),
    {
        Launchpad {
            top_of_stack: self.top,
            stack_pointer: self.top - LAUNCHPAD_SIZE,
            frame_pointer: self.top - 16,
            func_ref,
            caller_vmctx,
            args_ptr,
            args_capacity,
        }
    }

    /// The switch that resumes the computation parked on this stack.
    pub fn resume(&self) -> (switch: Switch)
        ensures
            switch.top_of_stack == self.top,
            switch.payload == ControlEffect::Resume.encoding(),
    {
        Switch { top_of_stack: self.top, payload: ControlEffect::resume().encode() }
    }

    /// The switch that leaves this stack for its parent and hands over
    /// `payload`.
    pub fn suspend(&self, payload: ControlEffect) -> (switch: Switch)
        ensures
            switch.top_of_stack == self.top,
            switch.payload == payload.encoding(),
    {
        suspend_fiber(self.top, payload)
    }

    /// What has to happen to the memory when the stack is dropped.
    pub fn release(&self) -> (release: Release)
        requires
            self.wf(),
        ensures
            release == self.release_action(),
    {
        match self.allocator {
            Allocator::Mmap => Release::Unmap {
                base: self.top - self.len - self.guard,
                len: self.len + self.guard,
            },
            Allocator::Malloc => Release::Free { base: self.top - self.len, len: self.len },
            Allocator::Custom => Release::Keep,
        }
    }
}

/// The switch that leaves the stack with the given top for its parent and
/// hands over `payload`.
pub fn suspend_fiber(top_of_stack: usize, payload: ControlEffect) -> (switch: Switch)
    ensures
        switch.top_of_stack == top_of_stack,
        switch.payload == payload.encoding(),
{
    Switch { top_of_stack, payload: payload.encode() }
}

/// The way out of a running continuation: the top of its stack, through
/// which it switches back to its parent.
#[derive(Debug, Clone, Copy, PartialEq, Eq, Structural)]
pub struct Suspend(pub usize);

impl Suspend {
    /// The way out of the continuation whose stack has its top at `ptr`.
    pub fn from_top_ptr(ptr: usize) -> (suspend: Self)
        ensures
            suspend.0 == ptr,
    {
        Suspend(ptr)
    }

    /// The switch that leaves the continuation and hands over `payload`.
    pub fn switch(&self, payload: ControlEffect) -> (switch: Switch)
        ensures
            switch.top_of_stack == self.0,
            switch.payload == payload.encoding(),
    {
        suspend_fiber(self.0, payload)
    }
}

/// Of every well-formed stack: the usable range ends at the top, is as long
/// as the stack, and shares no address with the guard, which ends where the
/// usable range begins.
pub proof fn lemma_range_excludes_guard(stack: FiberStack)
    requires
        stack.wf(),
    ensures
        stack.top - stack.base() == stack.len,
        0 <= stack.guard_base() <= stack.base() <= stack.top,
        forall|address: int| !(stack.contains(address) && stack.guards(address)),
{
}

} // verus!
