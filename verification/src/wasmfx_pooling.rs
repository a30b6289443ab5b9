//! A pool of stacks: one reserved mapping, cut into slots of equal size.
//!
//! ```text
//! base                                                  base + max_stacks * stack_size
//! +-------+----------------+-------+----------------+---
//! | guard | usable         | guard | usable         | ...
//! +-------+----------------+-------+----------------+---
//! |<------ stack_size ---->|<------ stack_size ---->|
//! ```
//!
//! The embedder reserves the mapping and makes the guard pages inaccessible.
//! The pool decides which slot a stack gets and finds the slot of a stack
//! that comes back.

use crate::common::StackSwitchingConfig;
use crate::error::StackSwitchError;
use crate::fiber_stack::{
    host_page_size,
    lemma_round_up_is_least_multiple,
    round_up,
    round_up_to_page,
    Allocator,
    FiberStack,
};
use crate::index_allocator::{all_free, SimpleIndexAllocator, SlotId};
use crate::layout::LAUNCHPAD_SIZE;
use vstd::prelude::*;

verus! {

/// The bytes of one slot for stacks of `stack_size` usable bytes: the
/// request rounded up to whole pages and one guard page, or nothing where
/// no stacks are asked for.
pub open spec fn slot_len(stack_size: int, page_size: int) -> int {
    if stack_size == 0 {
        0
    } else {
        round_up(stack_size, page_size) + page_size
    }
}

/// What a pool is, seen from outside.
pub struct PoolView {
    /// Lowest address of the mapping.
    pub base: usize,
    /// Bytes of one slot, guard included. Zero when the pool holds no
    /// stacks.
    pub stack_size: usize,
    /// Usable bytes that were asked for each stack. The usable part of a
    /// slot is this number rounded up to whole pages.
    pub configured_size: usize,
    /// Bytes of the guard at the low end of each slot.
    pub page_size: usize,
    /// Number of slots.
    pub max_stacks: usize,
    /// The free slots; the last one is handed out next.
    pub free: Seq<u32>,
}

impl PoolView {
    /// The slots lie within the address space, each has room for a guard
    /// and a usable part, and the free slots are distinct slots of the pool.
    pub open spec fn wf(&self) -> bool {
        &&& self.stack_size > 0 ==> 0 < self.page_size && self.page_size + LAUNCHPAD_SIZE
            <= self.stack_size
        &&& self.stack_size > 0 ==> self.configured_size + self.page_size <= self.stack_size
        &&& self.base + self.stack_size * self.max_stacks <= usize::MAX
        &&& self.max_stacks <= u32::MAX
        &&& self.free.no_duplicates()
        &&& forall|j: int| 0 <= j < self.free.len() ==> (#[trigger] self.free[j] as int)
            < self.max_stacks
    }

    /// Number of bytes of the mapping.
    pub open spec fn mapping_len(&self) -> int {
        self.stack_size * self.max_stacks
    }

    /// Lowest address of slot `index`, where its guard begins.
    pub open spec fn slot_base(&self, index: int) -> int {
        self.base + index * self.stack_size
    }

    /// Lowest usable address of slot `index`, where its guard ends.
    pub open spec fn slot_usable_base(&self, index: int) -> int {
        self.slot_base(index) + self.page_size
    }

    /// One past the highest address of slot `index`.
    pub open spec fn slot_top(&self, index: int) -> int {
        self.slot_base(index) + self.stack_size
    }

    /// Number of usable bytes of a slot.
    pub open spec fn usable_len(&self) -> int {
        self.stack_size - self.page_size
    }

    /// The stack of slot `index`.
    pub open spec fn stack_of(&self, index: int) -> FiberStack {
        FiberStack {
            top: self.slot_top(index) as usize,
            len: self.usable_len() as usize,
            guard: self.page_size,
            allocator: Allocator::Custom,
        }
    }

    /// What the next allocation returns.
    pub open spec fn next_stack(&self) -> Result<FiberStack, StackSwitchError> {
        match self.next_slot() {
            Ok(index) => Ok(self.stack_of(index as int)),
            Err(error) => Err(error),
        }
    }

    /// Whether slot `index` exists and is checked out.
    pub open spec fn is_allocated(&self, index: int) -> bool {
        0 <= index < self.max_stacks && !self.free.contains(index as u32)
    }

    /// Number of stacks that are checked out.
    pub open spec fn allocated_count(&self) -> int {
        self.max_stacks - self.free.len()
    }

    /// The slot that the next allocation hands out, or why there is none.
    pub open spec fn next_slot(&self) -> Result<u32, StackSwitchError> {
        if self.stack_size == 0 {
            Err(StackSwitchError::PoolNotConfigured)
        } else if self.free.len() == 0 {
            Err(StackSwitchError::CapacityExceeded { max_stacks: self.max_stacks })
        } else {
            Ok(self.free.last())
        }
    }

    /// The pool after an allocation was asked for.
    pub open spec fn after_allocate(&self) -> PoolView {
        if self.next_slot() is Ok {
            PoolView { free: self.free.drop_last(), ..*self }
        } else {
            *self
        }
    }

    /// The checked-out slot whose stack has its top at `top`, if there is
    /// one.
    pub open spec fn slot_of_top(&self, top: int) -> Option<u32> {
        let offset = top - self.base;
        let index = offset / (self.stack_size as int) - 1;
        if self.stack_size > 0 && offset >= self.stack_size && offset % (self.stack_size as int)
            == 0 && self.is_allocated(index) {
            Some(index as u32)
        } else {
            None
        }
    }

    /// The pool after slot `index` came back.
    pub open spec fn after_deallocate(&self, index: u32) -> PoolView {
        PoolView { free: self.free.push(index), ..*self }
    }

    /// The addresses of the guards, slot by slot; none where the mapping is
    /// empty.
    pub open spec fn guard_pages(&self) -> Seq<usize> {
        if self.mapping_len() == 0 {
            Seq::empty()
        } else {
            Seq::new(self.max_stacks as nat, |index: int| self.slot_base(index) as usize)
        }
    }
}

/// Slot `index` of `max_stacks` slots of `stack_size` bytes begins and ends
/// within the first `max_stacks * stack_size` bytes.
pub proof fn lemma_slot_within_pool(index: int, max_stacks: int, stack_size: int)
    requires
        0 <= index < max_stacks,
        0 <= stack_size,
    ensures
        0 <= index * stack_size,
        index * stack_size + stack_size <= max_stacks * stack_size,
        index * stack_size + stack_size == (index + 1) * stack_size,
{
    assert(0 <= index * stack_size) by (nonlinear_arith)
        requires
            0 <= index,
            0 <= stack_size,
    ;
    assert(index * stack_size + stack_size == (index + 1) * stack_size) by (nonlinear_arith);
    assert((index + 1) * stack_size <= max_stacks * stack_size) by (nonlinear_arith)
        requires
            index + 1 <= max_stacks,
            0 <= stack_size,
    ;
}

/// Slots with different indices share no byte: the lower one ends before the
/// higher one begins.
pub proof fn lemma_slots_ordered(lower: int, higher: int, stack_size: int)
    requires
        0 <= lower < higher,
        0 <= stack_size,
    ensures
        lower * stack_size + stack_size <= higher * stack_size,
{
    assert(lower * stack_size + stack_size == (lower + 1) * stack_size) by (nonlinear_arith);
    assert((lower + 1) * stack_size <= higher * stack_size) by (nonlinear_arith)
        requires
            lower + 1 <= higher,
            0 <= stack_size,
    ;
}

/// The usable part of every slot lies within the mapping and shares no byte
/// with the guard of any slot, its own included.
pub proof fn lemma_usable_part_excludes_guards(pool: PoolView, index: int, other: int)
    requires
        pool.wf(),
        pool.stack_size > 0,
        0 <= index < pool.max_stacks,
        0 <= other < pool.max_stacks,
    ensures
        pool.base <= pool.slot_base(index),
        pool.slot_base(index) < pool.slot_usable_base(index) < pool.slot_top(index),
        pool.slot_top(index) <= pool.base + pool.mapping_len(),
        pool.slot_top(index) - pool.slot_usable_base(index) == pool.usable_len(),
        pool.slot_usable_base(other) <= pool.slot_usable_base(index) || pool.slot_top(index)
            <= pool.slot_base(other),
        index != other ==> pool.slot_top(other) <= pool.slot_base(index) || pool.slot_top(index)
            <= pool.slot_base(other),
{
    let size = pool.stack_size as int;
    lemma_slot_within_pool(index, pool.max_stacks as int, size);
    lemma_slot_within_pool(other, pool.max_stacks as int, size);
    assert(pool.stack_size * pool.max_stacks == pool.max_stacks * pool.stack_size)
        by (nonlinear_arith);
    if index < other {
        lemma_slots_ordered(index, other, size);
    } else if other < index {
        lemma_slots_ordered(other, index, size);
    }
}

/// The top of the stack of a checked-out slot identifies the slot, and only
/// tops of checked-out slots identify one.
pub proof fn lemma_slot_of_top(pool: PoolView, top: int, index: int)
    requires
        pool.wf(),
        pool.stack_size > 0,
    ensures
        pool.is_allocated(index) ==> pool.slot_of_top(pool.slot_top(index)) == Some(index as u32),
        pool.slot_of_top(top) == Some(index as u32) && 0 <= index <= u32::MAX ==> pool.is_allocated(
            index,
        ) && pool.slot_top(index) == top,
{
    let size = pool.stack_size as int;
    if pool.is_allocated(index) {
        let offset = pool.slot_top(index) - pool.base;
        assert(offset == (index + 1) * size) by (nonlinear_arith)
            requires
                offset == index * size + size,
        ;
        vstd::arithmetic::div_mod::lemma_fundamental_div_mod_converse(offset, size, index + 1, 0);
        lemma_slot_within_pool(index, pool.max_stacks as int, size);
    }
    if pool.slot_of_top(top) == Some(index as u32) && 0 <= index <= u32::MAX {
        let offset = top - pool.base;
        vstd::arithmetic::div_mod::lemma_fundamental_div_mod(offset, size);
        let found = offset / size - 1;
        assert(found == index);
        assert(offset == index * size + size) by (nonlinear_arith)
            requires
                offset == size * (offset / size),
                index == offset / size - 1,
        ;
    }
}

/// A stack that is given back is the next to be handed out, and the pool is
/// then as it was before the stack was given back: the slot is the same, so
/// the stack again lies in its usable part, above its guard.
pub proof fn lemma_reallocation_reuses_slot(pool: PoolView, index: u32)
    requires
        pool.wf(),
        pool.stack_size > 0,
        pool.is_allocated(index as int),
    ensures
        pool.after_deallocate(index).wf(),
        pool.after_deallocate(index).next_slot() == Ok::<u32, StackSwitchError>(index),
        pool.after_deallocate(index).after_allocate() == pool,
{
    let returned = pool.after_deallocate(index);
    assert(returned.free.drop_last() =~= pool.free);
    assert(returned.free.no_duplicates());
}

/// A pool with a free slot hands it out; a pool without one fails with the
/// capacity error and stays as it is. After `max_stacks` allocations from a
/// fresh pool no slot is free.
pub proof fn lemma_capacity_is_enforced(pool: PoolView)
    requires
        pool.wf(),
        pool.stack_size > 0,
    ensures
        pool.allocated_count() < pool.max_stacks ==> pool.next_slot() is Ok
            && pool.after_allocate().allocated_count() == pool.allocated_count() + 1,
        pool.allocated_count() == pool.max_stacks ==> pool.next_slot() == Err::<
            u32,
            StackSwitchError,
        >(StackSwitchError::CapacityExceeded { max_stacks: pool.max_stacks })
            && pool.after_allocate() == pool,
        pool.next_slot() matches Ok(index) ==> !pool.is_allocated(index as int)
            && pool.after_allocate().is_allocated(index as int) && pool.after_allocate().wf(),
{
    if pool.free.len() > 0 {
        let index = pool.free.last();
        assert(pool.free[pool.free.len() - 1] == index);
        assert(pool.free.contains(index));
        let after = pool.after_allocate();
        if after.free.contains(index) {
            let j = choose|j: int| 0 <= j < after.free.len() && after.free[j] == index;
            assert(pool.free[j] == index);
        }
    }
}

/// Handing out a stack leaves every stack that was checked out before
/// checked out. The stack handed out was not checked out before, and is
/// afterwards.
pub proof fn lemma_allocate_keeps_owned(pool: PoolView)
    requires
        pool.wf(),
        pool.next_slot() is Ok,
    ensures
        pool.after_allocate().wf(),
        pool.slot_of_top(pool.stack_of(pool.next_slot().unwrap() as int).top as int) is None,
        pool.after_allocate().slot_of_top(
            pool.stack_of(pool.next_slot().unwrap() as int).top as int,
        ) is Some,
        pool.stack_of(pool.next_slot().unwrap() as int).wf(),
        pool.stack_of(pool.next_slot().unwrap() as int).len >= LAUNCHPAD_SIZE,
        forall|top: int| #[trigger]
            pool.slot_of_top(top) is Some ==> pool.after_allocate().slot_of_top(top)
                == pool.slot_of_top(top),
{
    let index = pool.next_slot().unwrap();
    let after = pool.after_allocate();
    let size = pool.stack_size as int;
    lemma_capacity_is_enforced(pool);
    lemma_slot_within_pool(index as int, pool.max_stacks as int, size);
    assert(pool.stack_size * pool.max_stacks == pool.max_stacks * pool.stack_size)
        by (nonlinear_arith);
    let top = pool.slot_top(index as int);
    lemma_slot_of_top(after, top, index as int);
    let offset = top - pool.base;
    assert(offset == (index + 1) * size) by (nonlinear_arith)
        requires
            offset == index * size + size,
    ;
    vstd::arithmetic::div_mod::lemma_fundamental_div_mod_converse(offset, size, index + 1, 0);
    assert forall|top: int| #[trigger] pool.slot_of_top(top) is Some implies after.slot_of_top(
        top,
    ) == pool.slot_of_top(top) by {
        let found = (top - pool.base) / size - 1;
        assert(pool.is_allocated(found));
        if after.free.contains(found as u32) {
            let j = choose|j: int| 0 <= j < after.free.len() && after.free[j] == found as u32;
            assert(pool.free[j] == found as u32);
        }
    }
}

/// Taking a stack back leaves every other stack that was checked out
/// checked out. The stack taken back is not checked out afterwards.
pub proof fn lemma_deallocate_keeps_owned(pool: PoolView, freed: int)
    requires
        pool.wf(),
        pool.slot_of_top(freed) is Some,
    ensures
        pool.after_deallocate(pool.slot_of_top(freed).unwrap()).wf(),
        pool.after_deallocate(pool.slot_of_top(freed).unwrap()).slot_of_top(freed) is None,
        forall|top: int|
            top != freed && #[trigger] pool.slot_of_top(top) is Some ==> pool.after_deallocate(
                pool.slot_of_top(freed).unwrap(),
            ).slot_of_top(top) == pool.slot_of_top(top),
{
    let index = pool.slot_of_top(freed).unwrap();
    let after = pool.after_deallocate(index);
    let size = pool.stack_size as int;
    lemma_slot_of_top(pool, freed, index as int);
    assert(after.free[pool.free.len() as int] == index);
    assert(after.free.contains(index));
    assert forall|top: int|
        top != freed && #[trigger] pool.slot_of_top(top) is Some implies after.slot_of_top(top)
        == pool.slot_of_top(top) by {
        let found = (top - pool.base) / size - 1;
        lemma_slot_of_top(pool, top, found);
        assert(found != index);
        if after.free.contains(found as u32) {
            let j = choose|j: int| 0 <= j < after.free.len() && after.free[j] == found as u32;
            assert(pool.free[j] == found as u32);
        }
    }
}

/// A pool of stacks in one mapping.
#[derive(Debug)]
pub struct InnerAllocator {
    /// Lowest address of the mapping.
    mapping_base: usize,
    /// Bytes of one slot, guard included.
    stack_size: usize,
    /// Usable bytes that were asked for each stack.
    configured_size: usize,
    /// Number of slots.
    max_stacks: usize,
    /// Bytes of a guard.
    page_size: usize,
    /// Which slots are checked out.
    index_allocator: SimpleIndexAllocator,
}

impl View for InnerAllocator {
    type V = PoolView;

    closed spec fn view(&self) -> PoolView {
        PoolView {
            base: self.mapping_base,
            stack_size: self.stack_size,
            configured_size: self.configured_size,
            page_size: self.page_size,
            max_stacks: self.max_stacks,
            free: self.index_allocator.free_slots(),
        }
    }
}

/// The bytes of one slot for stacks of `stack_size` usable bytes with pages
/// of `page_size` bytes. Fails when a slot does not fit the address space,
/// or stacks are asked for and there is no page size.
pub fn slot_size(stack_size: usize, page_size: usize) -> (size: Result<usize, StackSwitchError>)
    ensures
        size == if stack_size == 0 {
            Ok::<usize, StackSwitchError>(0)
        } else if page_size > 0 && slot_len(stack_size as int, page_size as int) <= usize::MAX {
            Ok(slot_len(stack_size as int, page_size as int) as usize)
        } else {
            Err(StackSwitchError::StackSizeExceedsMemory)
        },
{
    if stack_size == 0 {
        return Ok(0);
    }
    proof {
        if page_size > 0 {
            lemma_round_up_is_least_multiple(stack_size as int, page_size as int);
        }
    }
    let rounded: usize = match round_up_to_page(stack_size, page_size) {
        Some(rounded) => rounded,
        None => {
            return Err(StackSwitchError::StackSizeExceedsMemory);
        },
    };
    match rounded.checked_add(page_size) {
        Some(size) => Ok(size),
        None => Err(StackSwitchError::StackSizeExceedsMemory),
    }
}

/// The bytes of the mapping for a pool of `max_stacks` stacks. Fails when a
/// slot, or all slots together, do not fit the address space.
pub fn allocation_size(config: &StackSwitchingConfig, max_stacks: u32, page_size: usize) -> (size:
    Result<usize, StackSwitchError>)
    ensures
        size == allocation_size_result(config.stack_size, max_stacks, page_size),
{
    let slot: usize = match slot_size(config.stack_size, page_size) {
        Ok(slot) => slot,
        Err(error) => {
            return Err(error);
        },
    };
    match slot.checked_mul(max_stacks as usize) {
        Some(size) => Ok(size),
        None => Err(StackSwitchError::TotalSizeExceedsMemory),
    }
}

/// What `slot_size` returns.
pub open spec fn slot_size_result(stack_size: usize, page_size: usize) -> Result<
    usize,
    StackSwitchError,
> {
    if stack_size == 0 {
        Ok(0)
    } else if page_size > 0 && slot_len(stack_size as int, page_size as int) <= usize::MAX {
        Ok(slot_len(stack_size as int, page_size as int) as usize)
    } else {
        Err(StackSwitchError::StackSizeExceedsMemory)
    }
}

/// What `allocation_size` returns.
pub open spec fn allocation_size_result(stack_size: usize, max_stacks: u32, page_size: usize)
    -> Result<usize, StackSwitchError> {
    match slot_size_result(stack_size, page_size) {
        Err(error) => Err(error),
        Ok(slot) => if slot * max_stacks <= usize::MAX {
            Ok((slot * max_stacks) as usize)
        } else {
            Err(StackSwitchError::TotalSizeExceedsMemory)
        },
    }
}

/// What a pool laid out at `mapping_base` is, or why there is none.
pub open spec fn pool_layout(
    stack_size: usize,
    max_stacks: u32,
    page_size: usize,
    mapping_base: usize,
) -> Result<PoolView, StackSwitchError> {
    match pool_slot_size(stack_size, max_stacks, page_size, mapping_base) {
        Err(error) => Err(error),
        Ok(slot) => Ok(
            PoolView {
                base: mapping_base,
                stack_size: slot,
                configured_size: stack_size,
                page_size,
                max_stacks: max_stacks as usize,
                free: all_free(max_stacks as nat),
            },
        ),
    }
}

/// The view of a pool that was made, or why none was.
pub open spec fn layout_of(pool: Result<InnerAllocator, StackSwitchError>) -> Result<
    PoolView,
    StackSwitchError,
> {
    match pool {
        Ok(pool) => Ok(pool@),
        Err(error) => Err(error),
    }
}

/// Why no pool can be laid out at `mapping_base`, or the size of its slots.
pub open spec fn pool_slot_size(
    stack_size: usize,
    max_stacks: u32,
    page_size: usize,
    mapping_base: usize,
) -> Result<usize, StackSwitchError> {
    match slot_size_result(stack_size, page_size) {
        Err(error) => Err(error),
        Ok(slot) => if mapping_base + slot * max_stacks > usize::MAX {
            Err(StackSwitchError::TotalSizeExceedsMemory)
        } else if slot > 0 && slot < page_size + LAUNCHPAD_SIZE {
            Err(StackSwitchError::StackAllocationFailed)
        } else {
            Ok(slot)
        },
    }
}

/// The bytes of the mapping for a pool of `max_stacks` stacks on this
/// machine: what `allocation_size` returns for the page size of the
/// machine.
pub fn host_allocation_size(config: &StackSwitchingConfig, max_stacks: u32) -> (size: Result<
    usize,
    StackSwitchError,
>)
    ensures
        exists|page_size: usize|
            size == #[trigger] allocation_size_result(config.stack_size, max_stacks, page_size),
        config.stack_size == 0 ==> size == Ok::<usize, StackSwitchError>(0),
{
    let page_size: usize = host_page_size();
    let size = allocation_size(config, max_stacks, page_size);
    assert(size == allocation_size_result(config.stack_size, max_stacks, page_size));
    size
}

impl InnerAllocator {
    /// The pool is laid out within the address space and its bookkeeping is
    /// consistent.
    pub closed spec fn wf(&self) -> bool {
        &&& self@.wf()
        &&& self.index_allocator.wf()
        &&& self.index_allocator.capacity() == self.max_stacks
    }

    /// A well-formed pool has a well-formed view.
    pub proof fn lemma_view_wf(&self)
        requires
            self.wf(),
        ensures
            self@.wf(),
    {
    }

    /// A pool of `max_stacks` free stacks in a mapping at `mapping_base` of
    /// `allocation_size(config, max_stacks, page_size)` bytes. Fails when
    /// the slots do not fit the address space above `mapping_base`, or a
    /// slot has no room for the first frame of a stack.
    pub fn with_page_size(
        config: &StackSwitchingConfig,
        max_stacks: u32,
        page_size: usize,
        mapping_base: usize,
    ) -> (pool: Result<InnerAllocator, StackSwitchError>)
        ensures
            layout_of(pool) == pool_layout(config.stack_size, max_stacks, page_size, mapping_base),
            pool matches Ok(pool) ==> pool.wf(),
    {
        let size: usize = match allocation_size(config, max_stacks, page_size) {
            Ok(size) => size,
            Err(error) => {
                return Err(error);
            },
        };
        if mapping_base.checked_add(size).is_none() {
            return Err(StackSwitchError::TotalSizeExceedsMemory);
        }
        let stack_size: usize = match slot_size(config.stack_size, page_size) {
            Ok(slot) => slot,
            Err(error) => {
                return Err(error);
            },
        };
        if stack_size > 0 && stack_size - page_size < LAUNCHPAD_SIZE {
            return Err(StackSwitchError::StackAllocationFailed);
        }
        let pool = InnerAllocator {
            mapping_base,
            stack_size,
            configured_size: config.stack_size,
            max_stacks: max_stacks as usize,
            page_size,
            index_allocator: SimpleIndexAllocator::new(max_stacks),
        };
        proof {
            pool.index_allocator.lemma_free_slots_distinct();
            if config.stack_size > 0 && page_size > 0 {
                lemma_round_up_is_least_multiple(config.stack_size as int, page_size as int);
            }
        }
        Ok(pool)
    }

    /// A pool of `max_stacks` free stacks in a mapping at `mapping_base` of
    /// `host_allocation_size(config, max_stacks)` bytes: what
    /// `with_page_size` returns for the page size of this machine.
    pub fn new(config: &StackSwitchingConfig, max_stacks: u32, mapping_base: usize) -> (pool:
        Result<InnerAllocator, StackSwitchError>)
        ensures
            exists|page_size: usize|
                layout_of(pool) == #[trigger] pool_layout(
                    config.stack_size,
                    max_stacks,
                    page_size,
                    mapping_base,
                ),
            pool matches Ok(pool) ==> pool.wf() && pool@.base == mapping_base && pool@.max_stacks
                == max_stacks && pool@.free == all_free(max_stacks as nat) && (pool@.stack_size
                == 0 <==> config.stack_size == 0),
            config.stack_size == 0 ==> pool is Ok,
    {
        let page_size: usize = host_page_size();
        proof {
            if config.stack_size > 0 && page_size > 0 {
                lemma_round_up_is_least_multiple(config.stack_size as int, page_size as int);
            }
        }
        let pool = InnerAllocator::with_page_size(config, max_stacks, page_size, mapping_base);
        assert(0usize * max_stacks == 0) by (nonlinear_arith);
        assert(layout_of(pool) == pool_layout(
            config.stack_size,
            max_stacks,
            page_size,
            mapping_base,
        ));
        pool
    }

    /// Number of slots.
    pub fn max_stacks(&self) -> (max_stacks: usize)
        ensures
            max_stacks == self@.max_stacks,
    {
        self.max_stacks
    }

    /// Usable bytes that were asked for each stack.
    pub fn configured_size(&self) -> (size: usize)
        ensures
            size == self@.configured_size,
    {
        self.configured_size
    }

    /// Bytes of a guard.
    pub fn page_size(&self) -> (page_size: usize)
        ensures
            page_size == self@.page_size,
    {
        self.page_size
    }

    /// The addresses at which the embedder makes one page inaccessible.
    pub fn guard_pages(&self) -> (pages: Vec<usize>)
        requires
            self.wf(),
        ensures
            pages@ == self@.guard_pages(),
    {
        let mut pages: Vec<usize> = Vec::new();
        if self.stack_size == 0 || self.max_stacks == 0 {
            proof {
                assert(self.stack_size * self.max_stacks == 0) by (nonlinear_arith)
                    requires
                        self.stack_size == 0 || self.max_stacks == 0,
                ;
            }
            return pages;
        }
        proof {
            assert(self.stack_size * self.max_stacks > 0) by (nonlinear_arith)
                requires
                    self.stack_size > 0,
                    self.max_stacks > 0,
            ;
        }
        let mut index: usize = 0;
        while index < self.max_stacks
            invariant
                self.wf(),
                index <= self.max_stacks,
                pages@.len() == index,
                forall|i: int| 0 <= i < index ==> pages@[i] == self@.slot_base(i),
            decreases self.max_stacks - index,
        {
            proof {
                lemma_slot_within_pool(
                    index as int,
                    self.max_stacks as int,
                    self.stack_size as int,
                );
                assert(self.stack_size * self.max_stacks == self.max_stacks * self.stack_size)
                    by (nonlinear_arith);
            }
            pages.push(self.mapping_base + index * self.stack_size);
            index = index + 1;
        }
        assert(pages@ =~= self@.guard_pages());
        pages
    }

    /// Checks out the stack of the free slot that came back last. Fails when
    /// the pool holds no stacks, or all of them are checked out; the pool is
    /// then unchanged.
    pub fn allocate(&mut self) -> (stack: Result<FiberStack, StackSwitchError>)
        requires
            old(self).wf(),
        ensures
            final(self).wf(),
            final(self)@ == old(self)@.after_allocate(),
            stack == old(self)@.next_stack(),
            stack matches Ok(stack) ==> stack.wf() && stack.len >= LAUNCHPAD_SIZE && stack.len
                >= old(self)@.configured_size,
    {
        if self.stack_size == 0 {
            return Err(StackSwitchError::PoolNotConfigured);
        }
        proof {
            self.index_allocator.lemma_free_slots_distinct();
        }
        let id: SlotId = match self.index_allocator.allocate() {
            Some(id) => id,
            None => {
                return Err(StackSwitchError::CapacityExceeded { max_stacks: self.max_stacks });
            },
        };
        let index: usize = id.index();
        proof {
            self.index_allocator.lemma_free_slots_distinct();
            lemma_slot_within_pool(index as int, self.max_stacks as int, self.stack_size as int);
            assert(self.stack_size * self.max_stacks == self.max_stacks * self.stack_size)
                by (nonlinear_arith);
        }
        let bottom_of_stack: usize = self.mapping_base + index * self.stack_size + self.page_size;
        let size_without_guard: usize = self.stack_size - self.page_size;
        FiberStack::from_guarded_parts(bottom_of_stack, size_without_guard, self.page_size)
    }

    /// The checked-out slot that `stack` belongs to, judged by its top.
    pub fn slot_of(&self, stack: &FiberStack) -> (slot: Option<SlotId>)
        requires
            self.wf(),
        ensures
            match self@.slot_of_top(stack.top as int) {
                Some(index) => slot == Some(SlotId(index)),
                None => slot is None,
            },
    {
        if self.stack_size == 0 {
            return None;
        }
        let top: usize = match stack.top() {
            Some(top) => top,
            None => {
                return None;
            },
        };
        if top < self.mapping_base {
            return None;
        }
        let offset: usize = top - self.mapping_base;
        if offset < self.stack_size || offset % self.stack_size != 0 {
            return None;
        }
        assert(offset as int / self.stack_size as int >= 1) by (nonlinear_arith)
            requires
                offset >= self.stack_size > 0,
        ;
        let index: usize = offset / self.stack_size - 1;
        if index >= self.max_stacks {
            return None;
        }
        if self.index_allocator.is_in_use(index as u32) {
            Some(SlotId(index as u32))
        } else {
            None
        }
    }

    /// Takes back a stack that this pool handed out. Its slot is the next to
    /// be handed out.
    pub fn deallocate(&mut self, stack: &FiberStack)
        requires
            old(self).wf(),
            old(self)@.slot_of_top(stack.top as int) is Some,
        ensures
            final(self).wf(),
            final(self)@ == old(self)@.after_deallocate(
                old(self)@.slot_of_top(stack.top as int).unwrap(),
            ),
    {
        match self.slot_of(stack) {
            Some(id) => {
                proof {
                    self.index_allocator.lemma_free_slots_distinct();
                }
                self.index_allocator.free(id);
                proof {
                    self.index_allocator.lemma_free_slots_distinct();
                }
            },
            None => {},
        }
    }
}

} // verus!
