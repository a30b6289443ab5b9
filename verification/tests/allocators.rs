use stack_switching::common::StackSwitchingConfig;
use stack_switching::error::StackSwitchError;
use stack_switching::fiber_stack::{Allocator, FiberStack, Release};
use stack_switching::index_allocator::{SimpleIndexAllocator, SlotId};
use stack_switching::wasmfx_allocator::WasmFXAllocator;
use stack_switching::wasmfx_on_demand;
use stack_switching::wasmfx_pooling;

const KIB: usize = 1024;
const PAGE: usize = 4096;
const BASE: usize = 0x10_0000;

fn pool_of_two() -> wasmfx_pooling::InnerAllocator {
    let config = StackSwitchingConfig {
        stack_size: 64 * KIB,
    };
    wasmfx_pooling::InnerAllocator::with_page_size(&config, 2, PAGE, BASE).unwrap()
}

#[test]
fn default_stack_size_is_two_mebibytes() {
    assert_eq!(StackSwitchingConfig::default().stack_size, 2 * 1024 * 1024);
}

#[test]
fn index_allocator_hands_out_lowest_first() {
    let mut slots = SimpleIndexAllocator::new(3);
    assert_eq!(slots.allocate(), Some(SlotId(0)));
    assert_eq!(slots.allocate(), Some(SlotId(1)));
    assert_eq!(slots.allocate(), Some(SlotId(2)));
    assert_eq!(slots.allocate(), None);
    assert_eq!(slots.allocate(), None);
}

#[test]
fn index_allocator_reuses_last_freed_first() {
    let mut slots = SimpleIndexAllocator::new(3);
    slots.allocate();
    slots.allocate();
    slots.allocate();
    slots.free(SlotId(1));
    slots.free(SlotId(0));
    assert!(!slots.is_in_use(0));
    assert!(!slots.is_in_use(1));
    assert!(slots.is_in_use(2));
    assert!(!slots.is_in_use(3));
    assert_eq!(slots.allocate(), Some(SlotId(0)));
    assert_eq!(slots.allocate(), Some(SlotId(1)));
    assert_eq!(slots.allocate(), None);
    assert_eq!(SlotId(7).index(), 7);
}

#[test]
fn index_allocator_without_slots() {
    let mut slots = SimpleIndexAllocator::new(0);
    assert_eq!(slots.allocate(), None);
    assert!(!slots.is_in_use(0));
}

#[test]
fn slot_size_is_rounded_stack_plus_guard() {
    assert_eq!(wasmfx_pooling::slot_size(0, PAGE), Ok(0));
    assert_eq!(wasmfx_pooling::slot_size(0, 0), Ok(0));
    assert_eq!(wasmfx_pooling::slot_size(1, PAGE), Ok(2 * PAGE));
    assert_eq!(wasmfx_pooling::slot_size(64 * KIB, PAGE), Ok(64 * KIB + PAGE));
    assert_eq!(
        wasmfx_pooling::slot_size(64 * KIB + 1, PAGE),
        Ok(64 * KIB + 2 * PAGE)
    );
    assert_eq!(
        wasmfx_pooling::slot_size(usize::MAX, PAGE),
        Err(StackSwitchError::StackSizeExceedsMemory)
    );
    assert_eq!(
        wasmfx_pooling::slot_size(usize::MAX - 2 * PAGE + 2, PAGE),
        Err(StackSwitchError::StackSizeExceedsMemory)
    );
    assert_eq!(
        wasmfx_pooling::slot_size(1, 0),
        Err(StackSwitchError::StackSizeExceedsMemory)
    );
}

#[test]
fn allocation_size_is_slot_size_times_stacks() {
    let config = StackSwitchingConfig {
        stack_size: 64 * KIB,
    };
    assert_eq!(
        wasmfx_pooling::allocation_size(&config, 2, PAGE),
        Ok(2 * (64 * KIB + PAGE))
    );
    assert_eq!(
        wasmfx_pooling::allocation_size(&config, 1024, PAGE),
        Ok(1024 * (64 * KIB + PAGE))
    );
    assert_eq!(wasmfx_pooling::allocation_size(&config, 0, PAGE), Ok(0));
    let none = StackSwitchingConfig { stack_size: 0 };
    assert_eq!(wasmfx_pooling::allocation_size(&none, 1024, PAGE), Ok(0));
    let huge = StackSwitchingConfig {
        stack_size: usize::MAX / 2,
    };
    assert_eq!(
        wasmfx_pooling::allocation_size(&huge, 3, PAGE),
        Err(StackSwitchError::TotalSizeExceedsMemory)
    );
    let too_much = StackSwitchingConfig {
        stack_size: usize::MAX,
    };
    assert_eq!(
        wasmfx_pooling::allocation_size(&too_much, 1, PAGE),
        Err(StackSwitchError::StackSizeExceedsMemory)
    );
}

#[test]
fn allocation_size_on_this_machine() {
    let page_size = rustix::param::page_size();
    let config = StackSwitchingConfig { stack_size: 1 };
    assert_eq!(
        wasmfx_pooling::host_allocation_size(&config, 3),
        Ok(3 * 2 * page_size)
    );
    let pool = wasmfx_pooling::InnerAllocator::new(&config, 3, BASE).unwrap();
    assert_eq!(pool.page_size(), page_size);
    assert_eq!(pool.max_stacks(), 3);
    assert_eq!(
        pool.guard_pages(),
        vec![BASE, BASE + 2 * page_size, BASE + 4 * page_size]
    );
}

#[test]
fn pool_must_fit_above_its_base() {
    let config = StackSwitchingConfig {
        stack_size: 64 * KIB,
    };
    assert!(matches!(
        wasmfx_pooling::InnerAllocator::with_page_size(&config, 2, PAGE, usize::MAX - 100),
        Err(StackSwitchError::TotalSizeExceedsMemory)
    ));
    assert!(matches!(
        wasmfx_pooling::InnerAllocator::with_page_size(
            &config,
            2,
            PAGE,
            usize::MAX - 2 * (64 * KIB + PAGE) + 1
        ),
        Err(StackSwitchError::TotalSizeExceedsMemory)
    ));
    assert!(wasmfx_pooling::InnerAllocator::with_page_size(
        &config,
        2,
        PAGE,
        usize::MAX - 2 * (64 * KIB + PAGE)
    )
    .is_ok());
}

#[test]
fn pool_slots_need_room_for_the_first_frame() {
    let config = StackSwitchingConfig { stack_size: 1 };
    assert!(matches!(
        wasmfx_pooling::InnerAllocator::with_page_size(&config, 2, 32, BASE),
        Err(StackSwitchError::StackAllocationFailed)
    ));
    assert!(wasmfx_pooling::InnerAllocator::with_page_size(&config, 2, 64, BASE).is_ok());
}

#[test]
fn pool_guard_pages_start_each_slot() {
    let pool = pool_of_two();
    assert_eq!(pool.guard_pages(), vec![BASE, BASE + 64 * KIB + PAGE]);
    assert_eq!(pool.max_stacks(), 2);
    assert_eq!(pool.page_size(), PAGE);
}

#[test]
fn pool_of_two_stacks_refuses_a_third() {
    let mut pool = pool_of_two();
    let first = pool.allocate().unwrap();
    let second = pool.allocate().unwrap();
    assert_eq!(
        pool.allocate(),
        Err(StackSwitchError::CapacityExceeded { max_stacks: 2 })
    );
    assert_eq!(
        pool.allocate(),
        Err(StackSwitchError::CapacityExceeded { max_stacks: 2 })
    );
    assert_eq!(first.range().unwrap(), BASE + PAGE..BASE + PAGE + 64 * KIB);
    assert_eq!(first.guard_range(), BASE..BASE + PAGE);
    assert_eq!(
        second.range().unwrap(),
        BASE + 2 * PAGE + 64 * KIB..BASE + 2 * PAGE + 128 * KIB
    );
    assert_eq!(
        second.guard_range(),
        BASE + PAGE + 64 * KIB..BASE + 2 * PAGE + 64 * KIB
    );
    assert!(first.range().unwrap().end <= second.guard_range().start);
    assert_eq!(first.allocator, Allocator::Custom);
    assert_eq!(first.release(), Release::Keep);
    assert_eq!(pool.slot_of(&first), Some(SlotId(0)));
    assert_eq!(pool.slot_of(&second), Some(SlotId(1)));
}

#[test]
fn pooled_stack_comes_back_in_the_same_slot() {
    let mut pool = pool_of_two();
    let first = pool.allocate().unwrap();
    let second = pool.allocate().unwrap();
    let first_range = first.range().unwrap();
    let first_guard = first.guard_range();
    pool.deallocate(&first);
    assert_eq!(pool.slot_of(&first), None);
    assert_eq!(pool.slot_of(&second), Some(SlotId(1)));
    let again = pool.allocate().unwrap();
    assert_eq!(again, first);
    assert_eq!(again.range().unwrap(), first_range);
    assert_eq!(again.guard_range(), first_guard);
    assert_eq!(pool.slot_of(&again), Some(SlotId(0)));
    assert_eq!(
        pool.allocate(),
        Err(StackSwitchError::CapacityExceeded { max_stacks: 2 })
    );
    pool.deallocate(&second);
    pool.deallocate(&again);
    assert_eq!(pool.allocate().unwrap(), first);
    assert_eq!(pool.allocate().unwrap(), second);
}

#[test]
fn pool_knows_its_own_stacks_only() {
    let mut pool = pool_of_two();
    let first = pool.allocate().unwrap();
    let free_slot =
        FiberStack::from_guarded_parts(BASE + 2 * PAGE + 64 * KIB, 64 * KIB, PAGE).unwrap();
    assert_eq!(pool.slot_of(&first), Some(SlotId(0)));
    assert_eq!(pool.slot_of(&free_slot), None);
    let below = FiberStack::from_raw_parts(0x1000, 0x1000).unwrap();
    assert_eq!(pool.slot_of(&below), None);
    let misaligned = FiberStack::from_raw_parts(BASE + PAGE, 64 * KIB - 8).unwrap();
    assert_eq!(pool.slot_of(&misaligned), None);
    let beyond = FiberStack::from_raw_parts(BASE + 2 * (64 * KIB + PAGE), 64 * KIB + PAGE).unwrap();
    assert_eq!(pool.slot_of(&beyond), None);
    let at_base = FiberStack::from_raw_parts(BASE - 16, 16).unwrap();
    assert_eq!(pool.slot_of(&at_base), None);
}

#[test]
fn pool_without_stack_size_is_not_configured() {
    let config = StackSwitchingConfig { stack_size: 0 };
    let mut pool = wasmfx_pooling::InnerAllocator::with_page_size(&config, 4, PAGE, BASE).unwrap();
    assert_eq!(pool.allocate(), Err(StackSwitchError::PoolNotConfigured));
    assert_eq!(pool.guard_pages(), Vec::<usize>::new());
    let stack = FiberStack::from_raw_parts(BASE, PAGE).unwrap();
    assert_eq!(pool.slot_of(&stack), None);
}

#[test]
fn pool_without_slots_is_full() {
    let config = StackSwitchingConfig {
        stack_size: 64 * KIB,
    };
    let mut pool = wasmfx_pooling::InnerAllocator::with_page_size(&config, 0, PAGE, BASE).unwrap();
    assert_eq!(
        pool.allocate(),
        Err(StackSwitchError::CapacityExceeded { max_stacks: 0 })
    );
    assert_eq!(pool.guard_pages(), Vec::<usize>::new());
}

#[test]
fn on_demand_stack_lies_in_the_mapping_given() {
    let config = StackSwitchingConfig {
        stack_size: 64 * KIB,
    };
    let allocator = wasmfx_on_demand::InnerAllocator::with_page_size(&config, PAGE);
    assert_eq!(allocator.mapping_len(), Some(64 * KIB + PAGE));
    let stack = allocator.allocate(Some(0x40_0000)).unwrap();
    assert_eq!(stack.guard_range(), 0x40_0000..0x40_0000 + PAGE);
    assert_eq!(
        stack.range().unwrap(),
        0x40_0000 + PAGE..0x40_0000 + PAGE + 64 * KIB
    );
    assert_eq!(
        stack.release(),
        Release::Unmap {
            base: 0x40_0000,
            len: 64 * KIB + PAGE
        }
    );
    allocator.deallocate(&stack);
    let other = allocator.allocate(Some(0x80_0000)).unwrap();
    assert_eq!(other.guard_range().start, 0x80_0000);
}

#[test]
fn on_demand_fails_without_a_mapping() {
    let config = StackSwitchingConfig {
        stack_size: 64 * KIB,
    };
    let allocator = wasmfx_on_demand::InnerAllocator::with_page_size(&config, PAGE);
    assert_eq!(
        allocator.allocate(None),
        Err(StackSwitchError::StackAllocationFailed)
    );
    assert_eq!(
        allocator.allocate(Some(usize::MAX - 100)),
        Err(StackSwitchError::StackAllocationFailed)
    );
    let no_pages = wasmfx_on_demand::InnerAllocator::with_page_size(&config, 0);
    assert_eq!(no_pages.mapping_len(), None);
    assert_eq!(
        no_pages.allocate(Some(0x40_0000)),
        Err(StackSwitchError::StackAllocationFailed)
    );
    let tiny = StackSwitchingConfig { stack_size: 1 };
    let tiny_pages = wasmfx_on_demand::InnerAllocator::with_page_size(&tiny, 32);
    assert_eq!(
        tiny_pages.allocate(Some(0x40_0000)),
        Err(StackSwitchError::StackAllocationFailed)
    );
}

#[test]
fn on_demand_on_this_machine() {
    let page_size = rustix::param::page_size();
    let config = StackSwitchingConfig { stack_size: 1 };
    let allocator = wasmfx_on_demand::InnerAllocator::new(&config).unwrap();
    assert_eq!(allocator.mapping_len(), Some(2 * page_size));
    let stack = allocator.allocate(Some(0x40_0000)).unwrap();
    assert_eq!(stack.size(), page_size);
}

#[test]
fn allocator_in_either_mode() {
    let config = StackSwitchingConfig {
        stack_size: 64 * KIB,
    };
    let mut on_demand = WasmFXAllocator::on_demand(
        wasmfx_on_demand::InnerAllocator::with_page_size(&config, PAGE),
    );
    assert_eq!(on_demand.mapping_len(), Some(64 * KIB + PAGE));
    let stack = on_demand.allocate(Some(0x40_0000)).unwrap();
    assert_eq!(stack.allocator, Allocator::Mmap);
    assert!(on_demand.owns(&stack));
    on_demand.deallocate(&stack);
    assert_eq!(
        on_demand.allocate(None),
        Err(StackSwitchError::StackAllocationFailed)
    );

    let mut pooling = WasmFXAllocator::pooling(pool_of_two());
    assert_eq!(pooling.mapping_len(), None);
    let first = pooling.allocate(None).unwrap();
    let second = pooling.allocate(Some(0x40_0000)).unwrap();
    assert_eq!(first.guard_range().start, BASE);
    assert_eq!(second.guard_range().start, BASE + 64 * KIB + PAGE);
    assert!(pooling.owns(&first));
    assert!(!pooling.owns(&stack));
    assert_eq!(
        pooling.allocate(None),
        Err(StackSwitchError::CapacityExceeded { max_stacks: 2 })
    );
    pooling.deallocate(&first);
    assert!(!pooling.owns(&first));
    assert_eq!(pooling.allocate(None).unwrap(), first);
}

#[test]
fn default_allocator_works_on_demand() {
    let page_size = rustix::param::page_size();
    let config = StackSwitchingConfig { stack_size: 1 };
    let mut allocator = WasmFXAllocator::new(&config).unwrap();
    assert_eq!(allocator.mapping_len(), Some(2 * page_size));
    let stack = allocator.allocate(Some(0x40_0000)).unwrap();
    assert_eq!(stack.size(), page_size);
    assert_eq!(stack.allocator, Allocator::Mmap);
}
