use stack_switching::common::{
    find_handler, Array, CommonStackInformation, StackLimits, State,
    STACK_CHAIN_ABSENT_DISCRIMINANT, STACK_CHAIN_CONTINUATION_DISCRIMINANT,
    STACK_CHAIN_INITIAL_STACK_DISCRIMINANT,
};
use stack_switching::continuation::{StackChain, StackChainCell, VMContObj, VMContRef};
use stack_switching::fatpointer::{construct, deconstruct, pack, unpack};
use stack_switching::fiber_stack::FiberStack;
use stack_switching::translation_utils::resumetable_max_num_tag_payloads;

#[test]
fn state_discriminants() {
    assert_eq!(State::Fresh.discriminant(), 0);
    assert_eq!(State::Running.discriminant(), 1);
    assert_eq!(State::Parent.discriminant(), 2);
    assert_eq!(State::Suspended.discriminant(), 3);
    assert_eq!(State::Returned.discriminant(), 4);
}

#[test]
fn stack_chain_discriminants() {
    assert_eq!(STACK_CHAIN_ABSENT_DISCRIMINANT, 0);
    assert_eq!(STACK_CHAIN_INITIAL_STACK_DISCRIMINANT, 1);
    assert_eq!(STACK_CHAIN_CONTINUATION_DISCRIMINANT, 2);
    assert_eq!(StackChain::Absent.discriminant(), 0);
    assert_eq!(StackChain::InitialStack.discriminant(), 1);
    assert_eq!(StackChain::Continuation(17).discriminant(), 2);
    assert!(StackChain::InitialStack.is_initial_stack());
    assert!(!StackChain::Absent.is_initial_stack());
    assert!(!StackChain::Continuation(0).is_initial_stack());
    assert_eq!(StackChainCell::absent().0, StackChain::Absent);
}

#[test]
fn stack_limits() {
    assert_eq!(
        StackLimits::default(),
        StackLimits {
            stack_limit: 0,
            last_wasm_entry_fp: 0
        }
    );
    assert_eq!(
        StackLimits::with_stack_limit(0x1234),
        StackLimits {
            stack_limit: 0x1234,
            last_wasm_entry_fp: 0
        }
    );
}

#[test]
fn running_default_has_no_handlers() {
    let info = CommonStackInformation::running_default();
    assert_eq!(info.state, State::Running);
    assert_eq!(info.limits, StackLimits::default());
    assert_eq!(info.handlers.length, 0);
    assert_eq!(info.handlers.capacity, 0);
    assert!(info.handlers.data.is_empty());
    assert_eq!(info.first_switch_handler_index, 0);
    assert_eq!(info.suspend_handler(3), None);
    assert_eq!(info.switch_handler(3), None);
}

#[test]
fn array_is_bounded_by_its_capacity() {
    let mut array: Array<u128> = Array::empty();
    assert_eq!((array.length, array.capacity), (0, 0));
    assert!(!array.push(1));
    assert_eq!(array.length, 0);
    array.ensure_capacity(2);
    assert_eq!(array.capacity, 2);
    assert!(array.push(10));
    assert!(array.push(20));
    assert!(!array.push(30));
    assert_eq!(array.data, vec![10, 20]);
    assert_eq!(array.length, 2);
    assert_eq!(array.next_free_slot(), 2);
    array.ensure_capacity(1);
    assert_eq!(array.capacity, 2);
    array.ensure_capacity(3);
    assert_eq!(array.capacity, 3);
    assert_eq!(array.data, vec![10, 20]);
    assert!(array.push(30));
    array.reset();
    assert_eq!((array.length, array.capacity), (0, 3));
    assert!(array.data.is_empty());
    array.push(5);
    array.clear();
    assert_eq!((array.length, array.capacity), (0, 0));
    assert!(array.data.is_empty());
    let sized: Array<usize> = Array::with_capacity(4);
    assert_eq!((sized.length, sized.capacity), (0, 4));
}

#[test]
fn handlers_are_found_by_first_position() {
    let mut handlers: Array<usize> = Array::with_capacity(5);
    for tag in [7usize, 8, 7, 9, 8] {
        assert!(handlers.push(tag));
    }
    assert_eq!(find_handler(&handlers, 7, 0, 5), Some(0));
    assert_eq!(find_handler(&handlers, 7, 1, 5), Some(2));
    assert_eq!(find_handler(&handlers, 7, 3, 5), None);
    assert_eq!(find_handler(&handlers, 8, 0, 1), None);
    assert_eq!(find_handler(&handlers, 8, 0, 2), Some(1));
    assert_eq!(find_handler(&handlers, 9, 0, 0), None);
    assert_eq!(find_handler(&handlers, 6, 0, 5), None);
    let info = CommonStackInformation {
        limits: StackLimits::default(),
        state: State::Parent,
        handlers,
        first_switch_handler_index: 3,
    };
    assert_eq!(info.suspend_handler(7), Some(0));
    assert_eq!(info.suspend_handler(8), Some(1));
    assert_eq!(info.suspend_handler(9), None);
    assert_eq!(info.switch_handler(9), Some(3));
    assert_eq!(info.switch_handler(8), Some(4));
    assert_eq!(info.switch_handler(7), None);
}

#[test]
fn empty_control_block() {
    let mut contref = VMContRef::empty();
    assert_eq!(contref.common_stack_information.state, State::Fresh);
    assert_eq!(
        contref.common_stack_information.limits,
        StackLimits::default()
    );
    assert_eq!(contref.common_stack_information.handlers.length, 0);
    assert_eq!(contref.parent_chain, StackChain::Absent);
    assert_eq!(contref.last_ancestor, None);
    assert!(contref.fiber_stack().is_unallocated());
    assert_eq!((contref.args.length, contref.args.capacity), (0, 0));
    assert_eq!((contref.values.length, contref.values.capacity), (0, 0));
    assert_eq!(contref.revision, 0);
    contref.stack = FiberStack::from_raw_parts(0x1000, 0x1000).unwrap();
    let stack = contref.detach_stack();
    assert_eq!(stack, FiberStack::from_raw_parts(0x1000, 0x1000).unwrap());
    assert!(contref.fiber_stack().is_unallocated());
    assert_eq!(contref.revision, 0);
}

#[test]
fn handle_holds_slot_and_revision() {
    let handle = VMContObj::new(3, 9);
    assert_eq!(handle.contref, 3);
    assert_eq!(handle.revision, 9);
    assert_eq!(
        handle,
        VMContObj {
            revision: 9,
            contref: 3
        }
    );
}

#[test]
fn fat_pointer_lanes() {
    assert_eq!(construct(0, 0), 0);
    assert_eq!(construct(7, 0), 7);
    assert_eq!(construct(0, 1), 1u128 << 64);
    assert_eq!(
        construct(0x1122_3344_5566_7788, 0x99aa_bbcc_ddee_ff00),
        0x99aa_bbcc_ddee_ff00_1122_3344_5566_7788
    );
    assert_eq!(construct(u64::MAX, u64::MAX), u128::MAX);
    assert_eq!(
        deconstruct(0x99aa_bbcc_ddee_ff00_1122_3344_5566_7788),
        (0x1122_3344_5566_7788, 0x99aa_bbcc_ddee_ff00)
    );
    assert_eq!(deconstruct(u128::MAX), (u64::MAX, u64::MAX));
    assert_eq!(deconstruct(construct(5, 6)), (5, 6));
}

#[test]
fn fat_pointer_of_a_handle() {
    let handle = VMContObj::new(0, 0);
    assert_eq!(pack(handle), Some(1u128 << 64));
    assert_eq!(unpack(1u128 << 64), Some(handle));
    let handle = VMContObj::new(41, 7);
    assert_eq!(pack(handle), Some((42u128 << 64) | 7));
    assert_eq!(unpack(pack(handle).unwrap()), Some(handle));
    assert_eq!(unpack(0), None);
    assert_eq!(unpack(12345), None);
    assert_eq!(pack(VMContObj::new(usize::MAX, 1)), None);
    assert_eq!(
        unpack(u128::MAX),
        Some(VMContObj::new(usize::MAX - 1, u64::MAX))
    );
}

#[test]
fn max_num_tag_payloads() {
    let counts = [0usize, 3, 1, 7, 2];
    assert_eq!(resumetable_max_num_tag_payloads(&[0], &counts), 0);
    assert_eq!(resumetable_max_num_tag_payloads(&[1, 2], &counts), 3);
    assert_eq!(resumetable_max_num_tag_payloads(&[2, 1], &counts), 3);
    assert_eq!(resumetable_max_num_tag_payloads(&[4, 3, 0], &counts), 7);
    assert_eq!(resumetable_max_num_tag_payloads(&[2, 2, 2], &counts), 1);
    assert_eq!(resumetable_max_num_tag_payloads(&[0, 1, 2, 3, 4], &counts), 7);
}
