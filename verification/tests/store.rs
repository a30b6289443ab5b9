use stack_switching::common::{Array, StackLimits, StackSwitchingConfig, State};
use stack_switching::continuation::{StackChain, VMContObj};
use stack_switching::control_effect::ControlEffect;
use stack_switching::error::StackSwitchError;
use stack_switching::fiber_stack::{Release, Switch, SwitchOver};
use stack_switching::layout::Launchpad;
use stack_switching::store::{
    cont_new, cont_obj_ensure_payloads_additional_capacity, cont_obj_get_next_free_payload_slot,
    cont_obj_get_payloads, cont_obj_get_results, cont_obj_push_payload, cont_obj_push_result,
    cont_obj_reset_payloads, cont_obj_reset_results, cont_ref_get_cont_obj, cont_return,
    drop_cont_obj, new_cont_ref, resume, suspend, switch, Store,
};
use stack_switching::wasmfx_allocator::WasmFXAllocator;
use stack_switching::wasmfx_on_demand;
use stack_switching::wasmfx_pooling;

const KIB: usize = 1024;
const PAGE: usize = 4096;
const BASE: usize = 0x10_0000;
const SLOT: usize = 64 * KIB + PAGE;
const FUNC: usize = 0xF000;
const VMCTX: usize = 0xE000;

fn pooled_store(max_stacks: u32) -> Store {
    let config = StackSwitchingConfig {
        stack_size: 64 * KIB,
    };
    let pool =
        wasmfx_pooling::InnerAllocator::with_page_size(&config, max_stacks, PAGE, BASE).unwrap();
    Store::new(WasmFXAllocator::pooling(pool), 32 * KIB)
}

fn on_demand_store() -> Store {
    let config = StackSwitchingConfig {
        stack_size: 64 * KIB,
    };
    let allocator = wasmfx_on_demand::InnerAllocator::with_page_size(&config, PAGE);
    Store::new(WasmFXAllocator::on_demand(allocator), 32 * KIB)
}

fn handlers(tags: &[usize]) -> Array<usize> {
    let mut list = Array::with_capacity(tags.len() as u32);
    for tag in tags {
        assert!(list.push(*tag));
    }
    list
}

fn create(store: &mut Store) -> usize {
    cont_new(store, FUNC, VMCTX, 1, 1, None).unwrap().0
}

fn effect(switch: Switch) -> ControlEffect {
    ControlEffect::decode(switch.payload).unwrap()
}

#[test]
fn new_store_runs_on_the_initial_stack() {
    let store = pooled_store(2);
    assert_eq!(store.stack_chain(), StackChain::InitialStack);
    assert_eq!(store.slots(), 0);
    assert_eq!(store.initial_stack().state, State::Running);
    assert_eq!(store.runtime_limits(), StackLimits::default());
    assert_eq!(store.continuations(store.stack_chain()), Vec::<usize>::new());
    assert_eq!(store.state(0), None);
    assert!(store.contref(0).is_none());
    assert_eq!(new_cont_ref(&store, 0), None);
}

#[test]
fn created_continuation_is_fresh() {
    let mut store = pooled_store(2);
    let (contref, pad) = cont_new(&mut store, FUNC, VMCTX, 2, 3, None).unwrap();
    assert_eq!(contref, 0);
    let top = BASE + SLOT;
    assert_eq!(
        pad,
        Launchpad {
            top_of_stack: top,
            stack_pointer: top - 64,
            frame_pointer: top - 16,
            func_ref: FUNC,
            caller_vmctx: VMCTX,
            args_ptr: 0,
            args_capacity: 3,
        }
    );
    assert_eq!(store.state(contref), Some(State::Fresh));
    let cont = store.contref(contref).unwrap();
    assert_eq!(cont.parent_chain, StackChain::Absent);
    assert_eq!(cont.last_ancestor, Some(contref));
    assert_eq!(cont.revision, 0);
    assert_eq!(cont.stack.range().unwrap(), BASE + PAGE..BASE + SLOT);
    assert_eq!((cont.args.length, cont.args.capacity), (0, 3));
    assert_eq!((cont.values.length, cont.values.capacity), (0, 0));
    assert_eq!(cont.common_stack_information.handlers.length, 0);
    assert_eq!(store.stack_chain(), StackChain::InitialStack);
    assert_eq!(store.slots(), 1);
    assert_eq!(
        new_cont_ref(&store, contref),
        Some(VMContObj::new(contref, 0))
    );
    assert_eq!(
        store.continuations(StackChain::Continuation(contref)),
        vec![contref]
    );
}

#[test]
fn stack_limit_leaves_the_budget_below_the_first_frame() {
    let mut store = pooled_store(2);
    let contref = create(&mut store);
    let top = BASE + SLOT;
    assert_eq!(
        store
            .contref(contref)
            .unwrap()
            .common_stack_information
            .limits,
        StackLimits {
            stack_limit: top - 64 - 32 * KIB,
            last_wasm_entry_fp: 0
        }
    );
}

#[test]
fn stack_limit_never_falls_below_the_stack() {
    let config = StackSwitchingConfig {
        stack_size: 64 * KIB,
    };
    let pool = wasmfx_pooling::InnerAllocator::with_page_size(&config, 1, PAGE, BASE).unwrap();
    let mut store = Store::new(WasmFXAllocator::pooling(pool), 1024 * KIB);
    let contref = create(&mut store);
    assert_eq!(
        store
            .contref(contref)
            .unwrap()
            .common_stack_information
            .limits
            .stack_limit,
        BASE + PAGE
    );
    let pool = wasmfx_pooling::InnerAllocator::with_page_size(&config, 1, PAGE, BASE).unwrap();
    let mut store = Store::new(WasmFXAllocator::pooling(pool), 64 * KIB - 64);
    let contref = create(&mut store);
    assert_eq!(
        store
            .contref(contref)
            .unwrap()
            .common_stack_information
            .limits
            .stack_limit,
        BASE + PAGE
    );
    let pool = wasmfx_pooling::InnerAllocator::with_page_size(&config, 1, PAGE, BASE).unwrap();
    let mut store = Store::new(WasmFXAllocator::pooling(pool), 64 * KIB - 65);
    let contref = create(&mut store);
    assert_eq!(
        store
            .contref(contref)
            .unwrap()
            .common_stack_information
            .limits
            .stack_limit,
        BASE + PAGE + 1
    );
}

#[test]
fn stack_limit_counts_the_configured_size_from_the_top() {
    let config = StackSwitchingConfig { stack_size: 5000 };
    let allocator = wasmfx_on_demand::InnerAllocator::with_page_size(&config, PAGE);
    let mut store = Store::new(WasmFXAllocator::on_demand(allocator), 5000);
    let (contref, pad) = cont_new(&mut store, FUNC, VMCTX, 0, 0, Some(0x10000)).unwrap();
    let top = 0x10000 + 3 * PAGE;
    assert_eq!(pad.top_of_stack, top);
    assert_eq!(
        store.contref(contref).unwrap().stack.range().unwrap(),
        0x10000 + PAGE..top
    );
    assert_eq!(
        store
            .contref(contref)
            .unwrap()
            .common_stack_information
            .limits,
        StackLimits {
            stack_limit: top - 5000,
            last_wasm_entry_fp: 0
        }
    );

    let pool = wasmfx_pooling::InnerAllocator::with_page_size(&config, 1, PAGE, BASE).unwrap();
    assert_eq!(pool.configured_size(), 5000);
    let mut store = Store::new(WasmFXAllocator::pooling(pool), 4000);
    let contref = create(&mut store);
    let top = BASE + 3 * PAGE;
    assert_eq!(
        store
            .contref(contref)
            .unwrap()
            .common_stack_information
            .limits
            .stack_limit,
        top - 64 - 4000
    );
}

#[test]
fn stack_limit_of_a_stack_of_no_configured_size_is_its_top() {
    let config = StackSwitchingConfig { stack_size: 0 };
    let allocator = wasmfx_on_demand::InnerAllocator::with_page_size(&config, PAGE);
    let mut store = Store::new(WasmFXAllocator::on_demand(allocator), 1000);
    let (contref, pad) = cont_new(&mut store, FUNC, VMCTX, 0, 0, Some(0x10000)).unwrap();
    assert_eq!(pad.top_of_stack, 0x10000 + 2 * PAGE);
    assert_eq!(
        store
            .contref(contref)
            .unwrap()
            .common_stack_information
            .limits
            .stack_limit,
        0x10000 + 2 * PAGE
    );
}

#[test]
fn reused_slot_holds_a_new_control_block() {
    let mut store = pooled_store(2);
    let first = create(&mut store);
    let second = create(&mut store);
    assert!(cont_obj_push_result(&mut store, first, 9));
    cont_obj_ensure_payloads_additional_capacity(&mut store, first, 2);
    assert!(cont_obj_push_payload(&mut store, first, 8));
    assert!(cont_obj_push_result(&mut store, second, 7));
    assert_eq!(drop_cont_obj(&mut store, first), Ok(Release::Keep));
    let (reused, pad) = cont_new(&mut store, FUNC, VMCTX, 3, 2, None).unwrap();
    assert_eq!(reused, first);
    assert_eq!(store.slots(), 2);
    assert_eq!(pad.args_ptr, first);
    assert_eq!(pad.args_capacity, 3);
    let cont = store.contref(reused).unwrap();
    assert_eq!(cont.revision, 1);
    assert_eq!((cont.args.length, cont.args.capacity), (0, 3));
    assert!(cont.args.data.is_empty());
    assert_eq!((cont.values.length, cont.values.capacity), (0, 0));
    assert_eq!(cont.parent_chain, StackChain::Absent);
    assert_eq!(cont.last_ancestor, Some(reused));
    assert_eq!(cont.common_stack_information.state, State::Fresh);
    assert_eq!(
        cont.common_stack_information.limits,
        StackLimits {
            stack_limit: BASE + SLOT - 64 - 32 * KIB,
            last_wasm_entry_fp: 0
        }
    );
    assert_eq!(cont.stack.range().unwrap(), BASE + PAGE..BASE + SLOT);
    let other = store.contref(second).unwrap();
    assert_eq!(other.args.data, vec![7]);
    assert_eq!(other.revision, 0);
    assert_eq!(other.common_stack_information.state, State::Fresh);
}

#[test]
fn switch_parks_a_chain_where_resume_finds_it() {
    let mut store = pooled_store(3);
    let a = create(&mut store);
    let b = create(&mut store);
    let c = create(&mut store);
    let handle_a = new_cont_ref(&store, a).unwrap();
    let handle_b = new_cont_ref(&store, b).unwrap();
    let handle_c = new_cont_ref(&store, c).unwrap();
    // The initial stack handles switches with tag 6.
    resume(&mut store, handle_a, handlers(&[6]), 0).unwrap();
    resume(&mut store, handle_b, handlers(&[]), 0).unwrap();
    assert_eq!(store.continuations(store.stack_chain()), vec![b, a]);

    let (switch_over, handle_b) = switch(&mut store, handle_c, 6).unwrap();
    assert_eq!(
        switch_over,
        SwitchOver {
            source_top_of_stack: BASE + SLOT,
            target_top_of_stack: BASE + 3 * SLOT,
            payload: 3
        }
    );
    assert_eq!(store.continuations(store.stack_chain()), vec![c]);
    assert_eq!(store.continuations(StackChain::Continuation(b)), vec![b, a]);
    assert_eq!(store.state(c), Some(State::Running));
    assert_eq!(store.state(b), Some(State::Suspended));
    assert_eq!(store.state(a), Some(State::Parent));
    assert_eq!(store.contref(b).unwrap().last_ancestor, Some(a));
    assert_eq!(
        store.contref(c).unwrap().parent_chain,
        StackChain::InitialStack
    );
    assert_eq!(store.initial_stack().state, State::Parent);
    assert_eq!(store.initial_stack().handlers.data, vec![6]);

    // The chain that was left is entered again through the control context
    // in which the switch parked it, and takes the place of the running one.
    let (switch_back, handle_c) = switch(&mut store, handle_b, 6).unwrap();
    assert_eq!(
        switch_back,
        SwitchOver {
            source_top_of_stack: BASE + 3 * SLOT,
            target_top_of_stack: BASE + SLOT,
            payload: 3
        }
    );
    assert_eq!(store.continuations(store.stack_chain()), vec![b, a]);
    assert_eq!(store.state(c), Some(State::Suspended));
    assert_eq!(handle_c, VMContObj::new(c, 1));

    // A plain resume of a chain parked by a switch goes the same way.
    let (switch_over, handle_b) = switch(&mut store, handle_c, 6).unwrap();
    assert_eq!(switch_over.source_top_of_stack, BASE + SLOT);
    cont_return(&mut store).unwrap();
    assert_eq!(store.stack_chain(), StackChain::InitialStack);
    let switch_in = resume(&mut store, handle_b, handlers(&[]), 0).unwrap();
    assert_eq!(
        switch_in,
        Switch {
            top_of_stack: BASE + SLOT,
            payload: 1
        }
    );
    assert_eq!(store.continuations(store.stack_chain()), vec![b, a]);
}

#[test]
fn third_continuation_exceeds_a_pool_of_two() {
    let mut store = pooled_store(2);
    let (first, _) = cont_new(&mut store, FUNC, VMCTX, 0, 0, None).unwrap();
    let (second, _) = cont_new(&mut store, FUNC, VMCTX, 0, 0, None).unwrap();
    assert_eq!(
        cont_new(&mut store, FUNC, VMCTX, 0, 0, None),
        Err(StackSwitchError::CapacityExceeded { max_stacks: 2 })
    );
    assert_eq!((first, second), (0, 1));
    assert_eq!(store.slots(), 2);
    assert_eq!(store.state(first), Some(State::Fresh));
    assert_eq!(store.state(second), Some(State::Fresh));
    assert_eq!(
        store.contref(first).unwrap().stack.range().unwrap(),
        BASE + PAGE..BASE + SLOT
    );
    assert_eq!(
        store.contref(second).unwrap().stack.range().unwrap(),
        BASE + SLOT + PAGE..BASE + 2 * SLOT
    );
    assert_eq!(store.contref(first).unwrap().revision, 0);
    assert_eq!(store.contref(second).unwrap().revision, 0);
    assert_eq!(store.stack_chain(), StackChain::InitialStack);
}

#[test]
fn on_demand_continuation_needs_a_mapping() {
    let mut store = on_demand_store();
    assert_eq!(
        cont_new(&mut store, FUNC, VMCTX, 0, 0, None),
        Err(StackSwitchError::StackAllocationFailed)
    );
    assert_eq!(store.slots(), 0);
    let (contref, pad) = cont_new(&mut store, FUNC, VMCTX, 0, 0, Some(0x40_0000)).unwrap();
    assert_eq!(pad.top_of_stack, 0x40_0000 + SLOT);
    assert_eq!(
        store.contref(contref).unwrap().stack.guard_range(),
        0x40_0000..0x40_0000 + PAGE
    );
    let (other, _) = cont_new(&mut store, FUNC, VMCTX, 0, 0, Some(0x80_0000)).unwrap();
    assert_eq!((contref, other), (0, 1));
    assert_eq!(
        drop_cont_obj(&mut store, contref),
        Ok(Release::Unmap {
            base: 0x40_0000,
            len: SLOT
        })
    );
}

#[test]
fn handle_is_taken_once() {
    let mut store = pooled_store(2);
    let contref = create(&mut store);
    let first = new_cont_ref(&store, contref).unwrap();
    let second = first;
    assert_eq!(cont_ref_get_cont_obj(&store, first), Ok(contref));
    assert_eq!(cont_ref_get_cont_obj(&store, second), Ok(contref));
    assert_eq!(store.take(first), Ok(contref));
    assert_eq!(
        store.take(second),
        Err(StackSwitchError::ContinuationAlreadyConsumed)
    );
    assert_eq!(
        store.take(first),
        Err(StackSwitchError::ContinuationAlreadyConsumed)
    );
    assert_eq!(
        cont_ref_get_cont_obj(&store, first),
        Err(StackSwitchError::ContinuationAlreadyConsumed)
    );
    assert_eq!(store.contref(contref).unwrap().revision, 1);
    let renewed = new_cont_ref(&store, contref).unwrap();
    assert_eq!(renewed, VMContObj::new(contref, 1));
    assert_eq!(store.take(renewed), Ok(contref));
    assert_eq!(store.contref(contref).unwrap().revision, 2);
    assert_eq!(store.state(contref), Some(State::Fresh));
}

#[test]
fn handle_to_nothing_is_stale() {
    let mut store = pooled_store(2);
    assert_eq!(
        store.take(VMContObj::new(0, 0)),
        Err(StackSwitchError::ContinuationAlreadyConsumed)
    );
    let contref = create(&mut store);
    assert_eq!(
        store.take(VMContObj::new(contref + 1, 0)),
        Err(StackSwitchError::ContinuationAlreadyConsumed)
    );
    assert_eq!(
        store.take(VMContObj::new(contref, 1)),
        Err(StackSwitchError::ContinuationAlreadyConsumed)
    );
    assert_eq!(
        store.take(VMContObj::new(contref, u64::MAX)),
        Err(StackSwitchError::ContinuationAlreadyConsumed)
    );
    assert_eq!(store.contref(contref).unwrap().revision, 0);
}

#[test]
fn continuation_runs_to_completion() {
    let mut store = pooled_store(2);
    store.set_runtime_limits(StackLimits {
        stack_limit: 0x500,
        last_wasm_entry_fp: 0x900,
    });
    let contref = create(&mut store);
    assert_eq!(store.state(contref), Some(State::Fresh));
    let handle = new_cont_ref(&store, contref).unwrap();
    let switch_in = resume(&mut store, handle, handlers(&[]), 0).unwrap();
    assert_eq!(
        switch_in,
        Switch {
            top_of_stack: BASE + SLOT,
            payload: 1
        }
    );
    assert_eq!(effect(switch_in), ControlEffect::Resume);
    assert_eq!(store.state(contref), Some(State::Running));
    assert_eq!(store.stack_chain(), StackChain::Continuation(contref));
    assert_eq!(store.initial_stack().state, State::Parent);
    assert_eq!(
        store.initial_stack().limits,
        StackLimits {
            stack_limit: 0x500,
            last_wasm_entry_fp: 0x900
        }
    );
    assert_eq!(
        store.runtime_limits().stack_limit,
        BASE + SLOT - 64 - 32 * KIB
    );
    assert_eq!(
        store.contref(contref).unwrap().parent_chain,
        StackChain::InitialStack
    );
    assert_eq!(store.contref(contref).unwrap().last_ancestor, None);
    assert_eq!(store.contref(contref).unwrap().revision, 1);

    let switch_out = cont_return(&mut store).unwrap();
    assert_eq!(
        switch_out,
        Switch {
            top_of_stack: BASE + SLOT,
            payload: 0
        }
    );
    assert_eq!(effect(switch_out), ControlEffect::Return);
    assert_eq!(store.state(contref), Some(State::Returned));
    assert_eq!(store.stack_chain(), StackChain::InitialStack);
    assert_eq!(store.initial_stack().state, State::Running);
    assert_eq!(
        store.runtime_limits(),
        StackLimits {
            stack_limit: 0x500,
            last_wasm_entry_fp: 0x900
        }
    );
    assert_eq!(
        store.contref(contref).unwrap().parent_chain,
        StackChain::Absent
    );

    assert_eq!(
        resume(&mut store, handle, handlers(&[]), 0),
        Err(StackSwitchError::ContinuationAlreadyConsumed)
    );
    let forged = new_cont_ref(&store, contref).unwrap();
    assert_eq!(
        resume(&mut store, forged, handlers(&[]), 0),
        Err(StackSwitchError::ContinuationNotResumable)
    );
    assert_eq!(store.state(contref), Some(State::Returned));
    assert_eq!(store.contref(contref).unwrap().revision, 1);
    assert_eq!(store.stack_chain(), StackChain::InitialStack);
    assert_eq!(
        cont_return(&mut store),
        Err(StackSwitchError::NoRunningContinuation)
    );
}

#[test]
fn suspension_is_observed_once_and_execution_continues() {
    let mut store = pooled_store(2);
    let contref = create(&mut store);
    cont_obj_ensure_payloads_additional_capacity(&mut store, contref, 1);
    let handle = new_cont_ref(&store, contref).unwrap();
    let mut observed: Vec<ControlEffect> = Vec::new();

    let switch_in = resume(&mut store, handle, handlers(&[0, 1, 2, 3, 4, 5]), 6).unwrap();
    assert_eq!(effect(switch_in), ControlEffect::Resume);
    assert_eq!(store.initial_stack().handlers.data, vec![0, 1, 2, 3, 4, 5]);

    let mut counter: u128 = 0;
    counter += 1;
    assert!(cont_obj_push_payload(&mut store, contref, counter));
    let (switch_out, suspended) = suspend(&mut store, 5).unwrap();
    observed.push(effect(switch_out));
    assert_eq!(
        switch_out,
        Switch {
            top_of_stack: BASE + SLOT,
            payload: 0x0000_0005_0000_0002
        }
    );
    assert_eq!(suspended, VMContObj::new(contref, 1));
    assert_eq!(store.state(contref), Some(State::Suspended));
    assert_eq!(store.stack_chain(), StackChain::InitialStack);
    assert_eq!(store.initial_stack().state, State::Running);
    assert_eq!(store.initial_stack().handlers.length, 0);
    assert_eq!(store.contref(contref).unwrap().last_ancestor, Some(contref));
    assert_eq!(
        store.contref(contref).unwrap().parent_chain,
        StackChain::Absent
    );
    assert_eq!(cont_obj_get_payloads(&store, contref).data, vec![1]);

    assert_eq!(
        resume(&mut store, handle, handlers(&[]), 0),
        Err(StackSwitchError::ContinuationAlreadyConsumed)
    );
    cont_obj_reset_payloads(&mut store, contref);
    let switch_in = resume(&mut store, suspended, handlers(&[5]), 1).unwrap();
    assert_eq!(effect(switch_in), ControlEffect::Resume);
    assert_eq!(store.state(contref), Some(State::Running));

    counter += 1;
    cont_obj_reset_results(&mut store, contref);
    assert!(cont_obj_push_result(&mut store, contref, counter));
    let switch_out = cont_return(&mut store).unwrap();
    observed.push(effect(switch_out));
    assert_eq!(store.state(contref), Some(State::Returned));
    assert_eq!(cont_obj_get_results(&store, contref).data, vec![2]);
    assert_eq!(
        observed,
        vec![
            ControlEffect::Suspend { handler_index: 5 },
            ControlEffect::Return
        ]
    );
    assert_eq!(
        resume(&mut store, suspended, handlers(&[]), 0),
        Err(StackSwitchError::ContinuationAlreadyConsumed)
    );
}

#[test]
fn child_suspends_and_returns_to_the_stack_that_resumed_it() {
    let mut store = pooled_store(2);
    let b = create(&mut store);
    let handle = new_cont_ref(&store, b).unwrap();

    resume(&mut store, handle, handlers(&[9]), 1).unwrap();
    assert_eq!(store.state(b), Some(State::Running));
    assert_eq!(store.initial_stack().state, State::Parent);
    let chain = store.continuations(store.stack_chain());
    assert_eq!(chain.len(), 1);
    assert_eq!(chain, vec![b]);
    let mut iter = store.stack_chain().into_continuation_iter();
    assert_eq!(iter.next(&store), Some(b));
    assert_eq!(iter.next(&store), None);
    assert_eq!(iter.next(&store), None);
    assert_eq!(iter.0, StackChain::InitialStack);

    let (switch_out, handle) = suspend(&mut store, 9).unwrap();
    assert_eq!(
        effect(switch_out),
        ControlEffect::Suspend { handler_index: 0 }
    );
    assert_eq!(store.state(b), Some(State::Suspended));
    assert_eq!(store.initial_stack().state, State::Running);
    assert_eq!(store.continuations(store.stack_chain()).len(), 0);
    assert_eq!(store.continuations(StackChain::Continuation(b)), vec![b]);

    resume(&mut store, handle, handlers(&[9]), 1).unwrap();
    assert_eq!(store.state(b), Some(State::Running));
    assert_eq!(store.continuations(store.stack_chain()), vec![b]);

    let switch_out = cont_return(&mut store).unwrap();
    assert_eq!(effect(switch_out), ControlEffect::Return);
    assert_eq!(store.state(b), Some(State::Returned));
    assert_eq!(store.initial_stack().state, State::Running);
    assert_eq!(store.continuations(store.stack_chain()).len(), 0);
}

#[test]
fn nested_continuations_form_a_chain() {
    let mut store = pooled_store(3);
    let a = create(&mut store);
    let b = create(&mut store);
    let handle_a = new_cont_ref(&store, a).unwrap();
    let handle_b = new_cont_ref(&store, b).unwrap();

    resume(&mut store, handle_a, handlers(&[1]), 1).unwrap();
    resume(&mut store, handle_b, handlers(&[2]), 1).unwrap();
    assert_eq!(store.state(a), Some(State::Parent));
    assert_eq!(store.state(b), Some(State::Running));
    assert_eq!(store.initial_stack().state, State::Parent);
    assert_eq!(store.stack_chain(), StackChain::Continuation(b));
    assert_eq!(store.continuations(store.stack_chain()), vec![b, a]);
    assert_eq!(
        store.contref(b).unwrap().parent_chain,
        StackChain::Continuation(a)
    );
    assert_eq!(
        store.contref(a).unwrap().parent_chain,
        StackChain::InitialStack
    );
    assert_eq!(
        store
            .contref(a)
            .unwrap()
            .common_stack_information
            .handlers
            .data,
        vec![2]
    );
    let limits = store.stack_limits(store.stack_chain());
    assert_eq!(limits.len(), 3);
    assert_eq!(limits[2], StackLimits::default());
    let mut iter = store.stack_chain().into_stack_limits_iter();
    assert_eq!(iter.next(&store), Some(limits[0]));
    assert_eq!(iter.next(&store), Some(limits[1]));
    assert_eq!(iter.next(&store), Some(limits[2]));
    assert_eq!(iter.next(&store), None);
    assert_eq!(iter.0, StackChain::Absent);

    // The parent handles tag 2: only the child is parked.
    let (switch_out, handle_b) = suspend(&mut store, 2).unwrap();
    assert_eq!(
        effect(switch_out),
        ControlEffect::Suspend { handler_index: 0 }
    );
    assert_eq!(switch_out.top_of_stack, BASE + 2 * SLOT);
    assert_eq!(store.state(b), Some(State::Suspended));
    assert_eq!(store.state(a), Some(State::Running));
    assert_eq!(store.stack_chain(), StackChain::Continuation(a));
    assert_eq!(store.continuations(store.stack_chain()), vec![a]);
    assert_eq!(store.contref(b).unwrap().last_ancestor, Some(b));
    assert_eq!(store.contref(b).unwrap().parent_chain, StackChain::Absent);
    assert_eq!(
        store
            .contref(a)
            .unwrap()
            .common_stack_information
            .handlers
            .length,
        0
    );

    // The initial stack handles tag 1: the child and its parent are parked
    // as one chain. The child, parked alone, is entered through its own
    // control context.
    let switch_in = resume(&mut store, handle_b, handlers(&[2]), 1).unwrap();
    assert_eq!(switch_in.top_of_stack, BASE + 2 * SLOT);
    let (switch_out, handle_b) = suspend(&mut store, 1).unwrap();
    assert_eq!(
        effect(switch_out),
        ControlEffect::Suspend { handler_index: 0 }
    );
    assert_eq!(switch_out.top_of_stack, BASE + SLOT);
    assert_eq!(store.stack_chain(), StackChain::InitialStack);
    assert_eq!(store.initial_stack().state, State::Running);
    assert_eq!(store.state(b), Some(State::Suspended));
    assert_eq!(store.state(a), Some(State::Parent));
    assert_eq!(store.contref(b).unwrap().last_ancestor, Some(a));
    assert_eq!(
        store.contref(b).unwrap().parent_chain,
        StackChain::Continuation(a)
    );
    assert_eq!(store.contref(a).unwrap().parent_chain, StackChain::Absent);
    assert_eq!(store.continuations(store.stack_chain()), Vec::<usize>::new());
    assert_eq!(store.continuations(StackChain::Continuation(b)), vec![b, a]);
    assert_eq!(
        store
            .contref(a)
            .unwrap()
            .common_stack_information
            .handlers
            .data,
        vec![2]
    );

    // Resuming the child brings its parent along. The chain is entered
    // through the control context through which it was left: that of its
    // last stack.
    let switch_in = resume(&mut store, handle_b, handlers(&[1]), 1).unwrap();
    assert_eq!(
        switch_in,
        Switch {
            top_of_stack: BASE + SLOT,
            payload: 1
        }
    );
    assert_eq!(switch_in.top_of_stack, switch_out.top_of_stack);
    assert_eq!(store.continuations(store.stack_chain()), vec![b, a]);
    assert_eq!(store.state(b), Some(State::Running));
    assert_eq!(store.state(a), Some(State::Parent));
    assert_eq!(
        store.contref(a).unwrap().parent_chain,
        StackChain::InitialStack
    );

    // The child returns to its parent, the parent to the initial stack.
    cont_return(&mut store).unwrap();
    assert_eq!(store.state(b), Some(State::Returned));
    assert_eq!(store.state(a), Some(State::Running));
    assert_eq!(store.continuations(store.stack_chain()), vec![a]);
    cont_return(&mut store).unwrap();
    assert_eq!(store.state(a), Some(State::Returned));
    assert_eq!(store.stack_chain(), StackChain::InitialStack);
    assert_eq!(store.initial_stack().state, State::Running);
}

#[test]
fn suspend_without_handler_traps() {
    let mut store = pooled_store(2);
    assert_eq!(
        suspend(&mut store, 5),
        Err(StackSwitchError::HandlerNotFound)
    );
    let contref = create(&mut store);
    let handle = new_cont_ref(&store, contref).unwrap();
    resume(&mut store, handle, handlers(&[1, 2, 5]), 2).unwrap();
    assert_eq!(
        suspend(&mut store, 7),
        Err(StackSwitchError::HandlerNotFound)
    );
    // Tag 5 has a switch handler only.
    assert_eq!(
        suspend(&mut store, 5),
        Err(StackSwitchError::HandlerNotFound)
    );
    assert_eq!(store.state(contref), Some(State::Running));
    assert_eq!(store.stack_chain(), StackChain::Continuation(contref));
    assert_eq!(store.initial_stack().handlers.data, vec![1, 2, 5]);
    let (switch_out, _) = suspend(&mut store, 2).unwrap();
    assert_eq!(
        effect(switch_out),
        ControlEffect::Suspend { handler_index: 1 }
    );
}

#[test]
fn nearest_handler_wins() {
    let mut store = pooled_store(2);
    let a = create(&mut store);
    let b = create(&mut store);
    let handle_a = new_cont_ref(&store, a).unwrap();
    let handle_b = new_cont_ref(&store, b).unwrap();
    resume(&mut store, handle_a, handlers(&[7, 8]), 2).unwrap();
    resume(&mut store, handle_b, handlers(&[9, 8]), 2).unwrap();
    let (switch_out, _) = suspend(&mut store, 8).unwrap();
    assert_eq!(
        effect(switch_out),
        ControlEffect::Suspend { handler_index: 1 }
    );
    assert_eq!(store.stack_chain(), StackChain::Continuation(a));
    assert_eq!(store.state(b), Some(State::Suspended));
}

#[test]
fn switch_goes_to_a_sibling() {
    let mut store = pooled_store(3);
    let a = create(&mut store);
    let b = create(&mut store);
    let handle_a = new_cont_ref(&store, a).unwrap();
    let handle_b = new_cont_ref(&store, b).unwrap();

    // Tag 3 is handled as a suspension, tag 4 as a switch.
    resume(&mut store, handle_a, handlers(&[3, 4]), 1).unwrap();
    assert_eq!(
        switch(&mut store, handle_b, 3),
        Err(StackSwitchError::HandlerNotFound)
    );
    assert_eq!(store.state(b), Some(State::Fresh));
    assert_eq!(store.contref(b).unwrap().revision, 0);

    let (switch_over, handle_a) = switch(&mut store, handle_b, 4).unwrap();
    assert_eq!(
        switch_over,
        SwitchOver {
            source_top_of_stack: BASE + SLOT,
            target_top_of_stack: BASE + 2 * SLOT,
            payload: 3
        }
    );
    assert_eq!(
        ControlEffect::decode(switch_over.payload),
        Some(ControlEffect::Switch)
    );
    assert_eq!(handle_a, VMContObj::new(a, 1));
    assert_eq!(store.state(a), Some(State::Suspended));
    assert_eq!(store.state(b), Some(State::Running));
    assert_eq!(store.stack_chain(), StackChain::Continuation(b));
    assert_eq!(store.continuations(store.stack_chain()), vec![b]);
    assert_eq!(
        store.contref(b).unwrap().parent_chain,
        StackChain::InitialStack
    );
    assert_eq!(store.contref(a).unwrap().parent_chain, StackChain::Absent);
    assert_eq!(store.contref(a).unwrap().last_ancestor, Some(a));
    assert_eq!(store.initial_stack().state, State::Parent);
    assert_eq!(store.initial_stack().handlers.data, vec![3, 4]);
    assert_eq!(store.contref(b).unwrap().revision, 1);

    assert_eq!(
        switch(&mut store, handle_b, 4),
        Err(StackSwitchError::ContinuationAlreadyConsumed)
    );
    let running = new_cont_ref(&store, b).unwrap();
    assert_eq!(
        switch(&mut store, running, 4),
        Err(StackSwitchError::ContinuationNotResumable)
    );

    // And back again.
    let (switch_back, handle_b) = switch(&mut store, handle_a, 4).unwrap();
    assert_eq!(
        switch_back,
        SwitchOver {
            source_top_of_stack: BASE + 2 * SLOT,
            target_top_of_stack: BASE + SLOT,
            payload: 3
        }
    );
    assert_eq!(store.state(a), Some(State::Running));
    assert_eq!(store.state(b), Some(State::Suspended));
    assert_eq!(handle_b, VMContObj::new(b, 1));

    let (switch_out, _) = suspend(&mut store, 3).unwrap();
    assert_eq!(
        effect(switch_out),
        ControlEffect::Suspend { handler_index: 0 }
    );
    assert_eq!(store.stack_chain(), StackChain::InitialStack);
}

#[test]
fn switch_from_the_initial_stack_finds_no_handler() {
    let mut store = pooled_store(2);
    let contref = create(&mut store);
    let handle = new_cont_ref(&store, contref).unwrap();
    assert_eq!(
        switch(&mut store, handle, 1),
        Err(StackSwitchError::HandlerNotFound)
    );
    assert_eq!(store.contref(contref).unwrap().revision, 0);
    assert!(resume(&mut store, handle, handlers(&[]), 0).is_ok());
}

#[test]
fn returned_continuation_is_reclaimed_and_its_slot_reused() {
    let mut store = pooled_store(2);
    let first = create(&mut store);
    let second = create(&mut store);
    let handle = new_cont_ref(&store, first).unwrap();
    resume(&mut store, handle, handlers(&[]), 0).unwrap();
    assert_eq!(
        drop_cont_obj(&mut store, first),
        Err(StackSwitchError::ContinuationInUse)
    );
    cont_return(&mut store).unwrap();
    let stale = new_cont_ref(&store, first).unwrap();
    assert_eq!(stale, VMContObj::new(first, 1));

    assert_eq!(drop_cont_obj(&mut store, first), Ok(Release::Keep));
    assert_eq!(store.state(first), None);
    assert_eq!(new_cont_ref(&store, first), None);
    assert_eq!(store.contref(first).unwrap().revision, 2);
    assert!(store.contref(first).unwrap().stack.is_unallocated());
    assert_eq!(
        drop_cont_obj(&mut store, first),
        Err(StackSwitchError::ContinuationAlreadyConsumed)
    );
    assert_eq!(
        store.take(stale),
        Err(StackSwitchError::ContinuationAlreadyConsumed)
    );

    let (reused, pad) = cont_new(&mut store, FUNC, VMCTX, 0, 0, None).unwrap();
    assert_eq!(reused, first);
    assert_eq!(pad.top_of_stack, BASE + SLOT);
    assert_eq!(store.slots(), 2);
    assert_eq!(store.state(reused), Some(State::Fresh));
    assert_eq!(store.contref(reused).unwrap().revision, 2);
    assert_eq!(
        store.contref(reused).unwrap().stack.range().unwrap(),
        BASE + PAGE..BASE + SLOT
    );
    assert_eq!(
        store.take(stale),
        Err(StackSwitchError::ContinuationAlreadyConsumed)
    );
    assert_eq!(
        resume(&mut store, stale, handlers(&[]), 0),
        Err(StackSwitchError::ContinuationAlreadyConsumed)
    );
    assert_eq!(store.state(second), Some(State::Fresh));
    assert_eq!(
        cont_new(&mut store, FUNC, VMCTX, 0, 0, None),
        Err(StackSwitchError::CapacityExceeded { max_stacks: 2 })
    );
}

#[test]
fn fresh_continuation_can_be_dropped() {
    let mut store = pooled_store(1);
    let contref = create(&mut store);
    let handle = new_cont_ref(&store, contref).unwrap();
    assert_eq!(drop_cont_obj(&mut store, contref), Ok(Release::Keep));
    assert_eq!(
        resume(&mut store, handle, handlers(&[]), 0),
        Err(StackSwitchError::ContinuationAlreadyConsumed)
    );
    assert_eq!(
        drop_cont_obj(&mut store, 5),
        Err(StackSwitchError::ContinuationAlreadyConsumed)
    );
    assert_eq!(create(&mut store), contref);
}

#[test]
fn suspended_continuation_cannot_be_dropped() {
    let mut store = pooled_store(2);
    let contref = create(&mut store);
    let handle = new_cont_ref(&store, contref).unwrap();
    resume(&mut store, handle, handlers(&[1]), 1).unwrap();
    suspend(&mut store, 1).unwrap();
    assert_eq!(
        drop_cont_obj(&mut store, contref),
        Err(StackSwitchError::ContinuationInUse)
    );
    assert_eq!(store.state(contref), Some(State::Suspended));
}

#[test]
fn payload_buffers() {
    let mut store = pooled_store(1);
    let (contref, _) = cont_new(&mut store, FUNC, VMCTX, 2, 1, None).unwrap();
    assert_eq!(cont_obj_get_results(&store, contref).capacity, 2);
    assert!(cont_obj_push_result(&mut store, contref, 11));
    assert!(cont_obj_push_result(&mut store, contref, 12));
    assert!(!cont_obj_push_result(&mut store, contref, 13));
    assert_eq!(cont_obj_get_results(&store, contref).data, vec![11, 12]);
    cont_obj_reset_results(&mut store, contref);
    assert_eq!(cont_obj_get_results(&store, contref).length, 0);
    assert_eq!(cont_obj_get_results(&store, contref).capacity, 2);

    assert_eq!(cont_obj_get_next_free_payload_slot(&store, contref), 0);
    assert!(!cont_obj_push_payload(&mut store, contref, 1));
    cont_obj_ensure_payloads_additional_capacity(&mut store, contref, 2);
    assert_eq!(cont_obj_get_payloads(&store, contref).capacity, 2);
    assert!(cont_obj_push_payload(&mut store, contref, 21));
    assert_eq!(cont_obj_get_next_free_payload_slot(&store, contref), 1);
    cont_obj_ensure_payloads_additional_capacity(&mut store, contref, 1);
    assert_eq!(cont_obj_get_payloads(&store, contref).capacity, 2);
    cont_obj_ensure_payloads_additional_capacity(&mut store, contref, 3);
    assert_eq!(cont_obj_get_payloads(&store, contref).capacity, 4);
    assert!(cont_obj_push_payload(&mut store, contref, 22));
    assert_eq!(cont_obj_get_payloads(&store, contref).data, vec![21, 22]);
    cont_obj_reset_payloads(&mut store, contref);
    assert_eq!(cont_obj_get_payloads(&store, contref).length, 0);
    assert_eq!(cont_obj_get_payloads(&store, contref).capacity, 4);
    assert_eq!(cont_obj_get_next_free_payload_slot(&store, contref), 0);
    assert_eq!(store.state(contref), Some(State::Fresh));
}

#[test]
fn walks_stop_where_the_chain_stops() {
    let mut store = pooled_store(2);
    let contref = create(&mut store);
    assert_eq!(store.continuations(StackChain::Absent), Vec::<usize>::new());
    assert_eq!(
        store.continuations(StackChain::InitialStack),
        Vec::<usize>::new()
    );
    assert_eq!(
        store.continuations(StackChain::Continuation(7)),
        Vec::<usize>::new()
    );
    assert_eq!(store.stack_limits(StackChain::Absent), Vec::new());
    assert_eq!(
        store.stack_limits(StackChain::InitialStack),
        vec![StackLimits::default()]
    );
    assert_eq!(
        store.stack_limits(StackChain::Continuation(contref)),
        vec![StackLimits::with_stack_limit(BASE + SLOT - 64 - 32 * KIB)]
    );
    let mut iter = StackChain::Continuation(7).into_continuation_iter();
    assert_eq!(iter.next(&store), None);
    let mut iter = StackChain::Absent.into_stack_limits_iter();
    assert_eq!(iter.next(&store), None);
}
