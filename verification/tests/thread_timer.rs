use minivm::thread::create::{make_thread_id, validate_create, CreateError, CreateParams, ThreadInit};
use minivm::thread::futex::{futex_hash, FutexTable, FUTEX_HASHSIZE, IDX_NONE};
use minivm::thread::state::{validate_state_query, StateError};
use minivm::thread::stop::{stop_action, StopAction};
use minivm::timer::timer::{
    ns2ticks, ticks2ns, TimerState, NSEC_FREQ, NSEC_PER_TICK, TICK_GRANULARITY, TIME_BIGBANG,
    TIME_FOREVER,
};
use minivm::timer::tree::{TimeoutTree, TreeNode};
use minivm::types::ops::TimerOp;
use minivm::types::vm::{ThreadStatus, VmId};

fn params(pc: u32, sp: u32, arg1: u32, prio: u32) -> CreateParams {
    CreateParams { pc, sp, arg1, prio }
}

#[test]
fn create_test_validate_ok() {
    assert!(validate_create(&params(0x1000, 0x8000, 0, 10), 0).is_ok());
}

#[test]
fn test_validate_bad_sp() {
    assert_eq!(validate_create(&params(0x1000, 0x8001, 0, 10), 0), Err(CreateError::BadSp));
}

#[test]
fn test_validate_bad_pc() {
    assert_eq!(validate_create(&params(0x1001, 0x8000, 0, 10), 0), Err(CreateError::BadPc));
}

#[test]
fn test_validate_bad_prio() {
    assert_eq!(
        validate_create(&params(0x1000, 0x8000, 0, 5), 10),
        Err(CreateError::PriorityTooHigh)
    );
}

#[test]
fn test_validate_prio_too_large() {
    assert_eq!(
        validate_create(&params(0x1000, 0x8000, 0, 256), 0),
        Err(CreateError::BadPriority)
    );
}

#[test]
fn validate_checks_in_order() {
    assert_eq!(validate_create(&params(0x1001, 0x8001, 0, 300), 0), Err(CreateError::BadPriority));
    assert_eq!(validate_create(&params(0x1001, 0x8001, 0, 3), 4), Err(CreateError::PriorityTooHigh));
    assert_eq!(validate_create(&params(0x1001, 0x8001, 0, 4), 4), Err(CreateError::BadSp));
    assert!(validate_create(&params(0x1000, 0x8000, 0, 255), 255).is_ok());
}

#[test]
fn test_thread_init() {
    let init = ThreadInit::from_params(&params(0x2000, 0x4000, 42, 7));
    assert_eq!(init.prio, 7);
    assert_eq!(init.base_prio, 7);
    assert_eq!(init.elr, 0x2000);
    assert_eq!(init.sp, 0x4000);
    assert_eq!(init.arg, 42);
    assert_eq!(init.status, ThreadStatus::Ready);
    assert_eq!(init.vmstatus, 0);
}

#[test]
fn test_make_thread_id() {
    let id = make_thread_id(1, 3);
    assert_eq!(id.vmidx(), 1);
    assert_eq!(id.cpuidx(), 3);
    assert_eq!(id.vint(), 0);
}

#[test]
fn test_futex_hash_distribution() {
    let h1 = futex_hash(0x1000);
    let h2 = futex_hash(0x2000);
    let h3 = futex_hash(0x3000);
    assert!(h1 < FUTEX_HASHSIZE);
    assert!(h2 < FUTEX_HASHSIZE);
    assert!(h3 < FUTEX_HASHSIZE);
}

#[test]
fn futex_hash_values() {
    assert_eq!(futex_hash(0), 0);
    assert_eq!(futex_hash(1), ((2654435761u32 >> 26) & 63) as usize);
    assert_eq!(futex_hash(1u64 << 32), 1);
}

#[test]
fn test_futex_add_and_remove() {
    let mut table = FutexTable::new();
    let mut nexts = vec![IDX_NONE; 8];
    let mut prevs = vec![IDX_NONE; 8];
    let prios = vec![0u8; 8];
    let futex_ptrs = vec![0x1000u32, 0x1000, 0x1000, 0x2000, 0, 0, 0, 0];
    let hash = 5;
    table.add_waiter(hash, 1, 10, &mut nexts, &mut prevs, &prios);
    table.add_waiter(hash, 2, 10, &mut nexts, &mut prevs, &prios);
    assert_eq!(table.remove_one(hash, 0x1000, &futex_ptrs, &mut nexts, &mut prevs), 1);
    assert_eq!(table.remove_one(hash, 0x1000, &futex_ptrs, &mut nexts, &mut prevs), 2);
    assert_eq!(table.remove_one(hash, 0x1000, &futex_ptrs, &mut nexts, &mut prevs), IDX_NONE);
}

#[test]
fn test_futex_priority_ordering() {
    let mut table = FutexTable::new();
    let mut nexts = vec![IDX_NONE; 8];
    let mut prevs = vec![IDX_NONE; 8];
    let prios = vec![0u8, 20, 10, 30, 0, 0, 0, 0];
    let futex_ptrs = vec![0u32, 0x1000, 0x1000, 0x1000, 0, 0, 0, 0];
    let hash = 3;
    table.add_waiter(hash, 1, 20, &mut nexts, &mut prevs, &prios);
    table.add_waiter(hash, 2, 10, &mut nexts, &mut prevs, &prios);
    table.add_waiter(hash, 3, 30, &mut nexts, &mut prevs, &prios);
    assert_eq!(table.buckets[hash], 2);
    assert_eq!(table.remove_one(hash, 0x1000, &futex_ptrs, &mut nexts, &mut prevs), 2);
}

#[test]
fn futex_ring_stays_sorted() {
    let mut table = FutexTable::new();
    let mut nexts = vec![IDX_NONE; 8];
    let mut prevs = vec![IDX_NONE; 8];
    let prios = vec![0u8, 20, 10, 30, 20, 0, 0, 0];
    let futex_ptrs = vec![0u32, 0x1000, 0x1000, 0x1000, 0x1000, 0, 0, 0];
    let hash = 9;
    table.add_waiter(hash, 1, 20, &mut nexts, &mut prevs, &prios);
    table.add_waiter(hash, 2, 10, &mut nexts, &mut prevs, &prios);
    table.add_waiter(hash, 3, 30, &mut nexts, &mut prevs, &prios);
    table.add_waiter(hash, 4, 20, &mut nexts, &mut prevs, &prios);
    let mut order = Vec::new();
    loop {
        let r = table.remove_one(hash, 0x1000, &futex_ptrs, &mut nexts, &mut prevs);
        if r == IDX_NONE {
            break;
        }
        order.push(r);
    }
    assert_eq!(order, vec![2, 1, 4, 3]);
    assert_eq!(table.buckets[hash], IDX_NONE);
}

#[test]
fn test_futex_cancel() {
    let mut table = FutexTable::new();
    let mut nexts = vec![IDX_NONE; 8];
    let mut prevs = vec![IDX_NONE; 8];
    let prios = vec![0u8; 8];
    let hash = 7;
    table.add_waiter(hash, 1, 10, &mut nexts, &mut prevs, &prios);
    table.add_waiter(hash, 2, 10, &mut nexts, &mut prevs, &prios);
    table.cancel(hash, 1, &mut nexts, &mut prevs);
    assert_eq!(table.buckets[hash], 2);
    assert_eq!(nexts[2], 2);
    assert_eq!(nexts[1], IDX_NONE);
    assert_eq!(prevs[1], IDX_NONE);
}

#[test]
fn state_test_validate_ok() {
    let id = VmId::new(1, 0, 0);
    assert!(validate_state_query(1, id, 0, 320, 4).is_ok());
}

#[test]
fn test_validate_wrong_vm() {
    let id = VmId::new(2, 0, 0);
    assert_eq!(validate_state_query(1, id, 0, 320, 4), Err(StateError::WrongVm));
}

#[test]
fn test_validate_bad_offset() {
    let id = VmId::new(1, 0, 0);
    assert_eq!(validate_state_query(1, id, 316, 320, 4), Err(StateError::BadOffset));
    assert!(validate_state_query(1, id, 312, 320, 4).is_ok());
}

#[test]
fn test_validate_bad_cpuidx() {
    let id = VmId::new(1, 5, 0);
    assert_eq!(validate_state_query(1, id, 0, 320, 4), Err(StateError::BadCpuIdx));
}

#[test]
fn test_stop_normal_with_siblings() {
    assert_eq!(stop_action(0, 3, true), StopAction::NoSignal);
}

#[test]
fn test_stop_last_cpu_with_parent() {
    assert_eq!(stop_action(0, 0, true), StopAction::SignalParent);
}

#[test]
fn test_stop_error_with_parent() {
    assert_eq!(stop_action(-1, 2, true), StopAction::SignalParent);
}

#[test]
fn test_stop_last_cpu_no_parent() {
    assert_eq!(stop_action(0, 0, false), StopAction::DeallocateVm);
}

#[test]
fn test_stop_error_no_parent_with_cpus() {
    assert_eq!(stop_action(-1, 2, false), StopAction::NoSignal);
}

fn make_nodes(n: usize) -> Vec<TreeNode> {
    let mut v = Vec::new();
    v.resize(n, TreeNode::default());
    v
}

#[test]
fn test_timer_get_freq() {
    let mut state = TimerState::new();
    let mut nodes = make_nodes(4);
    let r = state.timer_trap(TimerOp::GetFreq, 0, TIME_BIGBANG, &mut nodes, 1);
    assert_eq!(r.value, NSEC_FREQ);
}

#[test]
fn test_timer_get_resolution() {
    let mut state = TimerState::new();
    let mut nodes = make_nodes(4);
    let r = state.timer_trap(TimerOp::GetResolution, 0, TIME_BIGBANG, &mut nodes, 1);
    assert_eq!(r.value, NSEC_PER_TICK);
}

#[test]
fn test_timer_get_time() {
    let mut state = TimerState::new();
    let mut nodes = make_nodes(4);
    state.last_ticks = 1000;
    let r = state.timer_trap(TimerOp::GetTime, 0, TIME_BIGBANG, &mut nodes, 1);
    assert_eq!(r.value, 1000 * NSEC_PER_TICK);
}

#[test]
fn test_timer_set_timeout() {
    let mut state = TimerState::new();
    let mut nodes = make_nodes(4);
    state.last_ticks = 100;
    let ns = 10000u64;
    let r = state.timer_trap(TimerOp::SetTimeout, ns, TIME_BIGBANG, &mut nodes, 1);
    assert_eq!(r.new_timeout_key, ns / NSEC_PER_TICK);
    assert!(r.needs_hw_update);
}

#[test]
fn test_timer_set_timeout_in_past() {
    let mut state = TimerState::new();
    let mut nodes = make_nodes(4);
    state.last_ticks = 1000;
    let r = state.timer_trap(TimerOp::SetTimeout, 50, TIME_BIGBANG, &mut nodes, 1);
    assert_eq!(r.new_timeout_key, TIME_BIGBANG);
}

#[test]
fn test_timer_delta_timeout() {
    let mut state = TimerState::new();
    let mut nodes = make_nodes(4);
    state.last_ticks = 100;
    let r = state.timer_trap(TimerOp::DeltaTimeout, 1000, TIME_BIGBANG, &mut nodes, 1);
    let delta_ticks = (1000u64 / NSEC_PER_TICK).max(TICK_GRANULARITY);
    assert_eq!(r.new_timeout_key, 100 + delta_ticks);
}

#[test]
fn test_timer_cancel_timeout() {
    let mut state = TimerState::new();
    let mut nodes = make_nodes(4);
    state.last_ticks = 100;
    let r = state.timer_trap(TimerOp::SetTimeout, 100000, TIME_BIGBANG, &mut nodes, 1);
    let old_key = r.new_timeout_key;
    assert_ne!(old_key, TIME_BIGBANG);
    let r = state.timer_trap(TimerOp::SetTimeout, TIME_FOREVER, old_key, &mut nodes, 1);
    assert_eq!(r.new_timeout_key, TIME_BIGBANG);
}

#[test]
fn timer_get_timeout_reports_key_in_ns() {
    let mut state = TimerState::new();
    let mut nodes = make_nodes(4);
    let r = state.timer_trap(TimerOp::GetTimeout, 0, 10, &mut nodes, 1);
    assert_eq!(r.value, 10 * NSEC_PER_TICK);
    assert!(!r.needs_hw_update);
}

#[test]
fn test_timer_interrupt() {
    let mut state = TimerState::new();
    let mut nodes = make_nodes(8);
    state.timeouts.add(&mut nodes, 1, 100);
    state.timeouts.add(&mut nodes, 2, 200);
    state.timeouts.add(&mut nodes, 3, 300);
    let mut expired = Vec::new();
    state.handle_interrupt(250, &mut nodes, &mut expired);
    assert_eq!(expired.len(), 2);
    assert!(expired.contains(&1));
    assert!(expired.contains(&2));
    assert_eq!(state.next_ticks, 300);
}

#[test]
fn test_timer_interrupt_all_expire() {
    let mut state = TimerState::new();
    let mut nodes = make_nodes(8);
    state.timeouts.add(&mut nodes, 1, 100);
    state.timeouts.add(&mut nodes, 2, 200);
    let mut expired = Vec::new();
    state.handle_interrupt(500, &mut nodes, &mut expired);
    assert_eq!(expired.len(), 2);
    assert_eq!(state.next_ticks, TIME_FOREVER);
}

#[test]
fn test_conversions() {
    assert_eq!(ticks2ns(100), 100 * NSEC_PER_TICK);
    assert_eq!(ns2ticks(5200), 100);
    assert_eq!(ns2ticks(0), 0);
}

#[test]
fn ticks_roundtrip() {
    for t in [0u64, 1, 77, 1 << 40] {
        assert_eq!(ns2ticks(ticks2ns(t)), t);
    }
}

#[test]
fn test_empty_tree() {
    let tree = TimeoutTree::new();
    let nodes = make_nodes(4);
    assert!(tree.is_empty());
    assert_eq!(tree.min(&nodes), 0);
}

#[test]
fn test_add_and_min() {
    let mut tree = TimeoutTree::new();
    let mut nodes = make_nodes(8);
    tree.add(&mut nodes, 1, 100);
    tree.add(&mut nodes, 2, 50);
    tree.add(&mut nodes, 3, 200);
    tree.add(&mut nodes, 4, 75);
    assert_eq!(tree.min(&nodes), 2);
}

#[test]
fn test_remove() {
    let mut tree = TimeoutTree::new();
    let mut nodes = make_nodes(8);
    tree.add(&mut nodes, 1, 100);
    tree.add(&mut nodes, 2, 50);
    tree.add(&mut nodes, 3, 200);
    tree.remove(&mut nodes, 2, 50);
    assert_eq!(tree.min(&nodes), 1);
    tree.remove(&mut nodes, 1, 100);
    assert_eq!(tree.min(&nodes), 3);
    tree.remove(&mut nodes, 3, 200);
    assert!(tree.is_empty());
}

#[test]
fn remove_undoes_add() {
    let mut tree = TimeoutTree::new();
    let mut nodes = make_nodes(8);
    tree.add(&mut nodes, 1, 40);
    tree.add(&mut nodes, 2, 60);
    tree.add(&mut nodes, 5, 50);
    tree.remove(&mut nodes, 5, 50);
    let mut items = Vec::new();
    tree.collect_and_clear(&nodes, &mut items);
    assert_eq!(items, vec![1, 2]);
}

#[test]
fn test_bisect() {
    let mut tree = TimeoutTree::new();
    let mut nodes = make_nodes(8);
    tree.add(&mut nodes, 1, 10);
    tree.add(&mut nodes, 2, 20);
    tree.add(&mut nodes, 3, 30);
    tree.add(&mut nodes, 4, 40);
    tree.add(&mut nodes, 5, 50);
    let (mut le, gt) = tree.bisect(&mut nodes, 25);
    assert!(tree.is_empty());
    let mut le_items = Vec::new();
    le.collect_and_clear(&nodes, &mut le_items);
    assert_eq!(le_items.len(), 2);
    assert!(le_items.iter().all(|&i| nodes[i as usize].key <= 25));
    assert_eq!(gt.min(&nodes), 3);
}

#[test]
fn test_collect_and_clear() {
    let mut tree = TimeoutTree::new();
    let mut nodes = make_nodes(8);
    tree.add(&mut nodes, 3, 30);
    tree.add(&mut nodes, 1, 10);
    tree.add(&mut nodes, 2, 20);
    let mut items = Vec::new();
    tree.collect_and_clear(&nodes, &mut items);
    assert_eq!(items.len(), 3);
    assert_eq!(nodes[items[0] as usize].key, 10);
    assert_eq!(nodes[items[1] as usize].key, 20);
    assert_eq!(nodes[items[2] as usize].key, 30);
    assert!(tree.is_empty());
}

#[test]
fn test_duplicate_keys() {
    let mut tree = TimeoutTree::new();
    let mut nodes = make_nodes(8);
    tree.add(&mut nodes, 1, 100);
    tree.add(&mut nodes, 2, 100);
    tree.add(&mut nodes, 3, 100);
    let mut items = Vec::new();
    tree.collect_and_clear(&nodes, &mut items);
    assert_eq!(items.len(), 3);
}

#[test]
fn test_bisect_all_expired() {
    let mut tree = TimeoutTree::new();
    let mut nodes = make_nodes(8);
    tree.add(&mut nodes, 1, 10);
    tree.add(&mut nodes, 2, 20);
    let (mut le, gt) = tree.bisect(&mut nodes, 100);
    let mut le_items = Vec::new();
    le.collect_and_clear(&nodes, &mut le_items);
    assert_eq!(le_items.len(), 2);
    assert!(gt.is_empty());
}

#[test]
fn test_bisect_none_expired() {
    let mut tree = TimeoutTree::new();
    let mut nodes = make_nodes(8);
    tree.add(&mut nodes, 1, 100);
    tree.add(&mut nodes, 2, 200);
    let (le, gt) = tree.bisect(&mut nodes, 50);
    assert!(le.is_empty());
    assert!(!gt.is_empty());
    assert_eq!(gt.min(&nodes), 1);
}
