use minivm::power::hvx::{poweron_steps, transition, HvxPowerStep, HvxState};
use minivm::sched::context::ThreadContext;
use minivm::sched::dosched::{dosched, SchedAction};
use minivm::sched::lowprio::LowPrio;
use minivm::sched::readylist::{ReadyList, IDX_NONE};
use minivm::sched::resched::resched;
use minivm::sched::runlist::RunList;
use minivm::sched::wait::{enter_wait, exit_wait};
use minivm::sched::yield_op::{sched_yield, YieldResult};
use minivm::types::consts::MAX_PRIOS;
use minivm::types::ops::ArchVersion;
use minivm::types::vm::ThreadStatus;

fn make_threads(n: usize) -> Vec<ThreadContext> {
    let mut v = Vec::new();
    for _ in 0..n {
        v.push(ThreadContext::zeroed());
    }
    v
}

#[test]
fn test_default_state() {
    assert_eq!(HvxState::default(), HvxState::Off);
}

#[test]
fn test_transition_on() {
    assert_eq!(transition(HvxState::Off, HvxState::On), Some(HvxState::On));
}

#[test]
fn test_transition_off() {
    assert_eq!(transition(HvxState::On, HvxState::Off), Some(HvxState::Off));
}

#[test]
fn test_transition_noop() {
    assert_eq!(transition(HvxState::On, HvxState::On), None);
    assert_eq!(transition(HvxState::Off, HvxState::Off), None);
}

#[test]
fn test_poweron_steps_v65() {
    let steps = poweron_steps(ArchVersion::V65);
    assert_eq!(steps.len(), 9);
    assert_eq!(steps[0], HvxPowerStep::WaitBhsOff);
    assert_eq!(steps[8], HvxPowerStep::EnableClock);
}

#[test]
fn test_poweron_steps_v68() {
    let steps = poweron_steps(ArchVersion::V68);
    assert_eq!(steps.len(), 9);
}

#[test]
fn poweron_steps_order() {
    let steps = poweron_steps(ArchVersion::V73);
    assert_eq!(
        steps,
        vec![
            HvxPowerStep::WaitBhsOff,
            HvxPowerStep::EnableBhs,
            HvxPowerStep::WaitBhsOn,
            HvxPowerStep::UnclampIo,
            HvxPowerStep::VtcmPowerOn,
            HvxPowerStep::WaitVtcmSnret,
            HvxPowerStep::WaitVtcmSret,
            HvxPowerStep::DeassertReset,
            HvxPowerStep::EnableClock,
        ]
    );
}

#[test]
fn test_context_zeroed() {
    let ctx = ThreadContext::zeroed();
    assert_eq!(ctx.next, 0);
    assert_eq!(ctx.prio, 0);
    assert_eq!(ctx.status, 0);
    assert_eq!(ctx.ssr, 0);
}

#[test]
fn test_dosched_no_ready_threads() {
    let mut ready = ReadyList::new();
    let mut runlist = RunList::new(4);
    let mut lowprio = LowPrio::new();
    let mut threads = make_threads(4);
    let action = dosched(&mut ready, &mut runlist, &mut lowprio, &mut threads, 0, 0);
    assert_eq!(action, SchedAction::Wait);
}

#[test]
fn test_dosched_picks_best() {
    let mut ready = ReadyList::new();
    let mut runlist = RunList::new(4);
    let mut lowprio = LowPrio::new();
    let mut threads = make_threads(8);
    threads[1].prio = 10;
    threads[2].prio = 5;
    ready.append(&mut threads, 1);
    ready.append(&mut threads, 2);
    let action = dosched(&mut ready, &mut runlist, &mut lowprio, &mut threads, 0, 0);
    assert_eq!(action, SchedAction::Switch(2));
    assert_eq!(threads[2].hthread, 0);
    assert_eq!(threads[2].status, ThreadStatus::Running.code());
    assert_eq!(runlist.get(0), 2);
}

#[test]
fn test_dosched_lowprio_marking() {
    let mut ready = ReadyList::new();
    let mut runlist = RunList::new(4);
    let mut lowprio = LowPrio::new();
    let mut threads = make_threads(8);
    threads[1].hthread = 1;
    threads[1].prio = 5;
    runlist.push(&mut threads, 1);
    threads[2].prio = 100;
    ready.append(&mut threads, 2);
    let action = dosched(&mut ready, &mut runlist, &mut lowprio, &mut threads, 0, 0);
    assert_eq!(action, SchedAction::Switch(2));
    assert!(lowprio.is_low(0));
}

#[test]
fn dosched_better_thread_unmarks_low() {
    let mut ready = ReadyList::new();
    let mut runlist = RunList::new(4);
    let mut lowprio = LowPrio::new();
    let mut threads = make_threads(8);
    threads[1].hthread = 1;
    threads[1].prio = 50;
    runlist.push(&mut threads, 1);
    lowprio.mark_low(0);
    threads[2].prio = 3;
    ready.append(&mut threads, 2);
    let action = dosched(&mut ready, &mut runlist, &mut lowprio, &mut threads, 0, 0);
    assert_eq!(action, SchedAction::Switch(2));
    assert!(!lowprio.is_low(0));
}

#[test]
fn test_lowprio_initial() {
    let lp = LowPrio::new();
    assert_eq!(lp.priomask, 0);
    assert_eq!(lp.wait_mask, 0);
    assert!(!lp.is_low(0));
}

#[test]
fn test_lowprio_mark_unmark() {
    let mut lp = LowPrio::new();
    lp.mark_low(2);
    assert!(lp.is_low(2));
    assert!(!lp.is_low(1));
    lp.unmark_low(2);
    assert!(!lp.is_low(2));
}

#[test]
fn test_lowprio_raise() {
    let mut lp = LowPrio::new();
    lp.mark_low(3);
    let ht = lp.raise();
    assert_eq!(ht, Some(3));
    assert_eq!(lp.priomask, 0);
}

#[test]
fn test_lowprio_raise_with_wait() {
    let mut lp = LowPrio::new();
    lp.mark_low(3);
    lp.mark_wait(1);
    assert_eq!(lp.raise(), None);
    assert_eq!(lp.priomask, 1 << 3);
}

#[test]
fn lowprio_raise_picks_lowest_thread() {
    let mut lp = LowPrio::new();
    assert_eq!(lp.raise(), None);
    lp.mark_low(4);
    lp.mark_low(2);
    assert_eq!(lp.raise(), Some(2));
    assert_eq!(lp.priomask, 0);
}

#[test]
fn test_readylist_empty() {
    let rl = ReadyList::new();
    assert!(!rl.any_valid());
    assert_eq!(rl.best_prio(), MAX_PRIOS);
}

#[test]
fn test_readylist_single_thread() {
    let mut rl = ReadyList::new();
    let mut threads = make_threads(4);
    threads[1].prio = 10;
    rl.append(&mut threads, 1);
    assert!(rl.any_valid());
    assert_eq!(rl.best_prio(), 10);
    assert!(rl.prio_valid(10));
    assert!(!rl.prio_valid(9));
    assert_eq!(threads[1].status, ThreadStatus::Ready.code());
}

#[test]
fn test_readylist_priority_ordering() {
    let mut rl = ReadyList::new();
    let mut threads = make_threads(8);
    threads[1].prio = 50;
    threads[2].prio = 10;
    threads[3].prio = 30;
    rl.append(&mut threads, 1);
    rl.append(&mut threads, 2);
    rl.append(&mut threads, 3);
    assert_eq!(rl.best_prio(), 10);
    assert_eq!(rl.getbest(&mut threads), 2);
    assert_eq!(rl.best_prio(), 30);
    assert_eq!(rl.getbest(&mut threads), 3);
    assert_eq!(rl.best_prio(), 50);
    assert_eq!(rl.getbest(&mut threads), 1);
    assert!(!rl.any_valid());
    assert_eq!(rl.getbest(&mut threads), IDX_NONE);
}

#[test]
fn test_readylist_same_priority_fifo() {
    let mut rl = ReadyList::new();
    let mut threads = make_threads(8);
    threads[1].prio = 5;
    threads[2].prio = 5;
    threads[3].prio = 5;
    rl.append(&mut threads, 1);
    rl.append(&mut threads, 2);
    rl.append(&mut threads, 3);
    assert_eq!(rl.getbest(&mut threads), 1);
    assert_eq!(rl.getbest(&mut threads), 2);
    assert_eq!(rl.getbest(&mut threads), 3);
    assert_eq!(rl.getbest(&mut threads), IDX_NONE);
}

#[test]
fn test_readylist_insert_front() {
    let mut rl = ReadyList::new();
    let mut threads = make_threads(8);
    threads[1].prio = 5;
    threads[2].prio = 5;
    threads[3].prio = 5;
    rl.append(&mut threads, 1);
    rl.append(&mut threads, 2);
    rl.insert(&mut threads, 3);
    assert_eq!(rl.getbest(&mut threads), 3);
    assert_eq!(rl.getbest(&mut threads), 1);
    assert_eq!(rl.getbest(&mut threads), 2);
}

#[test]
fn test_readylist_remove_middle() {
    let mut rl = ReadyList::new();
    let mut threads = make_threads(8);
    threads[1].prio = 5;
    threads[2].prio = 5;
    threads[3].prio = 5;
    rl.append(&mut threads, 1);
    rl.append(&mut threads, 2);
    rl.append(&mut threads, 3);
    rl.remove(&mut threads, 2);
    assert_eq!(rl.getbest(&mut threads), 1);
    assert_eq!(rl.getbest(&mut threads), 3);
    assert_eq!(rl.getbest(&mut threads), IDX_NONE);
}

#[test]
fn test_readylist_remove_head() {
    let mut rl = ReadyList::new();
    let mut threads = make_threads(8);
    threads[1].prio = 5;
    threads[2].prio = 5;
    rl.append(&mut threads, 1);
    rl.append(&mut threads, 2);
    rl.remove(&mut threads, 1);
    assert_eq!(rl.getbest(&mut threads), 2);
    assert_eq!(rl.getbest(&mut threads), IDX_NONE);
}

#[test]
fn test_readylist_remove_last() {
    let mut rl = ReadyList::new();
    let mut threads = make_threads(4);
    threads[1].prio = 5;
    rl.append(&mut threads, 1);
    rl.remove(&mut threads, 1);
    assert!(!rl.any_valid());
    assert!(!rl.prio_valid(5));
}

#[test]
fn test_readylist_high_priorities() {
    let mut rl = ReadyList::new();
    let mut threads = make_threads(4);
    threads[1].prio = 200;
    threads[2].prio = 255;
    rl.append(&mut threads, 1);
    rl.append(&mut threads, 2);
    assert_eq!(rl.best_prio(), 200);
    assert_eq!(rl.getbest(&mut threads), 1);
    assert_eq!(rl.best_prio(), 255);
    assert_eq!(rl.getbest(&mut threads), 2);
}

#[test]
fn readylist_prio_valid_out_of_range() {
    let rl = ReadyList::new();
    assert!(!rl.prio_valid(256));
    assert!(!rl.prio_valid(u32::MAX));
}

#[test]
fn test_ring_append_single() {
    let mut rl = ReadyList::new();
    let mut threads = make_threads(4);
    rl.append(&mut threads, 1);
    assert_eq!(threads[1].next, 1);
    assert_eq!(threads[1].prev, 1);
    assert_eq!(rl.getbest(&mut threads), 1);
}

#[test]
fn test_ring_append_multiple() {
    let mut rl = ReadyList::new();
    let mut threads = make_threads(4);
    rl.append(&mut threads, 1);
    rl.append(&mut threads, 2);
    rl.append(&mut threads, 3);
    assert_eq!(threads[1].next, 2);
    assert_eq!(threads[2].next, 3);
    assert_eq!(threads[3].next, 1);
    assert_eq!(threads[1].prev, 3);
    assert_eq!(threads[3].prev, 2);
    assert_eq!(threads[2].prev, 1);
    assert_eq!(rl.getbest(&mut threads), 1);
}

#[test]
fn test_ring_remove_only() {
    let mut rl = ReadyList::new();
    let mut threads = make_threads(4);
    rl.append(&mut threads, 1);
    rl.remove(&mut threads, 1);
    assert_eq!(rl.getbest(&mut threads), IDX_NONE);
}

#[test]
fn test_resched_current_goes_to_ready() {
    let mut ready = ReadyList::new();
    let mut runlist = RunList::new(4);
    let mut lowprio = LowPrio::new();
    let mut threads = make_threads(8);
    threads[1].hthread = 0;
    threads[1].prio = 10;
    runlist.push(&mut threads, 1);
    threads[2].prio = 5;
    ready.append(&mut threads, 2);
    let action = resched(&mut ready, &mut runlist, &mut lowprio, &mut threads, 1, 0);
    assert_eq!(action, SchedAction::Switch(2));
    assert!(ready.prio_valid(10));
}

#[test]
fn test_resched_from_wait_mode() {
    let mut ready = ReadyList::new();
    let mut runlist = RunList::new(4);
    let mut lowprio = LowPrio::new();
    let mut threads = make_threads(8);
    lowprio.mark_wait(0);
    threads[1].prio = 5;
    ready.append(&mut threads, 1);
    let action = resched(&mut ready, &mut runlist, &mut lowprio, &mut threads, IDX_NONE, 0);
    assert_eq!(action, SchedAction::Switch(1));
    assert_eq!(lowprio.wait_mask & 1, 0);
}

#[test]
fn test_resched_nothing_ready() {
    let mut ready = ReadyList::new();
    let mut runlist = RunList::new(4);
    let mut lowprio = LowPrio::new();
    let mut threads = make_threads(4);
    threads[1].hthread = 0;
    threads[1].prio = 10;
    runlist.push(&mut threads, 1);
    let action = resched(&mut ready, &mut runlist, &mut lowprio, &mut threads, 1, 0);
    assert_eq!(action, SchedAction::Switch(1));
}

#[test]
fn test_runlist_empty() {
    let rl = RunList::new(4);
    assert_eq!(rl.worst_prio(), MAX_PRIOS);
    assert_eq!(rl.worst_prio_hthread(), u32::MAX);
    assert_eq!(rl.get(0), IDX_NONE);
}

#[test]
fn test_runlist_push() {
    let mut rl = RunList::new(4);
    let mut threads = make_threads(4);
    threads[1].hthread = 0;
    threads[1].prio = 10;
    rl.push(&mut threads, 1);
    assert_eq!(rl.get(0), 1);
    assert_eq!(rl.get_prio(0), 10);
    assert_eq!(threads[1].status, ThreadStatus::Running.code());
}

#[test]
fn test_runlist_worst_prio() {
    let mut rl = RunList::new(4);
    let mut threads = make_threads(4);
    threads[1].hthread = 0;
    threads[1].prio = 10;
    threads[2].hthread = 1;
    threads[2].prio = 50;
    threads[3].hthread = 2;
    threads[3].prio = 30;
    rl.push(&mut threads, 1);
    rl.push(&mut threads, 2);
    rl.push(&mut threads, 3);
    assert_eq!(rl.worst_prio(), 50);
    assert_eq!(rl.worst_prio_hthread(), 1);
}

#[test]
fn test_runlist_remove() {
    let mut rl = RunList::new(4);
    let mut threads = make_threads(4);
    threads[1].hthread = 0;
    threads[1].prio = 10;
    rl.push(&mut threads, 1);
    rl.remove(&threads, 1);
    assert_eq!(rl.get(0), IDX_NONE);
    assert_eq!(rl.get_prio(0), -1);
}

#[test]
fn runlist_ignores_slots_past_hthreads() {
    let mut rl = RunList::new(2);
    let mut threads = make_threads(4);
    threads[1].hthread = 3;
    threads[1].prio = 90;
    rl.push(&mut threads, 1);
    assert_eq!(rl.worst_prio(), MAX_PRIOS);
    assert_eq!(rl.get(3), 1);
}

#[test]
fn test_enter_exit_wait() {
    let mut lp = LowPrio::new();
    assert_eq!(lp.wait_mask, 0);
    enter_wait(&mut lp, 2);
    assert_eq!(lp.wait_mask, 1 << 2);
    exit_wait(&mut lp, 2);
    assert_eq!(lp.wait_mask, 0);
}

#[test]
fn test_multiple_waiters() {
    let mut lp = LowPrio::new();
    enter_wait(&mut lp, 0);
    enter_wait(&mut lp, 3);
    assert_eq!(lp.wait_mask, (1 << 0) | (1 << 3));
    exit_wait(&mut lp, 0);
    assert_eq!(lp.wait_mask, 1 << 3);
}

#[test]
fn test_yield_no_same_prio() {
    let mut ready = ReadyList::new();
    let mut runlist = RunList::new(4);
    let mut lowprio = LowPrio::new();
    let mut threads = make_threads(8);
    threads[1].hthread = 0;
    threads[1].prio = 10;
    runlist.push(&mut threads, 1);
    let result = sched_yield(&mut ready, &mut runlist, &mut lowprio, &mut threads, 1);
    assert_eq!(result, YieldResult::NoOp);
    assert_eq!(threads[1].status, ThreadStatus::Running.code());
}

#[test]
fn test_yield_to_same_prio() {
    let mut ready = ReadyList::new();
    let mut runlist = RunList::new(4);
    let mut lowprio = LowPrio::new();
    let mut threads = make_threads(8);
    threads[1].hthread = 0;
    threads[1].prio = 10;
    runlist.push(&mut threads, 1);
    threads[2].prio = 10;
    ready.append(&mut threads, 2);
    let result = sched_yield(&mut ready, &mut runlist, &mut lowprio, &mut threads, 1);
    match result {
        YieldResult::Switched(SchedAction::Switch(idx)) => assert_eq!(idx, 2),
        _ => panic!("Expected switch to thread 2"),
    }
}

#[test]
fn test_yield_round_robin() {
    let mut ready = ReadyList::new();
    let mut runlist = RunList::new(4);
    let mut lowprio = LowPrio::new();
    let mut threads = make_threads(8);
    threads[1].hthread = 0;
    threads[1].prio = 5;
    runlist.push(&mut threads, 1);
    threads[2].prio = 5;
    threads[3].prio = 5;
    ready.append(&mut threads, 2);
    ready.append(&mut threads, 3);
    let result = sched_yield(&mut ready, &mut runlist, &mut lowprio, &mut threads, 1);
    match result {
        YieldResult::Switched(SchedAction::Switch(idx)) => assert_eq!(idx, 2),
        _ => panic!("Expected switch to thread 2"),
    }
    assert_eq!(ready.getbest(&mut threads), 3);
    assert_eq!(ready.getbest(&mut threads), 1);
}

#[test]
fn defaults_are_empty() {
    let rl = ReadyList::default();
    assert!(!rl.any_valid());
    let lp = LowPrio::default();
    assert_eq!(lp.priomask, 0);
    assert_eq!(lp.wait_mask, 0);
    let shared = minivm::intc::shared::SharedIntState::default();
    assert_eq!(shared.num_ints, 0);
    let futex = minivm::thread::futex::FutexTable::default();
    assert!(futex.buckets.iter().all(|&b| b == 0));
    let tag = minivm::mem::heap::AllocTag::default();
    assert_eq!(tag.0, 0);
    let blk = minivm::mem::heap::AllocBlock::default();
    assert_eq!((blk.offset, blk.size), (0, 0));
}
