use minivm::intc::deliver::{deliver_action, has_deliverable_interrupts, DeliverAction};
use minivm::intc::intop::{intop_dispatch, IntOpResult};
use minivm::intc::ipi::ipi_target;
use minivm::intc::percpu::CpuIntState;
use minivm::intc::shared::SharedIntState;
use minivm::types::consts::{PERCPU_INTERRUPTS, RESCHED_INT};
use minivm::types::ops::IntOp;
use minivm::types::vm::ThreadStatus;

#[test]
fn test_deliver_vmwait() {
    assert_eq!(deliver_action(ThreadStatus::VmWait, 0, false), DeliverAction::Enqueue);
}

#[test]
fn test_deliver_running_ie() {
    assert_eq!(deliver_action(ThreadStatus::Running, 2, true), DeliverAction::SendIpi(2));
}

#[test]
fn test_deliver_running_no_ie() {
    assert_eq!(deliver_action(ThreadStatus::Running, 2, false), DeliverAction::Nothing);
}

#[test]
fn test_deliver_blocked_ie() {
    assert_eq!(
        deliver_action(ThreadStatus::Blocked, 0, true),
        DeliverAction::CancelBlockAndEnqueue
    );
}

#[test]
fn test_deliver_ready() {
    assert_eq!(deliver_action(ThreadStatus::Ready, 0, true), DeliverAction::Nothing);
}

#[test]
fn test_deliver_dead() {
    assert_eq!(deliver_action(ThreadStatus::Dead, 0, true), DeliverAction::Dead);
}

#[test]
fn deliver_blocked_without_ie_does_nothing() {
    assert_eq!(deliver_action(ThreadStatus::Blocked, 0, false), DeliverAction::Nothing);
    assert_eq!(deliver_action(ThreadStatus::VmWait, 4, true), DeliverAction::Enqueue);
}

#[test]
fn test_has_deliverable() {
    assert!(has_deliverable_interrupts(0x08, 0x08, true));
    assert!(!has_deliverable_interrupts(0x08, 0x08, false));
    assert!(!has_deliverable_interrupts(0x08, 0x04, true));
    assert!(!has_deliverable_interrupts(0x00, 0x08, true));
}

#[test]
fn test_intop_nop() {
    let mut cpu = CpuIntState::new();
    let mut shared = SharedIntState::new();
    assert_eq!(intop_dispatch(&mut cpu, &mut shared, IntOp::Nop, 0, 0), IntOpResult::Ret(0));
}

#[test]
fn test_intop_cpuint_post_get() {
    let mut cpu = CpuIntState::new();
    let mut shared = SharedIntState::new();
    intop_dispatch(&mut cpu, &mut shared, IntOp::LocEn, 3, 0);
    let result = intop_dispatch(&mut cpu, &mut shared, IntOp::Post, 3, 0);
    assert_eq!(result, IntOpResult::Deliver(0));
    let result = intop_dispatch(&mut cpu, &mut shared, IntOp::Get, 0, 0);
    assert_eq!(result, IntOpResult::Ret(3));
}

#[test]
fn test_intop_cpuint_post_locen() {
    let mut cpu = CpuIntState::new();
    let mut shared = SharedIntState::new();
    let result = intop_dispatch(&mut cpu, &mut shared, IntOp::Post, 13, 0);
    assert_eq!(result, IntOpResult::Ret(0));
    let result = intop_dispatch(&mut cpu, &mut shared, IntOp::Status, 13, 0);
    assert_eq!(result, IntOpResult::Ret(5));
    let result = intop_dispatch(&mut cpu, &mut shared, IntOp::LocEn, 13, 0);
    assert_eq!(result, IntOpResult::Deliver(0));
}

#[test]
fn test_intop_shint_post_get() {
    let mut cpu = CpuIntState::new();
    let mut shared = SharedIntState::new();
    shared.init(32, 1);
    intop_dispatch(&mut cpu, &mut shared, IntOp::GlobEn, 20, 0);
    let result = intop_dispatch(&mut cpu, &mut shared, IntOp::Post, 20, 0);
    assert_eq!(result, IntOpResult::Deliver(0));
    let result = intop_dispatch(&mut cpu, &mut shared, IntOp::Get, 0, 0);
    assert_eq!(result, IntOpResult::Ret(20));
}

#[test]
fn test_intop_status() {
    let mut cpu = CpuIntState::new();
    let mut shared = SharedIntState::new();
    shared.init(32, 1);
    cpu.post(5);
    let result = intop_dispatch(&mut cpu, &mut shared, IntOp::Status, 5, 0);
    assert_eq!(result, IntOpResult::Ret(5));
    shared.enable(10);
    let result = intop_dispatch(&mut cpu, &mut shared, IntOp::Status, 10 + PERCPU_INTERRUPTS, 0);
    assert_eq!(result, IntOpResult::Ret(0b110));
}

#[test]
fn test_intop_disable() {
    let mut cpu = CpuIntState::new();
    let mut shared = SharedIntState::new();
    cpu.local_enable(3);
    cpu.post(3);
    assert!(cpu.any_deliverable());
    intop_dispatch(&mut cpu, &mut shared, IntOp::GlobDis, 3, 0);
    assert!(!cpu.any_deliverable());
}

#[test]
fn test_intop_clear_returns_was_pending() {
    let mut cpu = CpuIntState::new();
    let mut shared = SharedIntState::new();
    cpu.post(3);
    let result = intop_dispatch(&mut cpu, &mut shared, IntOp::Clear, 3, 0);
    assert_eq!(result, IntOpResult::Ret(1));
    let result = intop_dispatch(&mut cpu, &mut shared, IntOp::Clear, 3, 0);
    assert_eq!(result, IntOpResult::Ret(0));
}

#[test]
fn test_intop_locdis_percpu() {
    let mut cpu = CpuIntState::new();
    let mut shared = SharedIntState::new();
    cpu.local_enable(3);
    cpu.post(3);
    assert!(cpu.any_deliverable());
    intop_dispatch(&mut cpu, &mut shared, IntOp::LocDis, 3, 0);
    assert!(!cpu.any_deliverable());
}

#[test]
fn intop_affinity_and_peek() {
    let mut cpu = CpuIntState::new();
    let mut shared = SharedIntState::new();
    shared.init(32, 2);
    assert_eq!(
        intop_dispatch(&mut cpu, &mut shared, IntOp::Affinity, 3, 0),
        IntOpResult::Ret(-1)
    );
    assert_eq!(
        intop_dispatch(&mut cpu, &mut shared, IntOp::Affinity, 20, 1),
        IntOpResult::Ret(0)
    );
    shared.enable(4);
    shared.post(4);
    assert_eq!(intop_dispatch(&mut cpu, &mut shared, IntOp::Peek, 0, 0), IntOpResult::Ret(-1));
    assert_eq!(intop_dispatch(&mut cpu, &mut shared, IntOp::Peek, 0, 1), IntOpResult::Ret(20));
    assert_eq!(intop_dispatch(&mut cpu, &mut shared, IntOp::Get, 0, 0), IntOpResult::Ret(-1));
}

#[test]
fn test_ipi_target() {
    let (int, mask) = ipi_target(3);
    assert_eq!(int, RESCHED_INT);
    assert_eq!(mask, 1 << 3);
}

#[test]
fn test_cpuint_initial() {
    let s = CpuIntState::new();
    assert_eq!(s.pending, 0);
    assert_eq!(s.enabled, 0);
    assert_eq!(s.local_en, 0);
    assert_eq!(s.peek(), -1);
    assert!(!s.any_deliverable());
}

#[test]
fn test_cpuint_post_not_locally_enabled() {
    let mut s = CpuIntState::new();
    let deliverable = s.post(3);
    assert!(!deliverable);
    assert_eq!(s.pending, 1 << 3);
    assert_eq!(s.enabled, 1 << 3);
    assert_eq!(s.peek(), 3);
    assert!(!s.any_deliverable());
}

#[test]
fn test_cpuint_post_locally_enabled() {
    let mut s = CpuIntState::new();
    s.local_enable(3);
    let deliverable = s.post(3);
    assert!(deliverable);
    assert_eq!(s.peek(), 3);
    assert_eq!(s.peek_deliverable(), 3);
}

#[test]
fn test_cpuint_get_requires_local() {
    let mut s = CpuIntState::new();
    s.post(3);
    assert_eq!(s.get(), -1);
    s.local_enable(3);
    assert_eq!(s.get(), 3);
    assert_eq!(s.get(), -1);
}

#[test]
fn test_cpuint_get_priority() {
    let mut s = CpuIntState::new();
    s.local_enable(5);
    s.local_enable(3);
    s.post(5);
    s.post(3);
    assert_eq!(s.get(), 3);
    assert_eq!(s.get(), 5);
    assert_eq!(s.get(), -1);
}

#[test]
fn test_cpuint_clear_returns_was_pending() {
    let mut s = CpuIntState::new();
    s.post(3);
    assert!(s.clear(3));
    assert!(!s.clear(3));
}

#[test]
fn test_cpuint_disable() {
    let mut s = CpuIntState::new();
    s.local_enable(3);
    s.post(3);
    assert!(s.any_deliverable());
    s.disable(3);
    assert!(!s.any_deliverable());
    assert_eq!(s.pending, 1 << 3);
}

#[test]
fn test_cpuint_local_disable() {
    let mut s = CpuIntState::new();
    s.local_enable(3);
    s.post(3);
    assert!(s.any_deliverable());
    s.local_disable(3);
    assert!(!s.any_deliverable());
    assert_eq!(s.pending, 1 << 3);
}

#[test]
fn test_cpuint_status() {
    let mut s = CpuIntState::new();
    assert_eq!(s.status(3), 0);
    s.post(3);
    assert_eq!(s.status(3), 5);
    s.local_enable(3);
    assert_eq!(s.status(3), 7);
}

#[test]
fn test_cpuint_locen_triggers_delivery() {
    let mut s = CpuIntState::new();
    s.post(13);
    assert!(!s.any_deliverable());
    assert_eq!(s.status(13), 5);
    let deliverable = s.local_enable(13);
    assert!(deliverable);
    assert_eq!(s.status(13), 7);
    assert_eq!(s.get(), 13);
    assert_eq!(s.status(13), 2);
}

#[test]
fn test_cpuint_full_interrupt_flow() {
    let mut s = CpuIntState::new();
    s.post(13);
    assert_eq!(s.status(13), 5);
    s.post(15);
    assert_eq!(s.peek(), 13);
    assert!(s.local_enable(13));
    assert_eq!(s.get(), 13);
    s.enable(13);
    assert_eq!(s.status(13), 6);
    assert_eq!(s.peek(), 15);
    s.local_disable(13);
    assert_eq!(s.status(13), 4);
    s.post(13);
    assert_eq!(s.status(13), 5);
    assert!(s.local_enable(13));
    assert_eq!(s.get(), 13);
    s.enable(13);
    assert!(s.clear(15));
    assert_eq!(s.peek(), -1);
}

#[test]
fn test_cpuint_out_of_range() {
    let mut s = CpuIntState::new();
    assert!(!s.post(16));
    assert!(!s.enable(20));
    assert!(!s.local_enable(20));
    assert_eq!(s.status(16), 0);
}

#[test]
fn cpuint_post_reports_any_deliverable() {
    let mut s = CpuIntState::new();
    s.local_enable(2);
    assert!(s.post(2));
    assert!(s.post(4));
    assert!(s.clear(2));
    assert!(!s.post(4));
    assert!(!s.clear(16));
}

#[test]
fn test_shint_initial() {
    let s = SharedIntState::new();
    assert_eq!(s.num_ints, 0);
    assert_eq!(s.peek(0, 0), -1);
}

#[test]
fn test_shint_post_and_get() {
    let mut s = SharedIntState::new();
    s.init(32, 2);
    s.enable(5);
    let cpu = s.post(5);
    assert!(cpu >= 0);
    let intno = s.get(0, 16);
    assert_eq!(intno, 16 + 5);
}

#[test]
fn test_shint_not_enabled() {
    let mut s = SharedIntState::new();
    s.init(32, 1);
    let cpu = s.post(5);
    assert_eq!(cpu, -1);
    assert_eq!(s.peek(0, 0), -1);
}

#[test]
fn test_shint_local_disable() {
    let mut s = SharedIntState::new();
    s.init(32, 2);
    s.enable(5);
    s.local_disable(5, 0);
    s.post(5);
    assert_eq!(s.peek(0, 0), -1);
    assert_eq!(s.peek(1, 0), 5);
}

#[test]
fn test_shint_affinity() {
    let mut s = SharedIntState::new();
    s.init(32, 4);
    s.enable(10);
    s.set_affinity(10, 2);
    s.post(10);
    assert_eq!(s.peek(0, 0), -1);
    assert_eq!(s.peek(1, 0), -1);
    assert_eq!(s.peek(2, 0), 10);
    assert_eq!(s.peek(3, 0), -1);
}

#[test]
fn test_shint_clear() {
    let mut s = SharedIntState::new();
    s.init(32, 1);
    s.enable(5);
    s.post(5);
    assert!(s.peek(0, 0) >= 0);
    s.clear(5);
    assert_eq!(s.peek(0, 0), -1);
}

#[test]
fn test_shint_disable() {
    let mut s = SharedIntState::new();
    s.init(32, 1);
    s.enable(5);
    s.post(5);
    assert!(s.peek(0, 0) >= 0);
    s.disable(5);
    assert_eq!(s.peek(0, 0), -1);
}

#[test]
fn test_shint_status() {
    let mut s = SharedIntState::new();
    s.init(32, 1);
    assert_eq!(s.status(5, 0), 0b010);
    s.enable(5);
    assert_eq!(s.status(5, 0), 0b110);
    s.post(5);
    assert_eq!(s.status(5, 0), 0b111);
}

#[test]
fn test_shint_multiple_interrupts() {
    let mut s = SharedIntState::new();
    s.init(64, 1);
    s.enable(5);
    s.enable(10);
    s.enable(33);
    s.post(5);
    s.post(10);
    s.post(33);
    assert_eq!(s.get(0, 0), 5);
    assert_eq!(s.get(0, 0), 10);
    assert_eq!(s.get(0, 0), 33);
    assert_eq!(s.get(0, 0), -1);
}

#[test]
fn shint_out_of_range_is_refused() {
    let mut s = SharedIntState::new();
    s.init(32, 2);
    assert_eq!(s.post(32), -1);
    assert_eq!(s.enable(40), -1);
    assert!(!s.clear(32));
    assert_eq!(s.local_enable(3, 2), -1);
    assert_eq!(s.status(3, 5), 0);
    assert_eq!(s.get(7, 0), -1);
}

#[test]
fn shint_enable_after_post_targets_cpu() {
    let mut s = SharedIntState::new();
    s.init(32, 2);
    s.local_disable(6, 0);
    assert_eq!(s.post(6), -1);
    assert_eq!(s.enable(6), 1);
    assert_eq!(s.enable(6), -1);
    assert_eq!(s.local_enable(6, 0), 0);
}
