use minivm::trap::interrupt::{
    extract_l1_int, handler_offset, is_l2_core_interrupt, l2_vid_to_global, resolve_interrupt,
};
use minivm::trap::preempt::{needs_reschedule, PREEMPT_MARKER};
use minivm::trap::trap0::{
    calculate_cputime, calculate_wait_cycles, extract_trap_num, validate_tid, KernelTrap,
};
use minivm::trap::trap1::{extract_trap1_num, is_trap_permitted};

#[test]
fn test_extract_l1_int() {
    assert_eq!(extract_l1_int(0x00), 0);
    assert_eq!(extract_l1_int(0x02), 2);
    assert_eq!(extract_l1_int(0x1F), 31);
    assert_eq!(extract_l1_int(0xFF), 31);
}

#[test]
fn test_is_l2_core_interrupt() {
    assert!(is_l2_core_interrupt(2));
    assert!(!is_l2_core_interrupt(0));
    assert!(!is_l2_core_interrupt(1));
    assert!(!is_l2_core_interrupt(3));
}

#[test]
fn test_l2_vid_to_global() {
    assert_eq!(l2_vid_to_global(0), 32);
    assert_eq!(l2_vid_to_global(10), 42);
    assert_eq!(l2_vid_to_global(255), 287);
}

#[test]
fn test_resolve_l1_interrupt() {
    assert_eq!(resolve_interrupt(0, 0), 0);
    assert_eq!(resolve_interrupt(5, 0), 5);
    assert_eq!(resolve_interrupt(31, 0), 31);
}

#[test]
fn test_resolve_l2_interrupt() {
    assert_eq!(resolve_interrupt(2, 0), 32);
    assert_eq!(resolve_interrupt(2, 10), 42);
    assert_eq!(resolve_interrupt(2, 255), 287);
}

#[test]
fn test_handler_offset() {
    assert_eq!(handler_offset(0), 0);
    assert_eq!(handler_offset(1), 8);
    assert_eq!(handler_offset(32), 256);
}

#[test]
fn test_needs_reschedule_higher_priority() {
    assert!(needs_reschedule(10, 5));
}

#[test]
fn test_needs_reschedule_same_priority() {
    assert!(!needs_reschedule(10, 10));
}

#[test]
fn test_needs_reschedule_lower_priority() {
    assert!(!needs_reschedule(5, 10));
}

#[test]
fn test_preempt_marker() {
    assert_eq!(PREEMPT_MARKER, 1);
}

#[test]
fn test_kernel_trap_from_raw() {
    assert_eq!(KernelTrap::from_raw(0), Some(KernelTrap::Semihosting));
    assert_eq!(KernelTrap::from_raw(4), Some(KernelTrap::ThreadCreate));
    assert_eq!(KernelTrap::from_raw(5), Some(KernelTrap::ThreadStop));
    assert_eq!(KernelTrap::from_raw(12), Some(KernelTrap::SchedYield));
    assert_eq!(KernelTrap::from_raw(22), Some(KernelTrap::Timer));
    assert_eq!(KernelTrap::from_raw(28), Some(KernelTrap::VmOp));
    assert_eq!(KernelTrap::from_raw(31), Some(KernelTrap::HwConfig));
}

#[test]
fn test_kernel_trap_invalid() {
    assert_eq!(KernelTrap::from_raw(13), None);
    assert_eq!(KernelTrap::from_raw(32), None);
    assert_eq!(KernelTrap::from_raw(255), None);
}

#[test]
fn kernel_traps_decode_every_code_but_thirteen() {
    let mut decoded = 0;
    for v in 0..=255u8 {
        if KernelTrap::from_raw(v).is_some() {
            decoded += 1;
            assert!(v < 32 && v != 13);
        }
    }
    assert_eq!(decoded, 31);
}

#[test]
fn test_extract_trap_num() {
    assert_eq!(extract_trap_num(0x00), Some(0));
    assert_eq!(extract_trap_num(0x1C), Some(28));
    assert_eq!(extract_trap_num(0x1F), Some(31));
    assert_eq!(extract_trap_num(0x20), None);
    assert_eq!(extract_trap_num(0xFF), None);
    assert_eq!(extract_trap_num(0x100), Some(0));
}

#[test]
fn test_calculate_cputime() {
    assert_eq!(calculate_cputime(1000, 5000, 3000), 3000);
    assert_eq!(calculate_cputime(0, 100, 0), 100);
}

#[test]
fn cputime_wraps() {
    assert_eq!(calculate_cputime(0, 5, 10), u64::MAX - 4);
    assert_eq!(calculate_cputime(u64::MAX, 1, 0), 0);
}

#[test]
fn test_calculate_wait_cycles() {
    assert_eq!(calculate_wait_cycles(100, 500, 300, true), 300);
    assert_eq!(calculate_wait_cycles(100, 500, 300, false), 100);
}

#[test]
fn test_validate_tid() {
    assert!(validate_tid(0));
    assert!(validate_tid(255));
    assert!(!validate_tid(256));
}

#[test]
fn test_trap_permitted() {
    let mask = 0xFFFF_FFFF;
    assert!(is_trap_permitted(0, mask));
    assert!(is_trap_permitted(31, mask));
}

#[test]
fn test_trap_not_permitted() {
    let mask = 0x0000_0001;
    assert!(is_trap_permitted(0, mask));
    assert!(!is_trap_permitted(1, mask));
    assert!(!is_trap_permitted(31, mask));
}

#[test]
fn test_trap_out_of_range() {
    assert!(!is_trap_permitted(32, 0xFFFF_FFFF));
    assert!(!is_trap_permitted(255, 0xFFFF_FFFF));
}

#[test]
fn test_extract_trap1_num() {
    assert_eq!(extract_trap1_num(0x00), 0);
    assert_eq!(extract_trap1_num(0x01), 1);
    assert_eq!(extract_trap1_num(0x1F), 31);
    assert_eq!(extract_trap1_num(0xFF), 31);
}

#[test]
fn test_selective_mask() {
    let mask = (1 << 0) | (1 << 1) | (1 << 5) | (1 << 16);
    assert!(is_trap_permitted(0, mask));
    assert!(is_trap_permitted(1, mask));
    assert!(!is_trap_permitted(2, mask));
    assert!(is_trap_permitted(5, mask));
    assert!(!is_trap_permitted(6, mask));
    assert!(is_trap_permitted(16, mask));
}
