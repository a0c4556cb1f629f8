use minivm::sync::atomic::{
    atomic_cas, atomic_clear_mask, atomic_set_mask, atomic_swap, atomic_test_clear_mask,
    atomic_test_set_mask,
};
use std::sync::atomic::{AtomicU32, Ordering};

#[test]
fn test_set_mask() {
    let val = AtomicU32::new(0);
    atomic_set_mask(&val, 0x0F);
    assert_eq!(val.load(Ordering::Relaxed), 0x0F);
    atomic_set_mask(&val, 0xF0);
    assert_eq!(val.load(Ordering::Relaxed), 0xFF);
}

#[test]
fn test_clear_mask() {
    let val = AtomicU32::new(0xFF);
    atomic_clear_mask(&val, 0x0F);
    assert_eq!(val.load(Ordering::Relaxed), 0xF0);
}

#[test]
fn test_test_set_mask() {
    let val = AtomicU32::new(0x0F);
    let old = atomic_test_set_mask(&val, 0xF0);
    assert_eq!(old, 0x0F);
    assert_eq!(val.load(Ordering::Relaxed), 0xFF);
}

#[test]
fn test_cas() {
    let val = AtomicU32::new(42);
    let old = atomic_cas(&val, 42, 99);
    assert_eq!(old, 42);
    assert_eq!(val.load(Ordering::Relaxed), 99);
    let old = atomic_cas(&val, 42, 100);
    assert_eq!(old, 99);
    assert_eq!(val.load(Ordering::Relaxed), 99);
}

#[test]
fn test_clear_and_swap_return_old() {
    let val = AtomicU32::new(0xF3);
    assert_eq!(atomic_test_clear_mask(&val, 0x03), 0xF3);
    assert_eq!(val.load(Ordering::Relaxed), 0xF0);
    assert_eq!(atomic_swap(&val, 7), 0xF0);
    assert_eq!(val.load(Ordering::Relaxed), 7);
}
