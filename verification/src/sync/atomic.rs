//! Atomic bitmask operations (set, clear, test, swap, compare-and-swap)
//! on a shared 32-bit word, all with acquire-release ordering.
//!
//! The value held by an atomic word can change under other threads at any
//! moment, so these functions promise nothing about the values they read
//! or leave: what each does is one read-modify-write of the word.

use vstd::prelude::*;
use core::sync::atomic::AtomicU32;
use core::sync::atomic::Ordering;

verus! {

/// Set the bits of `mask` in `target`.
pub fn atomic_set_mask(target: &AtomicU32, mask: u32) {
    let _ = target.fetch_or(mask, Ordering::AcqRel);
}

/// Clear the bits of `mask` in `target`.
pub fn atomic_clear_mask(target: &AtomicU32, mask: u32) {
    let _ = target.fetch_and(!mask, Ordering::AcqRel);
}

/// Set the bits of `mask` in `target`; returns the word before.
pub fn atomic_test_set_mask(target: &AtomicU32, mask: u32) -> u32 {
    target.fetch_or(mask, Ordering::AcqRel)
}

/// Clear the bits of `mask` in `target`; returns the word before.
pub fn atomic_test_clear_mask(target: &AtomicU32, mask: u32) -> u32 {
    target.fetch_and(!mask, Ordering::AcqRel)
}

/// Store `new_val` in `target`; returns the word before.
pub fn atomic_swap(target: &AtomicU32, new_val: u32) -> u32 {
    target.swap(new_val, Ordering::AcqRel)
}

/// Store `new_val` in `target` if it holds `expected`; returns the word
/// before, whether or not the store happened.
pub fn atomic_cas(target: &AtomicU32, expected: u32, new_val: u32) -> u32 {
    match target.compare_exchange(expected, new_val, Ordering::AcqRel, Ordering::Relaxed) {
        Ok(old) => old,
        Err(old) => old,
    }
}

} // verus!
