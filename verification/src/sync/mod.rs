//! Atomic bitmask operations on shared words.

pub mod atomic;
