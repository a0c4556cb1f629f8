//! Timeouts: the tree that orders them and the timer operations built on it.

pub mod tree;
pub mod timer;
