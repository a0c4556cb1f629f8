//! Trap and interrupt entry decisions.

pub mod interrupt;
pub mod preempt;
pub mod trap0;
pub mod trap1;
