//! Priority scheduler: ready queues, per-hardware-thread run slots, the
//! lowest-priority tracking and the scheduling decisions built on them.

pub mod context;
pub mod ring;
pub mod readylist;
pub mod lowprio;
pub mod wait;
pub mod runlist;
pub mod dosched;
pub mod resched;
pub mod yield_op;
pub mod switch_ctx;
