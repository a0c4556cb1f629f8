//! Verified core logic of a Hexagon type-1 hypervisor: interrupt
//! controller, scheduler queues, address translation, ASID and software
//! TLB management, timeouts, futex queues and trap decoding.

pub mod bits;
pub mod types;
pub mod intc;
pub mod sched;
pub mod thread;
pub mod timer;
pub mod mem;
pub mod event;
pub mod trap;
pub mod power;
pub mod init;
pub mod arch;
pub mod sync;
