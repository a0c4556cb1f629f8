//! Virtual interrupt controller: per-CPU and shared interrupt state,
//! operation dispatch and delivery decisions.

pub mod deliver;
pub mod intop;
pub mod ipi;
pub mod percpu;
pub mod shared;
