//! Exception vectors and fast interrupts.

pub mod fastint;
pub mod vectors;
