//! Memory management: ASID table, software TLB, hardware TLB fill,
//! address translation and the kernel heap.

pub mod asid;
pub mod heap;
pub mod stlb;
pub mod translate;
pub mod tlb_fill;
