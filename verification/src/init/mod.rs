//! Boot: the order of initialisation, the memory layout, the kernel
//! globals, the L2 cache and the TCM.

pub mod boot;
pub mod globals;
pub mod l2cache;
pub mod tcm;
