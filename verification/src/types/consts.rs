use vstd::prelude::*;

verus! {

/// Bit position of the interrupt-enable flag in SSR.
pub const SSR_IE_BIT: u32 = 18;

/// Number of per-CPU virtual interrupts (the rest are shared).
pub const PERCPU_INTERRUPTS: u32 = 16;

/// Interrupt used to request a reschedule on another hardware thread.
pub const RESCHED_INT: u32 = 1;

/// Largest (worst) thread priority.
pub const MAX_PRIO: u32 = 255;

/// Number of distinct thread priorities.
pub const MAX_PRIOS: u32 = 256;

/// Number of bits in an address-space identifier.
pub const ASID_BITS: u32 = 7;

/// Number of ASID table entries.
pub const MAX_ASIDS: u32 = 128;

/// Number of sets in the software TLB of one ASID.
pub const STLB_MAX_SETS: u32 = 2048;

/// Number of ways per software TLB set.
pub const STLB_MAX_WAYS: u32 = 4;

/// Largest page-size encoding the hardware TLB accepts (16 MB).
pub const PAGE_SIZE_MAX: u8 = 6;

/// Guest interrupt posted when a thread's timeout expires.
pub const MINIVM_TIME_GUESTINT: u32 = 3;

/// Number of hardware threads.
pub const MAX_HTHREADS: u32 = 6;

/// Heap allocation granule, in tag words.
pub const ALLOC_UNIT: u32 = 8;

/// Bit position of the cache attribute field in a TLB entry's low word.
pub const TLB_ENTRY_C_BITS: u32 = 24;

/// log2 of the smallest page size.
pub const PAGE_BITS: u32 = 12;

} // verus!
