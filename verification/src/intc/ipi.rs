//! Inter-processor interrupts that make another hardware thread
//! reschedule.

use vstd::prelude::*;
use crate::types::consts::RESCHED_INT;

verus! {

/// Interrupt number and hardware-thread mask that target `hthread`.
pub fn ipi_target(hthread: u8) -> (r: (u32, u32))
    requires
        hthread < 32,
    ensures
        r.0 == RESCHED_INT,
        r.1 == 1u32 << hthread,
{
    (RESCHED_INT, 1u32 << hthread)
}

} // verus!
