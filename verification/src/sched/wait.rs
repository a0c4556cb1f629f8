//! Wait mode of idle hardware threads.

use vstd::prelude::*;
use crate::sched::lowprio::{LowPrio, hmask};

verus! {

/// Record that hardware thread `hthread` enters wait mode.
pub fn enter_wait(lowprio: &mut LowPrio, hthread: u32)
    requires
        hthread < 32,
    ensures
        final(lowprio).wait_mask == old(lowprio).wait_mask | hmask(hthread),
        final(lowprio).priomask == old(lowprio).priomask,
{
    lowprio.mark_wait(hthread);
}

/// Record that hardware thread `hthread` leaves wait mode.
pub fn exit_wait(lowprio: &mut LowPrio, hthread: u32)
    requires
        hthread < 32,
    ensures
        final(lowprio).wait_mask == old(lowprio).wait_mask & !hmask(hthread),
        final(lowprio).priomask == old(lowprio).priomask,
{
    lowprio.unmark_wait(hthread);
}

} // verus!
