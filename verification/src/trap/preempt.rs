//! Preemption points: places in long operations where a better thread
//! that became ready may take over.

use vstd::prelude::*;

verus! {

/// Marker stored in a context that was left at a preemption point.
pub const PREEMPT_MARKER: u32 = 1;

/// Whether a thread of priority `current_prio` gives way at a preemption
/// point: only to a strictly better (lower) ready priority.
pub fn needs_reschedule(current_prio: u8, best_ready_prio: u8) -> (r: bool)
    ensures
        r == (best_ready_prio < current_prio),
{
    best_ready_prio < current_prio
}

} // verus!
