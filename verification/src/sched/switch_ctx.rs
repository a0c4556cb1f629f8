//! Cycle accounting around a context switch.

use vstd::prelude::*;
use crate::sched::context::ThreadContext;

verus! {

/// Record the cycle counter in the outgoing thread `me` (none when 0).
pub fn pre_switch_out(threads: &mut [ThreadContext], me: u32, cycles: u64)
    requires
        me != 0 ==> (me as int) < old(threads)@.len(),
    ensures
        me == 0 ==> final(threads)@ == old(threads)@,
        me != 0 ==> final(threads)@ == old(threads)@.update(
            me as int,
            ThreadContext { totalcycles: cycles, ..old(threads)@[me as int] },
        ),
{
    if me != 0 {
        let mut t = threads[me as usize];
        t.totalcycles = cycles;
        threads[me as usize] = t;
    }
}

/// Record the cycle counter in the incoming thread `new` (none when 0).
pub fn post_switch_in(threads: &mut [ThreadContext], new: u32, cycles: u64)
    requires
        new != 0 ==> (new as int) < old(threads)@.len(),
    ensures
        new == 0 ==> final(threads)@ == old(threads)@,
        new != 0 ==> final(threads)@ == old(threads)@.update(
            new as int,
            ThreadContext { totalcycles: cycles, ..old(threads)@[new as int] },
        ),
{
    if new != 0 {
        let mut t = threads[new as usize];
        t.totalcycles = cycles;
        threads[new as usize] = t;
    }
}

} // verus!
