//! Reschedule request on a hardware thread: the running thread goes back
//! to the ready list, then the scheduler picks again.

use vstd::prelude::*;
use crate::sched::context::ThreadContext;
use crate::sched::dosched::{dosched, schedules, SchedAction};
use crate::sched::lowprio::{LowPrio, hmask};
use crate::sched::readylist::{ReadyList, IDX_NONE, threads_updated};
use crate::sched::runlist::RunList;
use crate::types::consts::MAX_HTHREADS;
use crate::types::vm::ThreadStatus;

verus! {

/// Thread `me` left its run slot and was appended to the ready queue of
/// its priority.
pub open spec fn requeued(
    rd0: ReadyList,
    rd1: ReadyList,
    run0: RunList,
    run1: RunList,
    t0: Seq<ThreadContext>,
    t1: Seq<ThreadContext>,
    me: u32,
) -> bool {
    let p = t0[me as int].prio as int;
    &&& run1@ == run0@.update(t0[me as int].hthread as int, (IDX_NONE, -1i16))
    &&& run1.hthreads == run0.hthreads
    &&& rd1@ == rd0@.update(p, rd0@[p].push(me))
    &&& threads_updated(rd1@[p], t0, t1, me, ThreadStatus::Ready.spec_code())
    &&& rd1.inv(t1)
}

/// Handle a reschedule on `hthread`, where `me` runs (or `IDX_NONE` when
/// the hardware thread was waiting).
pub fn resched(
    ready: &mut ReadyList,
    runlist: &mut RunList,
    lowprio: &mut LowPrio,
    threads: &mut [ThreadContext],
    me: u32,
    hthread: u32,
) -> (r: SchedAction)
    requires
        old(ready).inv(old(threads)@),
        old(runlist).hthreads <= MAX_HTHREADS,
        (hthread as int) < MAX_HTHREADS,
        me != IDX_NONE ==> {
            &&& (me as int) < old(threads)@.len()
            &&& !old(ready).queued(old(threads)@, me as int)
            &&& (old(threads)@[me as int].hthread as int) < MAX_HTHREADS
        },
    ensures
        final(ready).inv(final(threads)@),
        me != IDX_NONE ==> exists|rd1: ReadyList, run1: RunList, t1: Seq<ThreadContext>|
            requeued(*old(ready), rd1, *old(runlist), run1, old(threads)@, t1, me) && #[trigger] schedules(
                rd1,
                *final(ready),
                run1,
                *final(runlist),
                *old(lowprio),
                *final(lowprio),
                t1,
                final(threads)@,
                hthread,
                r,
            ),
        me == IDX_NONE ==> schedules(
            *old(ready),
            *final(ready),
            *old(runlist),
            *final(runlist),
            LowPrio { wait_mask: old(lowprio).wait_mask & !hmask(hthread), ..*old(lowprio) },
            *final(lowprio),
            old(threads)@,
            final(threads)@,
            hthread,
            r,
        ),
{
    if me != IDX_NONE {
        runlist.remove(threads, me);
        ready.append(threads, me);
        let ghost rd1 = *ready;
        let ghost run1 = *runlist;
        let ghost t1 = threads@;
        let r = dosched(ready, runlist, lowprio, threads, me, hthread);
        proof {
            assert(requeued(*old(ready), rd1, *old(runlist), run1, old(threads)@, t1, me));
            assert(schedules(rd1, *ready, run1, *runlist, *old(lowprio), *lowprio, t1, threads@, hthread, r));
        }
        r
    } else {
        lowprio.unmark_wait(hthread);
        dosched(ready, runlist, lowprio, threads, me, hthread)
    }
}

} // verus!
