//! Yield to another ready thread of the same priority.

use vstd::prelude::*;
use crate::sched::context::ThreadContext;
use crate::sched::dosched::{dosched, schedules, SchedAction};
use crate::sched::lowprio::LowPrio;
use crate::sched::readylist::{ReadyList, is_best_prio, all_empty, best, lemma_best_unique};
use crate::sched::resched::requeued;
use crate::sched::runlist::RunList;
use crate::types::consts::{MAX_HTHREADS, MAX_PRIOS};

verus! {

/// Result of a yield.
#[derive(Debug, PartialEq, Eq)]
pub enum YieldResult {
    /// The scheduler ran; the caller performs the action.
    Switched(SchedAction),
    /// No thread of the same priority is ready; keep running.
    NoOp,
}

/// Let another ready thread of the priority of `me` run: `me` goes to the
/// back of its queue and the scheduler picks again. Nothing happens when
/// no thread of that priority is ready.
pub fn sched_yield(
    ready: &mut ReadyList,
    runlist: &mut RunList,
    lowprio: &mut LowPrio,
    threads: &mut [ThreadContext],
    me: u32,
) -> (r: YieldResult)
    requires
        old(ready).inv(old(threads)@),
        old(runlist).hthreads <= MAX_HTHREADS,
        0 < me,
        (me as int) < old(threads)@.len(),
        !old(ready).queued(old(threads)@, me as int),
        (old(threads)@[me as int].hthread as int) < MAX_HTHREADS,
    ensures
        final(ready).inv(final(threads)@),
        old(ready)@[old(threads)@[me as int].prio as int].len() == 0 ==> {
            &&& r == YieldResult::NoOp
            &&& *final(ready) == *old(ready)
            &&& *final(runlist) == *old(runlist)
            &&& *final(lowprio) == *old(lowprio)
            &&& final(threads)@ == old(threads)@
        },
        old(ready)@[old(threads)@[me as int].prio as int].len() > 0 ==> exists|a: SchedAction, rd1: ReadyList, run1: RunList, t1: Seq<ThreadContext>|
            r == YieldResult::Switched(a)
                && requeued(*old(ready), rd1, *old(runlist), run1, old(threads)@, t1, me) && #[trigger] schedules(
                rd1,
                *final(ready),
                run1,
                *final(runlist),
                *old(lowprio),
                *final(lowprio),
                t1,
                final(threads)@,
                old(threads)@[me as int].hthread as u32,
                a,
            ),
{
    proof {
        ready.lemma_inv_bitmap(threads@);
    }
    let prio = threads[me as usize].prio as u32;
    if !ready.prio_valid(prio) {
        return YieldResult::NoOp;
    }
    let hthread = threads[me as usize].hthread as u32;
    runlist.remove(threads, me);
    ready.append(threads, me);
    let ghost rd1 = *ready;
    let ghost run1 = *runlist;
    let ghost t1 = threads@;
    let action = dosched(ready, runlist, lowprio, threads, me, hthread);
    proof {
        assert(requeued(*old(ready), rd1, *old(runlist), run1, old(threads)@, t1, me));
        assert(schedules(rd1, *ready, run1, *runlist, *old(lowprio), *lowprio, t1, threads@, hthread, action));
    }
    YieldResult::Switched(action)
}


/// Yield is round robin within the best priority: when the yielding
/// thread's priority is the best ready one and a peer of that priority is
/// ready, the scheduler switches to the first such peer, and the yielding
/// thread waits behind the others of its priority.
pub proof fn law_yield_round_robin(
    rd0: ReadyList,
    rd1: ReadyList,
    rd2: ReadyList,
    run0: RunList,
    run1: RunList,
    run2: RunList,
    lp0: LowPrio,
    lp1: LowPrio,
    t0: Seq<ThreadContext>,
    t1: Seq<ThreadContext>,
    t2: Seq<ThreadContext>,
    me: u32,
    hthread: u32,
    a: SchedAction,
)
    requires
        rd0@.len() == MAX_PRIOS,
        0 <= me < t0.len(),
        rd0@[t0[me as int].prio as int].len() > 0,
        is_best_prio(rd0@, t0[me as int].prio as int),
        requeued(rd0, rd1, run0, run1, t0, t1, me),
        schedules(rd1, rd2, run1, run2, lp0, lp1, t1, t2, hthread, a),
    ensures
        a == SchedAction::Switch(rd0@[t0[me as int].prio as int][0]),
        rd2@[t0[me as int].prio as int] == rd0@[t0[me as int].prio as int].drop_first().push(me),
{
    let p = t0[me as int].prio as int;
    let q1 = rd1@;
    assert(q1[p] == rd0@[p].push(me));
    assert(is_best_prio(q1, p)) by {
        assert forall|p2: int| 0 <= p2 < p implies #[trigger] q1[p2].len() == 0 by {
            assert(q1[p2] == rd0@[p2]);
        }
    }
    assert(!all_empty(q1)) by {
        assert(q1[p].len() > 0);
    }
    lemma_best_unique(q1, p, best(q1));
    assert(q1[p][0] == rd0@[p][0]);
    assert(rd0@[p].push(me).drop_first() =~= rd0@[p].drop_first().push(me));
}

} // verus!
