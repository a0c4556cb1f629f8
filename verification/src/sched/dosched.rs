//! The scheduling decision: run the best ready thread on a hardware thread,
//! or let the hardware thread wait, and keep the lowest-priority mark.

use vstd::prelude::*;
use crate::sched::context::{ThreadContext, same_but_links};
use crate::sched::lowprio::{LowPrio, hmask};
use crate::sched::readylist::{ReadyList, IDX_NONE, all_empty, best, is_best_prio};
use crate::sched::ring::links_changed_within;
use crate::sched::runlist::RunList;
use crate::types::consts::{MAX_HTHREADS, MAX_PRIOS};
use crate::types::vm::ThreadStatus;

verus! {

/// What the caller does after a scheduling decision.
#[derive(Debug, PartialEq, Eq)]
pub enum SchedAction {
    /// Switch to the thread with this index.
    Switch(u32),
    /// Nothing is ready: the hardware thread waits.
    Wait,
}

/// Worst running priority as `worst_prio` reports it.
pub open spec fn worst_running(run: RunList) -> int {
    if run.worst() == -1 {
        MAX_PRIOS as int
    } else {
        run.worst()
    }
}

/// Lowest-priority bookkeeping when a thread of priority `prio` starts on
/// `hthread`: it takes the mark when it is worse than everything running
/// and no hardware thread waits; otherwise `hthread` loses the mark.
pub open spec fn lowprio_step(before: LowPrio, prio: int, worst: int, hthread: u32) -> LowPrio {
    let low = before.priomask & hmask(hthread) != 0;
    if before.wait_mask == 0 && prio > worst {
        if !low {
            LowPrio { priomask: before.spec_raised().priomask | hmask(hthread), wait_mask: before.wait_mask }
        } else {
            before
        }
    } else if low {
        LowPrio { priomask: before.priomask & !hmask(hthread), wait_mask: before.wait_mask }
    } else {
        before
    }
}

/// The thread table after `new` is taken from the ring `q` and started on
/// `hthread`.
pub open spec fn started(
    q: Seq<u32>,
    before: Seq<ThreadContext>,
    after: Seq<ThreadContext>,
    new: u32,
    hthread: u32,
) -> bool {
    &&& after.len() == before.len()
    &&& after[new as int] == ThreadContext {
        hthread: hthread as u8,
        status: ThreadStatus::Running.spec_code(),
        next: after[new as int].next,
        prev: after[new as int].prev,
        ..before[new as int]
    }
    &&& forall|j: int|
        0 <= j < before.len() && j != new ==> same_but_links(#[trigger] after[j], before[j])
            && after[j].status == before[j].status
    &&& forall|j: int|
        0 <= j < before.len() && j != new && !q.contains(j as u32) ==> #[trigger] after[j] == before[j]
}

/// Effect of `dosched` on the ready list, run list, low-priority marks and
/// thread table, and its result.
pub open spec fn schedules(
    rd0: ReadyList,
    rd1: ReadyList,
    run0: RunList,
    run1: RunList,
    lp0: LowPrio,
    lp1: LowPrio,
    t0: Seq<ThreadContext>,
    t1: Seq<ThreadContext>,
    hthread: u32,
    r: SchedAction,
) -> bool {
    if all_empty(rd0@) {
        &&& r == SchedAction::Wait
        &&& rd1@ == rd0@
        &&& run1@ == run0@ && run1.hthreads == run0.hthreads
        &&& t1 == t0
        &&& lp1 == lp0.spec_raised()
    } else {
        let b = best(rd0@);
        let new = rd0@[b][0];
        &&& is_best_prio(rd0@, b)
        &&& b < MAX_PRIOS
        &&& r == SchedAction::Switch(new)
        &&& rd1@ == rd0@.update(b, rd0@[b].drop_first())
        &&& run1@ == run0@.update(hthread as int, (new, b as i16))
        &&& run1.hthreads == run0.hthreads
        &&& started(rd0@[b], t0, t1, new, hthread)
        &&& lp1 == lowprio_step(lp0, b, worst_running(run0), hthread)
    }
}

/// Pick the best ready thread and start it on `hthread`, or decide that
/// `hthread` waits.
pub fn dosched(
    ready: &mut ReadyList,
    runlist: &mut RunList,
    lowprio: &mut LowPrio,
    threads: &mut [ThreadContext],
    _me: u32,
    hthread: u32,
) -> (r: SchedAction)
    requires
        old(ready).inv(old(threads)@),
        old(runlist).hthreads <= MAX_HTHREADS,
        (hthread as int) < MAX_HTHREADS,
    ensures
        final(ready).inv(final(threads)@),
        schedules(
            *old(ready),
            *final(ready),
            *old(runlist),
            *final(runlist),
            *old(lowprio),
            *final(lowprio),
            old(threads)@,
            final(threads)@,
            hthread,
            r,
        ),
{
    let new = ready.getbest(threads);
    if new == IDX_NONE {
        proof {
            if !all_empty(old(ready)@) {
                let b = best(old(ready)@);
                old(ready).lemma_member_prio(old(threads)@, b, old(ready)@[b][0]);
            }
        }
        let _ = lowprio.raise();
        return SchedAction::Wait;
    }
    let ghost t_mid = threads@;
    let ghost b = best(old(ready)@);
    proof {
        old(ready).lemma_inv_bitmap(old(threads)@);
        assert(!all_empty(old(ready)@));
        assert(old(ready)@[b].contains(old(ready)@[b][0]));
        old(ready).lemma_member_prio(old(threads)@, b, new);
        old(ready).lemma_queue_distinct(old(threads)@, b);
        let q = old(ready)@[b];
        assert forall|i: int| 0 <= i < q.drop_first().len() implies q.drop_first()[i] != new by {
            assert(q.drop_first()[i] == q[i + 1]);
        }
        assert(!ready@[b].contains(new));
        assert(t_mid[new as int].prio == b);
    }
    let worst_running = runlist.worst_prio();
    let new_prio = threads[new as usize].prio as u32;
    if lowprio.wait_mask == 0 && new_prio > worst_running {
        if !lowprio.is_low(hthread) {
            let _ = lowprio.raise();
            lowprio.mark_low(hthread);
        }
    } else if lowprio.is_low(hthread) {
        lowprio.unmark_low(hthread);
    }
    let mut t = threads[new as usize];
    t.hthread = hthread as u8;
    threads[new as usize] = t;
    runlist.push(threads, new);
    proof {
        ready.lemma_inv_frame(t_mid, threads@);
        assert(threads@[new as int].status == ThreadStatus::Running.spec_code());
    }
    SchedAction::Switch(new)
}

} // verus!
