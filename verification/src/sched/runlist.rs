//! Which thread runs on each hardware thread, and at what priority.

use vstd::prelude::*;
use crate::sched::context::ThreadContext;
use crate::sched::readylist::IDX_NONE;
use crate::types::consts::{MAX_HTHREADS, MAX_PRIOS};
use crate::types::vm::ThreadStatus;

verus! {

/// Run slot of each hardware thread.
pub struct RunList {
    pub slots: [u32; 6],
    pub prios: [i16; 6],
    /// Number of active hardware threads.
    pub hthreads: u32,
}

/// Largest of -1 and the first `n` priorities in `s`.
pub open spec fn max_prio(s: Seq<i16>, n: int) -> int
    decreases n,
{
    if n <= 0 {
        -1
    } else {
        let m = max_prio(s, n - 1);
        if s[n - 1] > m {
            s[n - 1] as int
        } else {
            m
        }
    }
}

/// Every counted priority is at most their maximum.
pub proof fn lemma_max_prio_bound(s: Seq<i16>, n: int)
    ensures
        max_prio(s, n) >= -1,
        forall|j: int| 0 <= j < n ==> s[j] <= max_prio(s, n),
    decreases n,
{
    if n > 0 {
        lemma_max_prio_bound(s, n - 1);
    }
}

impl View for RunList {
    type V = Seq<(u32, i16)>;

    /// Running thread (or `IDX_NONE`) and its priority (or -1) per
    /// hardware thread.
    open spec fn view(&self) -> Seq<(u32, i16)> {
        Seq::new(6, |h: int| (self.slots@[h], self.prios@[h]))
    }
}

impl RunList {
    /// Priorities of the run slots.
    pub open spec fn prio_seq(&self) -> Seq<i16> {
        Seq::new(6, |h: int| self@[h].1)
    }

    /// Worst running priority, or -1 when nothing runs.
    pub open spec fn worst(&self) -> int {
        max_prio(self.prio_seq(), self.hthreads as int)
    }

    /// An empty run list for `hthreads` hardware threads.
    pub fn new(hthreads: u32) -> (r: Self)
        ensures
            r.hthreads == hthreads,
            r@.len() == MAX_HTHREADS,
            forall|h: int| 0 <= h < MAX_HTHREADS ==> #[trigger] r@[h] == (IDX_NONE, -1i16),
    {
        Self { slots: [IDX_NONE; 6], prios: [-1i16; 6], hthreads }
    }

    /// Put thread `idx` in the run slot of its hardware thread and mark it
    /// running.
    pub fn push(&mut self, threads: &mut [ThreadContext], idx: u32)
        requires
            (idx as int) < old(threads)@.len(),
            (old(threads)@[idx as int].hthread as int) < MAX_HTHREADS,
        ensures
            final(self).hthreads == old(self).hthreads,
            final(self)@ == old(self)@.update(
                old(threads)@[idx as int].hthread as int,
                (idx, old(threads)@[idx as int].prio as i16),
            ),
            final(threads)@ == old(threads)@.update(
                idx as int,
                ThreadContext { status: ThreadStatus::Running.spec_code(), ..old(threads)@[idx as int] },
            ),
    {
        let hthread = threads[idx as usize].hthread as usize;
        let prio = threads[idx as usize].prio;
        let mut t = threads[idx as usize];
        t.status = ThreadStatus::Running.code();
        threads[idx as usize] = t;
        self.slots[hthread] = idx;
        self.prios[hthread] = prio as i16;
        proof {
            assert(self@ =~= old(self)@.update(hthread as int, (idx, prio as i16)));
        }
    }

    /// Empty the run slot of the hardware thread of `idx`.
    pub fn remove(&mut self, threads: &[ThreadContext], idx: u32)
        requires
            (idx as int) < threads@.len(),
            (threads@[idx as int].hthread as int) < MAX_HTHREADS,
        ensures
            final(self).hthreads == old(self).hthreads,
            final(self)@ == old(self)@.update(threads@[idx as int].hthread as int, (IDX_NONE, -1i16)),
    {
        let hthread = threads[idx as usize].hthread as usize;
        self.slots[hthread] = IDX_NONE;
        self.prios[hthread] = -1;
        proof {
            assert(self@ =~= old(self)@.update(hthread as int, (IDX_NONE, -1i16)));
        }
    }

    /// Worst (largest) priority among the running threads, or `MAX_PRIOS`
    /// when nothing runs.
    pub fn worst_prio(&self) -> (r: u32)
        requires
            self.hthreads <= MAX_HTHREADS,
        ensures
            r == if self.worst() == -1 {
                MAX_PRIOS as int
            } else {
                self.worst()
            },
    {
        let mut worst: i32 = -1;
        let mut i: usize = 0;
        while i < self.hthreads as usize
            invariant
                self.hthreads <= MAX_HTHREADS,
                i <= self.hthreads,
                worst == max_prio(self.prio_seq(), i as int),
                -1 <= worst < 32768,
            decreases self.hthreads - i,
        {
            proof {
                assert(self.prio_seq()[i as int] == self.prios@[i as int]);
            }
            if (self.prios[i] as i32) > worst {
                worst = self.prios[i] as i32;
            }
            i = i + 1;
        }
        if worst == -1 {
            MAX_PRIOS
        } else {
            worst as u32
        }
    }

    /// Hardware thread that runs the worst priority (the first one on a
    /// tie), or `u32::MAX` when nothing runs.
    pub fn worst_prio_hthread(&self) -> (r: u32)
        requires
            self.hthreads <= MAX_HTHREADS,
        ensures
            self.worst() == -1 ==> r == u32::MAX,
            self.worst() != -1 ==> {
                &&& r < self.hthreads
                &&& self.prio_seq()[r as int] == self.worst()
                &&& forall|j: int| 0 <= j < r ==> self.prio_seq()[j] < self.worst()
            },
    {
        let mut worst: i32 = -1;
        let mut hthread: i32 = -1;
        let mut i: usize = 0;
        while i < self.hthreads as usize
            invariant
                self.hthreads <= MAX_HTHREADS,
                i <= self.hthreads,
                worst == max_prio(self.prio_seq(), i as int),
                -1 <= worst < 32768,
                worst == -1 ==> hthread == -1,
                worst != -1 ==> 0 <= hthread < i && self.prio_seq()[hthread as int] == worst
                    && forall|j: int| 0 <= j < hthread ==> self.prio_seq()[j] < worst,
            decreases self.hthreads - i,
        {
            proof {
                assert(self.prio_seq()[i as int] == self.prios@[i as int]);
            }
            proof {
                lemma_max_prio_bound(self.prio_seq(), i as int);
            }
            if (self.prios[i] as i32) > worst {
                worst = self.prios[i] as i32;
                hthread = i as i32;
            }
            i = i + 1;
        }
        if hthread == -1 {
            u32::MAX
        } else {
            hthread as u32
        }
    }

    /// Thread running on hardware thread `hthread`.
    pub fn get(&self, hthread: u32) -> (r: u32)
        requires
            (hthread as int) < MAX_HTHREADS,
        ensures
            r == self@[hthread as int].0,
    {
        self.slots[hthread as usize]
    }

    /// Priority of the thread running on hardware thread `hthread` (-1 if
    /// none).
    pub fn get_prio(&self, hthread: u32) -> (r: i16)
        requires
            (hthread as int) < MAX_HTHREADS,
        ensures
            r == self@[hthread as int].1,
    {
        self.prios[hthread as usize]
    }
}

} // verus!
