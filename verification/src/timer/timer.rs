//! Guest timer operations and timeout expiry.

use vstd::prelude::*;
use crate::timer::tree::{TimeoutTree, TreeIdx, TreeNode, IDX_NONE, inorder, leftmost};
use crate::types::consts::MINIVM_TIME_GUESTINT;
use crate::types::ops::TimerOp;

verus! {

/// Timeout value meaning "no timeout".
pub const TIME_BIGBANG: u64 = 0;

/// The far future: no hardware timeout needed.
pub const TIME_FOREVER: u64 = 0xFFFF_FFFF_FFFF_FFFF;

/// Shortest relative timeout, in ticks.
pub const TICK_GRANULARITY: u64 = 4;

/// Nanoseconds per tick.
pub const NSEC_PER_TICK: u64 = 52;

/// Tick frequency in Hz.
pub const TICK_REALFREQ: u64 = 19_200_000;

/// Frequency reported to guests.
pub const NSEC_FREQ: u64 = TICK_REALFREQ * NSEC_PER_TICK;

/// Guest interrupt posted when a timeout expires.
pub const TIME_GUESTINT: u32 = MINIVM_TIME_GUESTINT;

/// Ticks to nanoseconds, wrapping at 64 bits.
pub open spec fn spec_ticks2ns(ticks: u64) -> u64 {
    ((ticks as nat * NSEC_PER_TICK as nat) % 0x1_0000_0000_0000_0000nat) as u64
}

/// Convert ticks to nanoseconds (wrapping).
pub fn ticks2ns(ticks: u64) -> (r: u64)
    ensures
        r == spec_ticks2ns(ticks),
{
    ticks.wrapping_mul(NSEC_PER_TICK)
}

/// Convert nanoseconds to whole ticks.
pub fn ns2ticks(ns: u64) -> (r: u64)
    ensures
        r == ns / NSEC_PER_TICK,
{
    ns / NSEC_PER_TICK
}

/// Outcome of a guest timer operation.
pub struct TimerTrapResult {
    /// Value returned to the guest, in nanoseconds.
    pub value: u64,
    /// The thread's timeout afterwards (`TIME_BIGBANG`: none).
    pub new_timeout_key: u64,
    /// Whether the hardware timer must be reprogrammed.
    pub needs_hw_update: bool,
}

impl TimerTrapResult {
    /// A plain answer that leaves timeouts alone.
    fn value(v: u64) -> (r: Self)
        ensures
            r.value == v,
            r.new_timeout_key == TIME_BIGBANG,
            !r.needs_hw_update,
    {
        Self { value: v, new_timeout_key: TIME_BIGBANG, needs_hw_update: false }
    }
}

/// The absolute tick a set or delta request asks for, before the check
/// against the current time (`TIME_BIGBANG`: cancel).
pub open spec fn requested_tick(op: TimerOp, arg: u64, last_ticks: u64) -> u64 {
    if arg == TIME_FOREVER {
        TIME_BIGBANG
    } else if op is SetTimeout {
        arg / NSEC_PER_TICK
    } else {
        let d = if arg / NSEC_PER_TICK > TICK_GRANULARITY { arg / NSEC_PER_TICK } else { TICK_GRANULARITY };
        if last_ticks + d > u64::MAX { u64::MAX } else { (last_ticks + d) as u64 }
    }
}

/// A requested tick that is not after the current time cancels.
pub open spec fn effective_tick(tick: u64, last_ticks: u64) -> u64 {
    if tick != TIME_BIGBANG && tick <= last_ticks {
        TIME_BIGBANG
    } else {
        tick
    }
}

/// Answer of a query operation.
pub open spec fn query_value(op: TimerOp, last_ticks: u64, timeout_key: u64) -> u64 {
    match op {
        TimerOp::GetFreq => NSEC_FREQ,
        TimerOp::GetResolution => NSEC_PER_TICK,
        TimerOp::GetTime => spec_ticks2ns(last_ticks),
        _ => spec_ticks2ns(timeout_key),
    }
}

/// Timer state of the system.
pub struct TimerState {
    /// Tick of the next hardware interrupt.
    pub next_ticks: u64,
    /// Last known time, in ticks.
    pub last_ticks: u64,
    /// Pending thread timeouts.
    pub timeouts: TimeoutTree,
}

impl TimerState {
    /// No timeouts, no hardware interrupt, time zero.
    pub fn new() -> (r: Self)
        ensures
            r.next_ticks == TIME_FOREVER,
            r.last_ticks == TIME_BIGBANG,
            r.timeouts.root == IDX_NONE,
            r.timeouts.contents() == Set::<int>::empty(),
            forall|nodes: Seq<TreeNode>| r.timeouts.inv(nodes),
    {
        Self { next_ticks: TIME_FOREVER, last_ticks: TIME_BIGBANG, timeouts: TimeoutTree::new() }
    }

    /// Requirements of setting the timeout of thread `idx`, whose current
    /// timeout is `old_key`: the tree is laid out in `nodes`, and the
    /// thread is in it only under its current timeout.
    pub open spec fn set_ready(&self, old_key: u64, nodes: Seq<TreeNode>, idx: u32) -> bool {
        &&& self.timeouts.inv(nodes)
        &&& 0 < idx < nodes.len()
        &&& self.timeouts.contents().contains(idx as int) ==> old_key != TIME_BIGBANG && nodes[idx as int].key == old_key
    }

    /// The effect of moving the timeout of thread `idx` to tick `t`
    /// (`TIME_BIGBANG`: none).
    pub open spec fn set_effect(
        old: TimerState,
        new: TimerState,
        n0: Seq<TreeNode>,
        n1: Seq<TreeNode>,
        idx: u32,
        t: u64,
        r: TimerTrapResult,
    ) -> bool {
        &&& new.timeouts.inv(n1)
        &&& new.timeouts.contents() == (if t != TIME_BIGBANG {
            old.timeouts.contents().insert(idx as int)
        } else {
            old.timeouts.contents().remove(idx as int)
        })
        &&& t != TIME_BIGBANG ==> n1[idx as int].key == t
        &&& new.last_ticks == old.last_ticks
        &&& new.next_ticks == (if t != TIME_BIGBANG && t < old.next_ticks { t } else { old.next_ticks })
        &&& r.value == spec_ticks2ns(t)
        &&& r.new_timeout_key == t
        &&& r.needs_hw_update == (t != TIME_BIGBANG && t < old.next_ticks)
        &&& n1.len() == n0.len()
        &&& forall|j: int| 0 <= j < n0.len() && j != idx ==> #[trigger] n1[j].key == n0[j].key
        &&& forall|j: int|
            0 <= j < n0.len() && j != idx && !old.timeouts.contents().contains(j) ==> #[trigger] n1[j] == n0[j]
    }

    /// Carry out a guest timer operation for thread `thread_idx`, whose
    /// current timeout is `timeout_key`; `arg` is in nanoseconds.
    pub fn timer_trap(
        &mut self,
        op: TimerOp,
        arg: u64,
        timeout_key: u64,
        nodes: &mut [TreeNode],
        thread_idx: TreeIdx,
    ) -> (r: TimerTrapResult)
        requires
            op is SetTimeout || op is DeltaTimeout ==> old(self).set_ready(timeout_key, old(nodes)@, thread_idx),
        ensures
            !(op is SetTimeout || op is DeltaTimeout) ==> {
                &&& r.value == query_value(op, old(self).last_ticks, timeout_key)
                &&& r.new_timeout_key == TIME_BIGBANG
                &&& !r.needs_hw_update
                &&& *final(self) == *old(self)
                &&& final(nodes)@ == old(nodes)@
            },
            op is SetTimeout || op is DeltaTimeout ==> Self::set_effect(
                *old(self),
                *final(self),
                old(nodes)@,
                final(nodes)@,
                thread_idx,
                effective_tick(requested_tick(op, arg, old(self).last_ticks), old(self).last_ticks),
                r,
            ),
    {
        match op {
            TimerOp::GetFreq => TimerTrapResult::value(NSEC_FREQ),
            TimerOp::GetResolution => TimerTrapResult::value(NSEC_PER_TICK),
            TimerOp::GetTime => {
                let ticks = self.last_ticks;
                TimerTrapResult::value(ticks2ns(ticks))
            },
            TimerOp::GetTimeout => TimerTrapResult::value(ticks2ns(timeout_key)),
            TimerOp::SetTimeout => {
                let timeout_tick = if arg == TIME_FOREVER {
                    TIME_BIGBANG
                } else {
                    ns2ticks(arg)
                };
                self.set_timeout_tick(timeout_tick, timeout_key, nodes, thread_idx)
            },
            TimerOp::DeltaTimeout => {
                if arg == TIME_FOREVER {
                    self.set_timeout_tick(TIME_BIGBANG, timeout_key, nodes, thread_idx)
                } else {
                    let t = ns2ticks(arg);
                    let delta_ticks = if t > TICK_GRANULARITY { t } else { TICK_GRANULARITY };
                    let timeout_tick = self.last_ticks.saturating_add(delta_ticks);
                    self.set_timeout_tick(timeout_tick, timeout_key, nodes, thread_idx)
                }
            },
        }
    }

    /// Move the timeout of thread `thread_idx` to tick `timeout_tick`.
    fn set_timeout_tick(&mut self, timeout_tick: u64, old_key: u64, nodes: &mut [TreeNode], thread_idx: TreeIdx) -> (r:
        TimerTrapResult)
        requires
            old(self).set_ready(old_key, old(nodes)@, thread_idx),
        ensures
            Self::set_effect(
                *old(self),
                *final(self),
                old(nodes)@,
                final(nodes)@,
                thread_idx,
                effective_tick(timeout_tick, old(self).last_ticks),
                r,
            ),
    {
        let timeout_tick = if timeout_tick != TIME_BIGBANG && timeout_tick <= self.last_ticks {
            TIME_BIGBANG
        } else {
            timeout_tick
        };
        let ghost n0 = nodes@;
        if old_key != TIME_BIGBANG {
            self.timeouts.remove(nodes, thread_idx, old_key);
        }
        proof {
            if !old(self).timeouts.contents().contains(thread_idx as int) {
                assert(old(self).timeouts.contents().remove(thread_idx as int) =~= old(self).timeouts.contents());
            }
            assert(self.timeouts.contents() == old(self).timeouts.contents().remove(thread_idx as int));
        }
        let ghost n1 = nodes@;
        if timeout_tick != TIME_BIGBANG {
            self.timeouts.add(nodes, thread_idx, timeout_tick);
            let needs_hw = timeout_tick < self.next_ticks;
            if needs_hw {
                self.next_ticks = timeout_tick;
            }
            proof {
                assert(self.timeouts.contents() =~= old(self).timeouts.contents().insert(thread_idx as int));
            }
            TimerTrapResult { value: ticks2ns(timeout_tick), new_timeout_key: timeout_tick, needs_hw_update: needs_hw }
        } else {
            TimerTrapResult { value: ticks2ns(TIME_BIGBANG), new_timeout_key: TIME_BIGBANG, needs_hw_update: false }
        }
    }

    /// A timer interrupt at `now_ticks`: the timeouts due by then leave
    /// the tree and are appended to `expired` by nondecreasing expiry, and
    /// the next hardware interrupt is set to the earliest timeout left.
    pub fn handle_interrupt(&mut self, now_ticks: u64, nodes: &mut [TreeNode], expired: &mut Vec<TreeIdx>)
        requires
            old(self).timeouts.inv(old(nodes)@),
        ensures
            final(self).timeouts.inv(final(nodes)@),
            final(self).timeouts.contents() == old(self).timeouts.contents().filter(|j: int| old(nodes)@[j].key > now_ticks),
            final(self).last_ticks == old(self).last_ticks,
            final(self).timeouts.contents() == Set::<int>::empty() ==> final(self).next_ticks == TIME_FOREVER,
            final(self).timeouts.contents() != Set::<int>::empty() ==> {
                &&& final(self).timeouts.contents().contains(leftmost(final(self).timeouts@) as int)
                &&& final(self).next_ticks == final(nodes)@[leftmost(final(self).timeouts@) as int].key
                &&& forall|j: int| #[trigger] final(self).timeouts.contents().contains(j) ==> final(self).next_ticks <= final(nodes)@[j].key
            },
            final(expired)@.len() >= old(expired)@.len(),
            final(expired)@.subrange(0, old(expired)@.len() as int) == old(expired)@,
            final(expired)@.subrange(old(expired)@.len() as int, final(expired)@.len() as int).no_duplicates(),
            forall|x: u32|
                #[trigger] final(expired)@.subrange(old(expired)@.len() as int, final(expired)@.len() as int).contains(x)
                    <==> (old(self).timeouts.contents().contains(x as int) && old(nodes)@[x as int].key <= now_ticks),
            forall|a: int, b: int|
                old(expired)@.len() <= a < b < final(expired)@.len() ==> final(nodes)@[#[trigger] final(expired)@[a] as int].key
                    <= final(nodes)@[#[trigger] final(expired)@[b] as int].key,
            final(nodes)@.len() == old(nodes)@.len(),
            forall|j: int| 0 <= j < final(nodes)@.len() ==> #[trigger] final(nodes)@[j].key == old(nodes)@[j].key,
    {
        let (mut le, gt) = self.timeouts.bisect(nodes, now_ticks);
        let min_idx = gt.min(nodes);
        proof {
            gt.lemma_empty(nodes@);
        }
        self.next_ticks = if min_idx != IDX_NONE {
            nodes[min_idx as usize].key
        } else {
            TIME_FOREVER
        };
        self.timeouts = gt;
        let ghost e0 = expired@;
        let ghost s = inorder(le@);
        le.collect_and_clear(nodes, expired);
        proof {
            assert(expired@.subrange(0, e0.len() as int) =~= e0);
            assert(expired@.subrange(e0.len() as int, expired@.len() as int) =~= s);
            assert forall|a: int, b: int| e0.len() <= a < b < expired@.len() implies nodes@[#[trigger] expired@[a] as int].key
                <= nodes@[#[trigger] expired@[b] as int].key by {
                assert(expired@[a] == s[a - e0.len()]);
                assert(expired@[b] == s[b - e0.len()]);
            }
        }
    }

    /// Record the time `now_ticks`; time never goes back.
    pub fn update_time(&mut self, now_ticks: u64)
        ensures
            final(self).last_ticks == (if now_ticks > old(self).last_ticks { now_ticks } else { old(self).last_ticks }),
            final(self).next_ticks == old(self).next_ticks,
            final(self).timeouts == old(self).timeouts,
    {
        if now_ticks > self.last_ticks {
            self.last_ticks = now_ticks;
        }
    }
}

impl Default for TimerState {
    fn default() -> (r: Self)
        ensures
            r.next_ticks == TIME_FOREVER,
            r.last_ticks == TIME_BIGBANG,
            r.timeouts.contents() == Set::<int>::empty(),
    {
        Self::new()
    }
}

/// Converting ticks to nanoseconds and back gives the ticks again, as
/// long as the nanoseconds do not wrap.
pub proof fn law_ticks_roundtrip(ticks: u64)
    requires
        ticks * NSEC_PER_TICK <= u64::MAX,
    ensures
        spec_ticks2ns(ticks) / NSEC_PER_TICK == ticks,
{
    assert(spec_ticks2ns(ticks) == ticks * NSEC_PER_TICK);
    vstd::arithmetic::div_mod::lemma_div_multiples_vanish(ticks as int, NSEC_PER_TICK as int);
}


/// A timeout set for tick `t` fires at the first timer interrupt at or
/// after `t` (the thread is handed out as expired and leaves the tree),
/// stays pending at an earlier interrupt, and a cancelled one never fires.
/// `s0 -> s1` is the setting of the timeout of thread `idx`, `s1 -> s2`
/// a timer interrupt at `now` that appended to the expired list `e0`,
/// giving `e1`.
pub proof fn law_timeout_fires(
    s0: TimerState,
    s1: TimerState,
    n0: Seq<TreeNode>,
    n1: Seq<TreeNode>,
    idx: u32,
    t: u64,
    r: TimerTrapResult,
    s2: TimerState,
    now: u64,
    e0: Seq<u32>,
    e1: Seq<u32>,
)
    requires
        TimerState::set_effect(s0, s1, n0, n1, idx, t, r),
        s2.timeouts.contents() == s1.timeouts.contents().filter(|j: int| n1[j].key > now),
        e0.len() <= e1.len(),
        forall|x: u32|
            #[trigger] e1.subrange(e0.len() as int, e1.len() as int).contains(x) <==> (s1.timeouts.contents().contains(x as int)
                && n1[x as int].key <= now),
    ensures
        t != TIME_BIGBANG && t <= now ==> e1.subrange(e0.len() as int, e1.len() as int).contains(idx)
            && !s2.timeouts.contents().contains(idx as int),
        t != TIME_BIGBANG && t > now ==> !e1.subrange(e0.len() as int, e1.len() as int).contains(idx)
            && s2.timeouts.contents().contains(idx as int),
        t == TIME_BIGBANG ==> !e1.subrange(e0.len() as int, e1.len() as int).contains(idx)
            && !s2.timeouts.contents().contains(idx as int),
{
    let fresh = e1.subrange(e0.len() as int, e1.len() as int);
    assert(fresh.contains(idx) <==> (s1.timeouts.contents().contains(idx as int) && n1[idx as int].key <= now));
}

} // verus!
