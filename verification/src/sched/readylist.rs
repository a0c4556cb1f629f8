//! Ready queue: one ring of threads per priority plus a bitmap of the
//! priorities whose ring is not empty. Lower numbers are better
//! priorities; within one priority threads leave in the order they came.

use vstd::prelude::*;
use crate::bits::{bit32, lemma_mask_bit, lemma_bit32_of_zero, lemma_trailing_zeros32};
use crate::intc::shared::{word_of, bit_of, lemma_locate};
use crate::sched::context::{ThreadContext, same_but_links};
use crate::sched::ring::{ring_ok, head_of, links_changed_within, lemma_ring_frame, ring_append, ring_insert, ring_remove};
use crate::types::consts::{MAX_PRIO, MAX_PRIOS};
use crate::types::vm::ThreadStatus;

verus! {

/// Index that means "no thread".
pub const IDX_NONE: u32 = 0;

/// Number of words of the priority bitmap.
const VALIDS_WORDS: usize = 8;

/// Priority-ordered queue of ready threads. The rings live in the thread
/// table passed to each operation.
pub struct ReadyList {
    valids: [u32; VALIDS_WORDS],
    heads: [u32; 256],
    queues: Ghost<Seq<Seq<u32>>>,
}

/// `r` is the best (lowest) priority with a ready thread, or `MAX_PRIOS`
/// when every queue is empty.
pub open spec fn is_best_prio(q: Seq<Seq<u32>>, r: int) -> bool {
    &&& 0 <= r <= MAX_PRIOS
    &&& r < MAX_PRIOS ==> q[r].len() > 0
    &&& forall|p: int| 0 <= p < r ==> #[trigger] q[p].len() == 0
}

/// Every queue is empty.
pub open spec fn all_empty(q: Seq<Seq<u32>>) -> bool {
    forall|p: int| 0 <= p < MAX_PRIOS ==> #[trigger] q[p].len() == 0
}

/// `after` is `before` with the status of `idx` set to `status`, links
/// changed only in the ring `q`.
pub open spec fn threads_updated(
    q: Seq<u32>,
    before: Seq<ThreadContext>,
    after: Seq<ThreadContext>,
    idx: u32,
    status: u8,
) -> bool {
    &&& after.len() == before.len()
    &&& after[idx as int].status == status
    &&& forall|j: int| 0 <= j < before.len() && j != idx ==> #[trigger] after[j].status == before[j].status
    &&& forall|j: int| 0 <= j < before.len() ==> same_but_links(#[trigger] after[j], before[j])
    &&& forall|j: int| 0 <= j < before.len() && j != idx && !q.contains(j as u32) ==> #[trigger] after[j] == before[j]
}

/// Bit of priority `p` in the bitmap `v`.
pub open spec fn prio_bit(v: Seq<u32>, p: int) -> bool {
    bit32(v[word_of(p)], bit_of(p))
}

/// The best priority with a ready thread (meaningful when one is ready).
pub open spec fn best(q: Seq<Seq<u32>>) -> int {
    choose|r: int| is_best_prio(q, r)
}

/// At most one priority is the best.
pub proof fn lemma_best_unique(q: Seq<Seq<u32>>, a: int, b: int)
    requires
        is_best_prio(q, a),
        is_best_prio(q, b),
    ensures
        a == b,
{
    if a < b {
        assert(q[a].len() == 0);
    } else if b < a {
        assert(q[b].len() == 0);
    }
}

/// Rewriting the members of the ring of priority `p` leaves the rings of
/// the other priorities intact.
pub proof fn lemma_other_rings(
    queues: Seq<Seq<u32>>,
    changed: Seq<u32>,
    t0: Seq<ThreadContext>,
    t1: Seq<ThreadContext>,
    p: int,
)
    requires
        queues.len() == MAX_PRIOS,
        forall|p2: int| 0 <= p2 < MAX_PRIOS ==> ring_ok(#[trigger] queues[p2], t0, p2),
        forall|i: int| 0 <= i < changed.len() ==> 0 <= #[trigger] changed[i] < t0.len() && t0[changed[i] as int].prio == p,
        links_changed_within(changed, t0, t1),
    ensures
        forall|p2: int| 0 <= p2 < MAX_PRIOS && p2 != p ==> ring_ok(#[trigger] queues[p2], t1, p2),
{
    assert forall|p2: int| 0 <= p2 < MAX_PRIOS && p2 != p implies ring_ok(#[trigger] queues[p2], t1, p2) by {
        let q = queues[p2];
        assert(ring_ok(q, t0, p2));
        assert forall|i: int| 0 <= i < q.len() implies t1[q[i] as int] == t0[q[i] as int] by {
            assert(0 < q[i] < t0.len());
            if changed.contains(q[i]) {
                let k = changed.index_of(q[i]);
                assert(changed[k] == q[i]);
                assert(t0[q[i] as int].prio == p);
            }
        }
        lemma_ring_frame(q, t0, t1, p2);
    }
}

impl View for ReadyList {
    type V = Seq<Seq<u32>>;

    /// The queue of each priority, head first.
    closed spec fn view(&self) -> Seq<Seq<u32>> {
        self.queues@
    }
}

impl ReadyList {
    /// Heads and bitmap agree with the queues.
    pub closed spec fn bitmap_ok(&self) -> bool {
        &&& self.queues@.len() == MAX_PRIOS
        &&& forall|p: int| 0 <= p < MAX_PRIOS ==> self.heads@[p] == head_of(#[trigger] self.queues@[p])
        &&& forall|p: int|
            0 <= p < MAX_PRIOS ==> bit32(self.valids@[word_of(p)], bit_of(p)) == ((#[trigger] self.queues@[p]).len() > 0)
    }

    /// The queues are well-linked rings in `threads`, each holding threads
    /// of its own priority.
    pub closed spec fn inv(&self, threads: Seq<ThreadContext>) -> bool {
        &&& self.bitmap_ok()
        &&& forall|p: int| 0 <= p < MAX_PRIOS ==> ring_ok(#[trigger] self.queues@[p], threads, p)
    }

    /// Thread `j` is in some queue.
    pub open spec fn queued(&self, threads: Seq<ThreadContext>, j: int) -> bool {
        0 <= j < threads.len() && j <= u32::MAX && self@[threads[j].prio as int].contains(j as u32)
    }

    /// The queues are facts about `threads` only through the links and
    /// priorities of their members.
    pub proof fn lemma_inv_frame(&self, t0: Seq<ThreadContext>, t1: Seq<ThreadContext>)
        requires
            self.inv(t0),
            t1.len() == t0.len(),
            forall|j: int|
                0 <= j < t0.len() && #[trigger] self.queued(t0, j) ==> t1[j].prio == t0[j].prio && t1[j].next
                    == t0[j].next && t1[j].prev == t0[j].prev,
        ensures
            self.inv(t1),
            forall|j: int| 0 <= j < t0.len() ==> self.queued(t0, j) == self.queued(t1, j),
    {
        assert forall|p: int| 0 <= p < MAX_PRIOS implies ring_ok(#[trigger] self.queues@[p], t1, p) by {
            let q = self.queues@[p];
            assert(ring_ok(q, t0, p));
            assert forall|i: int| 0 <= i < q.len() implies {
                &&& 0 < #[trigger] q[i] < t1.len()
                &&& t1[q[i] as int].prio == p
                &&& t1[q[i] as int].next == q[crate::sched::ring::succ(i, q.len() as int)]
                &&& t1[q[i] as int].prev == q[crate::sched::ring::pred(i, q.len() as int)]
            } by {
                assert(q.contains(q[i]));
                assert(self.queued(t0, q[i] as int));
            }
        }
        assert forall|j: int| 0 <= j < t0.len() implies self.queued(t0, j) == self.queued(t1, j) by {
            if self.queued(t1, j) && !self.queued(t0, j) {
                let p = t1[j].prio as int;
                let q = self.queues@[p];
                assert(ring_ok(q, t0, p));
                let i = q.index_of(j as u32);
                assert(q[i] == j as u32);
                assert(t1[j].prio == p);
                assert(t0[j].prio as int == p);
            }
        }
    }

    /// There is one queue per priority.
    pub proof fn lemma_view_len(&self)
        requires
            self.bitmap_ok(),
        ensures
            self@.len() == MAX_PRIOS,
    {
    }

    /// The invariant includes the bitmap consistency.
    pub proof fn lemma_inv_bitmap(&self, threads: Seq<ThreadContext>)
        requires
            self.inv(threads),
        ensures
            self.bitmap_ok(),
            self@.len() == MAX_PRIOS,
    {
    }

    /// No thread is twice in a queue.
    pub proof fn lemma_queue_distinct(&self, threads: Seq<ThreadContext>, p: int)
        requires
            self.inv(threads),
            0 <= p < MAX_PRIOS,
        ensures
            self@[p].no_duplicates(),
    {
        assert(ring_ok(self.queues@[p], threads, p));
    }

    /// Every member of the queue of `p` has priority `p`.
    pub proof fn lemma_member_prio(&self, threads: Seq<ThreadContext>, p: int, x: u32)
        requires
            self.inv(threads),
            0 <= p < MAX_PRIOS,
            self@[p].contains(x),
        ensures
            0 < x < threads.len(),
            threads[x as int].prio == p,
            self.queued(threads, x as int),
    {
        let q = self.queues@[p];
        assert(ring_ok(q, threads, p));
        let i = q.index_of(x);
        assert(q[i] == x);
    }

    /// An empty ready list.
    pub fn new() -> (r: Self)
        ensures
            forall|t: Seq<ThreadContext>| r.inv(t),
            r@.len() == MAX_PRIOS,
            all_empty(r@),
    {
        let r = Self {
            valids: [0u32; VALIDS_WORDS],
            heads: [IDX_NONE; 256],
            queues: Ghost(Seq::new(256, |p: int| Seq::<u32>::empty())),
        };
        proof {
            assert forall|p: int| 0 <= p < MAX_PRIOS implies bit32(r.valids@[word_of(p)], bit_of(p)) == ((#[trigger] r.queues@[p]).len() > 0) by {
                lemma_bit32_of_zero(bit_of(p));
            }
            assert forall|t: Seq<ThreadContext>| r.inv(t) by {
                assert forall|p: int| 0 <= p < MAX_PRIOS implies ring_ok(#[trigger] r.queues@[p], t, p) by {
                    assert(r.queues@[p] =~= Seq::<u32>::empty());
                }
            }
        }
        r
    }

    /// The best priority with a ready thread, or `MAX_PRIOS`.
    pub fn best_prio(&self) -> (r: u32)
        requires
            self.bitmap_ok(),
        ensures
            is_best_prio(self@, r as int),
    {
        let mut prio: u32 = 0;
        let mut i: usize = 0;
        while i < VALIDS_WORDS
            invariant
                self.bitmap_ok(),
                i <= VALIDS_WORDS,
                prio == 32 * i,
                forall|p: int| 0 <= p < prio ==> #[trigger] self@[p].len() == 0,
            decreases VALIDS_WORDS - i,
        {
            let w = self.valids[i];
            let ct0 = w.trailing_zeros();
            if w != 0 {
                proof {
                    lemma_trailing_zeros32(w);
                    let r = prio + ct0;
                    assert(word_of(r as int) == i && bit_of(r as int) == ct0);
                    assert(self@[r as int].len() > 0);
                    assert forall|p: int| 0 <= p < r implies #[trigger] self@[p].len() == 0 by {
                        if p >= prio {
                            assert(word_of(p) == i);
                            assert(bit_of(p) < ct0);
                            assert(!bit32(w, bit_of(p)));
                        }
                    }
                }
                return prio + ct0;
            }
            proof {
                vstd::std_specs::bits::axiom_u32_trailing_zeros(w);
                assert forall|p: int| prio <= p < prio + 32 implies #[trigger] self@[p].len() == 0 by {
                    assert(word_of(p) == i);
                    lemma_bit32_of_zero(bit_of(p));
                }
            }
            prio = prio + ct0;
            i = i + 1;
        }
        prio
    }

    /// Whether some thread is ready.
    pub fn any_valid(&self) -> (r: bool)
        requires
            self.bitmap_ok(),
        ensures
            r == !all_empty(self@),
    {
        let b = self.best_prio();
        proof {
            if b < MAX_PRIOS {
                assert(self@[b as int].len() > 0);
            }
        }
        b < MAX_PRIOS
    }

    /// Whether a thread of priority `prio` is ready.
    pub fn prio_valid(&self, prio: u32) -> (r: bool)
        requires
            self.bitmap_ok(),
        ensures
            r == (prio < MAX_PRIOS && self@[prio as int].len() > 0),
    {
        if prio > MAX_PRIO {
            return false;
        }
        proof {
            lemma_locate(prio);
        }
        let word = (prio >> 5u32) as usize;
        let bit = prio & 0x1f;
        let v = self.valids[word];
        proof {
            crate::bits::lemma_u32_facts(v, 0, 0, bit);
        }
        (v >> bit) & 1 != 0
    }

    /// Updating one queue together with its head and bit keeps the bitmap
    /// consistent.
    proof fn lemma_bitmap_update(&self, before: &Self, prio: int, qn: Seq<u32>)
        requires
            before.bitmap_ok(),
            0 <= prio < MAX_PRIOS,
            self.queues@ == before.queues@.update(prio, qn),
            self.heads@ == before.heads@.update(prio, head_of(qn)),
            forall|p: int| 0 <= p < MAX_PRIOS ==> prio_bit(self.valids@, p) == if p == prio {
                qn.len() > 0
            } else {
                prio_bit(before.valids@, p)
            },
        ensures
            self.bitmap_ok(),
    {
        assert forall|p: int| 0 <= p < MAX_PRIOS implies bit32(self.valids@[word_of(p)], bit_of(p)) == ((#[trigger] self.queues@[p]).len() > 0) by {
            assert(prio_bit(self.valids@, p) == bit32(self.valids@[word_of(p)], bit_of(p)));
            assert(prio_bit(before.valids@, p) == bit32(before.valids@[word_of(p)], bit_of(p)));
        }
    }

    /// Mark priority `prio` as having ready threads.
    fn set_prio(&mut self, prio: u32)
        requires
            prio < MAX_PRIOS,
        ensures
            final(self).heads == old(self).heads,
            final(self).queues == old(self).queues,
            forall|p: int| 0 <= p < MAX_PRIOS ==> prio_bit(final(self).valids@, p) == (p == prio || prio_bit(old(self).valids@, p)),
    {
        proof {
            lemma_locate(prio);
        }
        let word = (prio >> 5u32) as usize;
        let bit = prio & 0x1f;
        self.valids[word] = self.valids[word] | (1u32 << bit);
        proof {
            lemma_mask_bit(old(self).valids@[word as int], bit);
            assert forall|p: int| 0 <= p < MAX_PRIOS implies prio_bit(self.valids@, p) == (p == prio || prio_bit(old(self).valids@, p)) by {
                if word_of(p) == word && p != prio {
                    assert(bit_of(p) != bit);
                }
            }
        }
    }

    /// Mark priority `prio` as having no ready thread.
    fn clear_prio(&mut self, prio: u32)
        requires
            prio < MAX_PRIOS,
        ensures
            final(self).heads == old(self).heads,
            final(self).queues == old(self).queues,
            forall|p: int| 0 <= p < MAX_PRIOS ==> prio_bit(final(self).valids@, p) == (p != prio && prio_bit(old(self).valids@, p)),
    {
        proof {
            lemma_locate(prio);
        }
        let word = (prio >> 5u32) as usize;
        let bit = prio & 0x1f;
        self.valids[word] = self.valids[word] & !(1u32 << bit);
        proof {
            lemma_mask_bit(old(self).valids@[word as int], bit);
            assert forall|p: int| 0 <= p < MAX_PRIOS implies prio_bit(self.valids@, p) == (p != prio && prio_bit(old(self).valids@, p)) by {
                if word_of(p) == word && p != prio {
                    assert(bit_of(p) != bit);
                }
            }
        }
    }

    /// Set the status of `idx` to ready; it is in no queue.
    fn mark_ready(&self, threads: &mut [ThreadContext], idx: u32)
        requires
            self.inv(old(threads)@),
            0 < idx < old(threads)@.len(),
            !self.queued(old(threads)@, idx as int),
        ensures
            self.inv(final(threads)@),
            final(threads)@ == old(threads)@.update(idx as int, ThreadContext { status: ThreadStatus::Ready.spec_code(), ..old(threads)@[idx as int] }),
            !self.queued(final(threads)@, idx as int),
    {
        let mut t = threads[idx as usize];
        t.status = ThreadStatus::Ready.code();
        threads[idx as usize] = t;
        proof {
            self.lemma_inv_frame(old(threads)@, threads@);
        }
    }

    /// Add thread `idx` at the back of the queue of its priority and mark
    /// it ready.
    #[verifier::spinoff_prover]
    #[verifier::rlimit(60)]
    pub fn append(&mut self, threads: &mut [ThreadContext], idx: u32)
        requires
            old(self).inv(old(threads)@),
            0 < idx < old(threads)@.len(),
            !old(self).queued(old(threads)@, idx as int),
        ensures
            final(self).inv(final(threads)@),
            final(self)@ == appended(old(self)@, old(threads)@[idx as int].prio as int, idx),
            threads_updated(final(self)@[old(threads)@[idx as int].prio as int], old(threads)@, final(threads)@, idx, ThreadStatus::Ready.spec_code()),
    {
        let prio = threads[idx as usize].prio as u32;
        self.mark_ready(threads, idx);
        let ghost t_mid = threads@;
        let ghost q = self.queues@[prio as int];
        proof {
            assert(ring_ok(q, t_mid, prio as int));
        }
        let mut h = self.heads[prio as usize];
        ring_append(&mut h, threads, idx, Ghost(q), Ghost(prio as int));
        self.heads[prio as usize] = h;
        self.queues = Ghost(self.queues@.update(prio as int, q.push(idx)));
        self.set_prio(prio);
        proof {
            let qn = q.push(idx);
            assert forall|i: int| 0 <= i < qn.len() implies 0 <= #[trigger] qn[i] < t_mid.len() && t_mid[qn[i] as int].prio == prio by {
                assert(threads@[qn[i] as int].prio == prio);
            }
            lemma_other_rings(old(self).queues@, qn, t_mid, threads@, prio as int);
            assert forall|p: int| 0 <= p < MAX_PRIOS implies ring_ok(#[trigger] self.queues@[p], threads@, p) by {
                if p != prio {
                    assert(self.queues@[p] == old(self).queues@[p]);
                }
            }
            self.lemma_bitmap_update(old(self), prio as int, qn);
        }
    }

    /// Add thread `idx` at the front of the queue of its priority and mark
    /// it ready.
    #[verifier::spinoff_prover]
    #[verifier::rlimit(60)]
    pub fn insert(&mut self, threads: &mut [ThreadContext], idx: u32)
        requires
            old(self).inv(old(threads)@),
            0 < idx < old(threads)@.len(),
            !old(self).queued(old(threads)@, idx as int),
        ensures
            final(self).inv(final(threads)@),
            final(self)@ == old(self)@.update(
                old(threads)@[idx as int].prio as int,
                seq![idx] + old(self)@[old(threads)@[idx as int].prio as int],
            ),
            threads_updated(final(self)@[old(threads)@[idx as int].prio as int], old(threads)@, final(threads)@, idx, ThreadStatus::Ready.spec_code()),
    {
        let prio = threads[idx as usize].prio as u32;
        self.mark_ready(threads, idx);
        let ghost t_mid = threads@;
        let ghost q = self.queues@[prio as int];
        proof {
            assert(ring_ok(q, t_mid, prio as int));
        }
        let mut h = self.heads[prio as usize];
        ring_insert(&mut h, threads, idx, Ghost(q), Ghost(prio as int));
        self.heads[prio as usize] = h;
        self.queues = Ghost(self.queues@.update(prio as int, seq![idx] + q));
        self.set_prio(prio);
        proof {
            let qn = seq![idx] + q;
            assert forall|i: int| 0 <= i < qn.len() implies 0 <= #[trigger] qn[i] < t_mid.len() && t_mid[qn[i] as int].prio == prio by {
                assert(threads@[qn[i] as int].prio == prio);
            }
            lemma_other_rings(old(self).queues@, qn, t_mid, threads@, prio as int);
            assert(head_of(qn) == idx);
            assert forall|p: int| 0 <= p < MAX_PRIOS implies ring_ok(#[trigger] self.queues@[p], threads@, p) by {
                if p != prio {
                    assert(self.queues@[p] == old(self).queues@[p]);
                }
            }
            self.lemma_bitmap_update(old(self), prio as int, qn);
        }
    }

    /// Take thread `idx` out of the queue it is in.
    #[verifier::spinoff_prover]
    #[verifier::rlimit(60)]
    pub fn remove(&mut self, threads: &mut [ThreadContext], idx: u32)
        requires
            old(self).inv(old(threads)@),
            old(self).queued(old(threads)@, idx as int),
        ensures
            final(self).inv(final(threads)@),
            final(self)@ == old(self)@.update(
                old(threads)@[idx as int].prio as int,
                old(self)@[old(threads)@[idx as int].prio as int].remove(
                    old(self)@[old(threads)@[idx as int].prio as int].index_of(idx),
                ),
            ),
            links_changed_within(old(self)@[old(threads)@[idx as int].prio as int], old(threads)@, final(threads)@),
    {
        let prio = threads[idx as usize].prio as u32;
        let ghost q = self.queues@[prio as int];
        proof {
            assert(ring_ok(q, threads@, prio as int));
        }
        let mut h = self.heads[prio as usize];
        ring_remove(&mut h, threads, idx, Ghost(q), Ghost(prio as int));
        self.heads[prio as usize] = h;
        let ghost qn = q.remove(q.index_of(idx));
        self.queues = Ghost(self.queues@.update(prio as int, qn));
        self.clear_prio(prio);
        if self.heads[prio as usize] != IDX_NONE {
            self.set_prio(prio);
        }
        proof {
            assert forall|i: int| 0 <= i < q.len() implies 0 <= #[trigger] q[i] < old(threads)@.len() && old(threads)@[q[i] as int].prio == prio by {}
            lemma_other_rings(old(self).queues@, q, old(threads)@, threads@, prio as int);
            if qn.len() > 0 {
                assert(ring_ok(qn, threads@, prio as int));
                assert(qn[0] > 0);
            }
            assert forall|p: int| 0 <= p < MAX_PRIOS implies ring_ok(#[trigger] self.queues@[p], threads@, p) by {
                if p != prio {
                    assert(self.queues@[p] == old(self).queues@[p]);
                }
            }
            self.lemma_bitmap_update(old(self), prio as int, qn);
        }
    }

    /// Take the first thread of the best non-empty queue, or return
    /// `IDX_NONE` when no thread is ready.
    pub fn getbest(&mut self, threads: &mut [ThreadContext]) -> (r: u32)
        requires
            old(self).inv(old(threads)@),
        ensures
            final(self).inv(final(threads)@),
            all_empty(old(self)@) ==> r == IDX_NONE && final(self)@ == old(self)@ && final(threads)@ == old(threads)@,
            !all_empty(old(self)@) ==> {
                let b = best(old(self)@);
                &&& is_best_prio(old(self)@, b)
                &&& b < MAX_PRIOS
                &&& r == old(self)@[b][0]
                &&& final(self)@ == taken(old(self)@)
                &&& links_changed_within(old(self)@[b], old(threads)@, final(threads)@)
            },
    {
        let prio = self.best_prio();
        if prio >= MAX_PRIOS {
            proof {
                assert forall|p: int| 0 <= p < MAX_PRIOS implies #[trigger] old(self)@[p].len() == 0 by {}
            }
            return IDX_NONE;
        }
        let head = self.heads[prio as usize];
        proof {
            lemma_best_unique(self@, prio as int, best(self@));
            let q = self.queues@[prio as int];
            assert(q.len() > 0);
            assert(q.contains(q[0]));
            self.lemma_member_prio(threads@, prio as int, head);
            assert(ring_ok(q, threads@, prio as int));
            assert(q.index_of(q[0]) == 0) by {
                let i = q.index_of(q[0]);
                assert(q[i] == q[0]);
            }
            assert(q.remove(0) =~= q.drop_first());
        }
        if head != IDX_NONE {
            self.remove(threads, head);
        }
        head
    }
}


/// The queues after appending thread `idx` at priority `p`.
pub open spec fn appended(q: Seq<Seq<u32>>, p: int, idx: u32) -> Seq<Seq<u32>> {
    q.update(p, q[p].push(idx))
}

/// The queues after the best thread was taken.
pub open spec fn taken(q: Seq<Seq<u32>>) -> Seq<Seq<u32>> {
    q.update(best(q), q[best(q)].drop_first())
}

/// `p` is the best priority of `q` when it is the only non-empty queue.
proof fn lemma_only_queue(q: Seq<Seq<u32>>, p: int)
    requires
        q.len() == MAX_PRIOS,
        0 <= p < MAX_PRIOS,
        q[p].len() > 0,
        forall|p2: int| 0 <= p2 < MAX_PRIOS && p2 != p ==> #[trigger] q[p2].len() == 0,
    ensures
        best(q) == p,
{
    assert(is_best_prio(q, p));
    lemma_best_unique(q, p, best(q));
}

/// Threads of one priority leave the ready list in the order they
/// entered it: from an empty list, appending `a` then `b` at priority `p`,
/// the first take gives `a`, the second `b`, and the list is empty again.
pub proof fn law_ready_fifo(q0: Seq<Seq<u32>>, p: int, a: u32, b: u32)
    requires
        q0.len() == MAX_PRIOS,
        all_empty(q0),
        0 <= p < MAX_PRIOS,
    ensures
        ({
            let q2 = appended(appended(q0, p, a), p, b);
            &&& !all_empty(q2)
            &&& best(q2) == p
            &&& q2[best(q2)][0] == a
            &&& !all_empty(taken(q2))
            &&& best(taken(q2)) == p
            &&& taken(q2)[best(taken(q2))][0] == b
            &&& all_empty(taken(taken(q2)))
        }),
{
    let q1 = appended(q0, p, a);
    let q2 = appended(q1, p, b);
    assert(q2[p] =~= seq![a, b]);
    assert(!all_empty(q2) && q2[p].len() > 0);
    lemma_only_queue(q2, p);
    let q3 = taken(q2);
    assert(q3[p] =~= seq![b]);
    assert(!all_empty(q3) && q3[p].len() > 0);
    lemma_only_queue(q3, p);
    let q4 = taken(q3);
    assert(q4[p] =~= Seq::<u32>::empty());
    assert forall|p2: int| 0 <= p2 < MAX_PRIOS implies #[trigger] q4[p2].len() == 0 by {
        if p2 != p {
            assert(q4[p2] == q0[p2]);
        }
    }
}

/// A better priority is served first: from an empty list, appending `a`
/// at priority `worse` and then `b` at the better priority `better`, the
/// first take gives `b` and the second `a`.
pub proof fn law_ready_priority(q0: Seq<Seq<u32>>, better: int, worse: int, a: u32, b: u32)
    requires
        q0.len() == MAX_PRIOS,
        all_empty(q0),
        0 <= better < worse < MAX_PRIOS,
    ensures
        ({
            let q2 = appended(appended(q0, worse, a), better, b);
            &&& best(q2) == better
            &&& q2[best(q2)][0] == b
            &&& best(taken(q2)) == worse
            &&& taken(q2)[best(taken(q2))][0] == a
        }),
{
    let q1 = appended(q0, worse, a);
    let q2 = appended(q1, better, b);
    assert(q2[better] =~= seq![b]);
    assert(q2[worse] =~= seq![a]);
    assert(is_best_prio(q2, better)) by {
        assert forall|p: int| 0 <= p < better implies #[trigger] q2[p].len() == 0 by {
            assert(q2[p] == q0[p]);
        }
    }
    lemma_best_unique(q2, better, best(q2));
    let q3 = taken(q2);
    assert(q3[better].len() == 0);
    assert(q3[worse] =~= seq![a]);
    lemma_only_queue(q3, worse);
}


impl Default for ReadyList {
    fn default() -> (r: Self)
        ensures
            forall|t: Seq<ThreadContext>| r.inv(t),
            r@.len() == MAX_PRIOS,
            all_empty(r@),
    {
        Self::new()
    }
}

} // verus!
