//! Circular doubly-linked rings threaded through the `next`/`prev` fields
//! of a thread table. A ring is described by the sequence of its members
//! starting at the head; index 0 of the table is never a member.

use vstd::prelude::*;
use crate::sched::context::{ThreadContext, same_but_links};

verus! {

/// Index after `i` in a ring of `n` members.
pub open spec fn succ(i: int, n: int) -> int {
    if i + 1 == n {
        0
    } else {
        i + 1
    }
}

/// Index before `i` in a ring of `n` members.
pub open spec fn pred(i: int, n: int) -> int {
    if i == 0 {
        n - 1
    } else {
        i - 1
    }
}

/// Head index of the ring `q` (0 when empty).
pub open spec fn head_of(q: Seq<u32>) -> u32 {
    if q.len() == 0 {
        0
    } else {
        q[0]
    }
}

/// `q` lists, from the head, a well-linked ring of distinct threads of
/// priority `p`.
pub open spec fn ring_ok(q: Seq<u32>, threads: Seq<ThreadContext>, p: int) -> bool {
    &&& q.no_duplicates()
    &&& forall|i: int|
        0 <= i < q.len() ==> {
            &&& 0 < #[trigger] q[i] < threads.len()
            &&& threads[q[i] as int].prio == p
            &&& threads[q[i] as int].next == q[succ(i, q.len() as int)]
            &&& threads[q[i] as int].prev == q[pred(i, q.len() as int)]
        }
}

/// Threads outside `q` are unchanged; those in it changed only their
/// links.
pub open spec fn links_changed_within(q: Seq<u32>, before: Seq<ThreadContext>, after: Seq<ThreadContext>) -> bool {
    &&& after.len() == before.len()
    &&& forall|j: int| 0 <= j < before.len() && !q.contains(j as u32) ==> #[trigger] after[j] == before[j]
    &&& forall|j: int| 0 <= j < before.len() ==> same_but_links(#[trigger] after[j], before[j]) && after[j].status == before[j].status
}

/// A ring stays well linked when none of its members changes.
pub proof fn lemma_ring_frame(q: Seq<u32>, before: Seq<ThreadContext>, after: Seq<ThreadContext>, p: int)
    requires
        ring_ok(q, before, p),
        after.len() == before.len(),
        forall|i: int| 0 <= i < q.len() ==> after[q[i] as int] == before[q[i] as int],
    ensures
        ring_ok(q, after, p),
{
    assert forall|i: int| 0 <= i < q.len() implies {
        &&& 0 < #[trigger] q[i] < after.len()
        &&& after[q[i] as int].prio == p
        &&& after[q[i] as int].next == q[succ(i, q.len() as int)]
        &&& after[q[i] as int].prev == q[pred(i, q.len() as int)]
    } by {
        assert(after[q[i] as int] == before[q[i] as int]);
    }
}

pub fn set_next(threads: &mut [ThreadContext], i: u32, v: u32)
    requires
        (i as int) < old(threads)@.len(),
    ensures
        final(threads)@ == old(threads)@.update(i as int, ThreadContext { next: v, ..old(threads)@[i as int] }),
{
    let mut t = threads[i as usize];
    t.next = v;
    threads[i as usize] = t;
}

pub fn set_prev(threads: &mut [ThreadContext], i: u32, v: u32)
    requires
        (i as int) < old(threads)@.len(),
    ensures
        final(threads)@ == old(threads)@.update(i as int, ThreadContext { prev: v, ..old(threads)@[i as int] }),
{
    let mut t = threads[i as usize];
    t.prev = v;
    threads[i as usize] = t;
}

/// Append `idx` at the end of the ring (just before the head).
pub fn ring_append(head: &mut u32, threads: &mut [ThreadContext], idx: u32, Ghost(q): Ghost<Seq<u32>>, Ghost(p): Ghost<int>)
    requires
        ring_ok(q, old(threads)@, p),
        *old(head) == head_of(q),
        0 < idx < old(threads)@.len(),
        !q.contains(idx),
        old(threads)@[idx as int].prio == p,
    ensures
        ring_ok(q.push(idx), final(threads)@, p),
        *final(head) == head_of(q.push(idx)),
        links_changed_within(q.push(idx), old(threads)@, final(threads)@),
{
    let ghost t0 = threads@;
    if *head == 0 {
        set_next(threads, idx, idx);
        set_prev(threads, idx, idx);
        *head = idx;
        proof {
            assert(q.len() == 0) by {
                if q.len() > 0 {
                    assert(0 < q[0]);
                }
            }
            assert(q.push(idx) =~= seq![idx]);
        }
    } else {
        let h = *head;
        proof {
            assert(q.len() > 0);
            assert(q.contains(q[0]));
        }
        let tail = threads[h as usize].prev;
        let ghost n = q.len() as int;
        proof {
            assert(tail == q[n - 1]);
            assert(q.contains(q[n - 1]));
        }
        set_next(threads, idx, h);
        set_prev(threads, idx, tail);
        set_next(threads, tail, idx);
        set_prev(threads, h, idx);
        proof {
            let q2 = q.push(idx);
            let t1 = threads@;
            assert forall|i: int| 0 <= i < q2.len() implies {
                &&& 0 < #[trigger] q2[i] < t1.len()
                &&& t1[q2[i] as int].prio == p
                &&& t1[q2[i] as int].next == q2[succ(i, q2.len() as int)]
                &&& t1[q2[i] as int].prev == q2[pred(i, q2.len() as int)]
            } by {
                if i < n {
                    assert(q2[i] == q[i]);
                    assert(q.contains(q[i]));
                    if i > 0 {
                        assert(q[i] != q[0]);
                    }
                    if i < n - 1 {
                        assert(q[i] != q[n - 1]);
                    }
                }
            }
            assert(q2.no_duplicates());
            assert forall|j: int| 0 <= j < t0.len() && !q2.contains(j as u32) implies #[trigger] t1[j] == t0[j] by {
                assert(q2.contains(q2[n]));
                assert(q2[0] == q[0]);
                assert(q2.contains(q2[0]));
                assert(q2[n - 1] == q[n - 1]);
                assert(q2.contains(q2[n - 1]));
            }
        }
    }
}

/// Insert `idx` at the front of the ring; it becomes the head.
pub fn ring_insert(head: &mut u32, threads: &mut [ThreadContext], idx: u32, Ghost(q): Ghost<Seq<u32>>, Ghost(p): Ghost<int>)
    requires
        ring_ok(q, old(threads)@, p),
        *old(head) == head_of(q),
        0 < idx < old(threads)@.len(),
        !q.contains(idx),
        old(threads)@[idx as int].prio == p,
    ensures
        ring_ok(seq![idx] + q, final(threads)@, p),
        *final(head) == idx,
        links_changed_within(seq![idx] + q, old(threads)@, final(threads)@),
{
    let ghost t0 = threads@;
    if *head == 0 {
        set_next(threads, idx, idx);
        set_prev(threads, idx, idx);
        proof {
            assert(q.len() == 0) by {
                if q.len() > 0 {
                    assert(0 < q[0]);
                }
            }
            assert(seq![idx] + q =~= seq![idx]);
            assert((seq![idx] + q)[0] == idx);
        }
    } else {
        let h = *head;
        proof {
            assert(q.len() > 0);
            assert(q.contains(q[0]));
        }
        let tail = threads[h as usize].prev;
        let ghost n = q.len() as int;
        proof {
            assert(tail == q[n - 1]);
            assert(q.contains(q[n - 1]));
        }
        set_next(threads, idx, h);
        set_prev(threads, idx, tail);
        set_next(threads, tail, idx);
        set_prev(threads, h, idx);
        proof {
            let q2 = seq![idx] + q;
            let t1 = threads@;
            assert forall|i: int| 0 <= i < q2.len() implies {
                &&& 0 < #[trigger] q2[i] < t1.len()
                &&& t1[q2[i] as int].prio == p
                &&& t1[q2[i] as int].next == q2[succ(i, q2.len() as int)]
                &&& t1[q2[i] as int].prev == q2[pred(i, q2.len() as int)]
            } by {
                if i > 0 {
                    assert(q2[i] == q[i - 1]);
                    assert(q.contains(q[i - 1]));
                    if i > 1 {
                        assert(q[i - 1] != q[0]);
                    }
                    if i < n {
                        assert(q[i - 1] != q[n - 1]);
                    }
                }
            }
            assert forall|a: int, b: int| 0 <= a < q2.len() && 0 <= b < q2.len() && a != b implies q2[a] != q2[b] by {
                if a > 0 && b > 0 {
                    assert(q2[a] == q[a - 1] && q2[b] == q[b - 1]);
                } else if a == 0 {
                    assert(q.contains(q2[b]));
                } else {
                    assert(q.contains(q2[a]));
                }
            }
            assert forall|j: int| 0 <= j < t0.len() && !q2.contains(j as u32) implies #[trigger] t1[j] == t0[j] by {
                assert(q2.contains(q2[0]));
                assert(q2[1] == q[0]);
                assert(q2.contains(q2[1]));
                assert(q2[n] == q[n - 1]);
                assert(q2.contains(q2[n]));
            }
        }
    }
    *head = idx;
}


/// Unlinking the member at `k` leaves a well-linked ring of the others.
#[verifier::spinoff_prover]
#[verifier::rlimit(75)]
pub proof fn lemma_unlinked_ring(q: Seq<u32>, t0: Seq<ThreadContext>, t1: Seq<ThreadContext>, p: int, k: int)
    requires
        ring_ok(q, t0, p),
        q.len() >= 2,
        0 <= k < q.len(),
        t1.len() == t0.len(),
        t1[q[pred(k, q.len() as int)] as int].next == q[succ(k, q.len() as int)],
        t1[q[succ(k, q.len() as int)] as int].prev == q[pred(k, q.len() as int)],
        forall|i: int| 0 <= i < q.len() ==> t1[#[trigger] q[i] as int].prio == t0[q[i] as int].prio,
        forall|i: int| 0 <= i < q.len() && i != pred(k, q.len() as int) ==> t1[#[trigger] q[i] as int].next == t0[q[i] as int].next,
        forall|i: int| 0 <= i < q.len() && i != succ(k, q.len() as int) ==> t1[#[trigger] q[i] as int].prev == t0[q[i] as int].prev,
    ensures
        ring_ok(q.remove(k), t1, p),
{
    let n = q.len() as int;
    let q2 = q.remove(k);
    assert forall|i2: int| 0 <= i2 < q2.len() implies {
        &&& 0 < #[trigger] q2[i2] < t1.len()
        &&& t1[q2[i2] as int].prio == p
        &&& t1[q2[i2] as int].next == q2[succ(i2, q2.len() as int)]
        &&& t1[q2[i2] as int].prev == q2[pred(i2, q2.len() as int)]
    } by {
        let i = if i2 < k { i2 } else { i2 + 1 };
        assert(q2[i2] == q[i]);
        let s2 = succ(i2, n - 1);
        let p2 = pred(i2, n - 1);
        assert(q2[s2] == q[if s2 < k { s2 } else { s2 + 1 }]);
        assert(q2[p2] == q[if p2 < k { p2 } else { p2 + 1 }]);
        assert(t1[q[i] as int].prio == t0[q[i] as int].prio);
        if i != pred(k, n) {
            assert(t1[q[i] as int].next == t0[q[i] as int].next);
        }
        if i != succ(k, n) {
            assert(t1[q[i] as int].prev == t0[q[i] as int].prev);
        }
    }
    assert forall|a: int, b: int| 0 <= a < q2.len() && 0 <= b < q2.len() && a != b implies q2[a] != q2[b] by {
        let ia = if a < k { a } else { a + 1 };
        let ib = if b < k { b } else { b + 1 };
        assert(q2[a] == q[ia] && q2[b] == q[ib]);
    }
}

/// Remove `idx` from the ring `q` it belongs to.
#[verifier::spinoff_prover]
#[verifier::rlimit(45)]
pub fn ring_remove(head: &mut u32, threads: &mut [ThreadContext], idx: u32, Ghost(q): Ghost<Seq<u32>>, Ghost(p): Ghost<int>)
    requires
        ring_ok(q, old(threads)@, p),
        *old(head) == head_of(q),
        q.contains(idx),
    ensures
        ring_ok(q.remove(q.index_of(idx)), final(threads)@, p),
        *final(head) == head_of(q.remove(q.index_of(idx))),
        links_changed_within(q, old(threads)@, final(threads)@),
{
    let ghost t0 = threads@;
    let ghost n = q.len() as int;
    let ghost k = q.index_of(idx);
    proof {
        assert(q[k] == idx);
        assert(q.contains(q[pred(k, n)]));
        assert(q.contains(q[succ(k, n)]));
    }
    let prev = threads[idx as usize].prev;
    let next = threads[idx as usize].next;
    set_next(threads, prev, next);
    set_prev(threads, next, prev);
    if *head == idx {
        *head = next;
        if *head == idx {
            *head = 0;
        }
    }
    proof {
        let t1 = threads@;
        if n == 1 {
            assert(q.remove(k).len() == 0);
        } else {
            assert(q[pred(k, n)] != idx);
            assert(q[succ(k, n)] != idx);
            assert forall|i: int| 0 <= i < q.len() && i != pred(k, n) implies t1[#[trigger] q[i] as int].next == t0[q[i] as int].next by {
                assert(q[i] != q[pred(k, n)]);
            }
            assert forall|i: int| 0 <= i < q.len() && i != succ(k, n) implies t1[#[trigger] q[i] as int].prev == t0[q[i] as int].prev by {
                assert(q[i] != q[succ(k, n)]);
            }
            lemma_unlinked_ring(q, t0, t1, p, k);
            if k == 0 {
                assert(q.remove(k)[0] == q[1]);
            } else {
                assert(q.remove(k)[0] == q[0]);
                assert(q[0] != idx);
            }
        }
        assert forall|j: int| 0 <= j < t0.len() && !q.contains(j as u32) implies #[trigger] t1[j] == t0[j] by {}
    }
}

} // verus!
