//! Futex wait queues: a hash table of rings of waiting threads, each ring
//! kept in priority order (best first, first come first served within a
//! priority). The links live in `nexts`/`prevs` arrays indexed by thread.

use vstd::prelude::*;
use crate::sched::ring::{succ, pred, head_of};

verus! {

/// Number of hash bits.
pub const FUTEX_HASHBITS: u32 = 6;

/// Number of hash buckets.
pub const FUTEX_HASHSIZE: usize = 64;

/// Multiplier of the hash.
pub const FUTEX_PRIME: u32 = 2654435761;

/// Index that means "no thread".
pub const IDX_NONE: u32 = 0;

/// `q` lists, from the head, a well-linked ring of distinct nonzero
/// indices of `nexts`/`prevs`.
pub open spec fn fring_ok(q: Seq<u32>, nexts: Seq<u32>, prevs: Seq<u32>) -> bool {
    &&& q.no_duplicates()
    &&& forall|i: int|
        0 <= i < q.len() ==> {
            &&& 0 < #[trigger] q[i] < nexts.len()
            &&& q[i] < prevs.len()
            &&& nexts[q[i] as int] == q[succ(i, q.len() as int)]
            &&& prevs[q[i] as int] == q[pred(i, q.len() as int)]
        }
}

/// `k` taken cyclically in a ring of `n` members.
pub open spec fn wrap(k: int, n: int) -> int {
    if k < n {
        k
    } else {
        0
    }
}

#[verifier::spinoff_prover]
#[verifier::rlimit(60)]
/// Inserting `x` into the ring `q` at position `k` only needs the links of
/// `x` and of its two new neighbours.
pub proof fn lemma_fring_insert(
    q: Seq<u32>,
    n0: Seq<u32>,
    p0: Seq<u32>,
    n1: Seq<u32>,
    p1: Seq<u32>,
    k: int,
    x: u32,
)
    requires
        fring_ok(q, n0, p0),
        q.len() > 0,
        0 <= k <= q.len(),
        0 < x < n1.len(),
        x < p1.len(),
        !q.contains(x),
        n1.len() == n0.len(),
        p1.len() == p0.len(),
        n1[x as int] == q[wrap(k, q.len() as int)],
        p1[x as int] == q[pred(wrap(k, q.len() as int), q.len() as int)],
        n1[q[pred(wrap(k, q.len() as int), q.len() as int)] as int] == x,
        p1[q[wrap(k, q.len() as int)] as int] == x,
        forall|i: int| 0 <= i < q.len() && i != pred(wrap(k, q.len() as int), q.len() as int) ==> n1[#[trigger] q[i] as int] == n0[q[i] as int],
        forall|i: int| 0 <= i < q.len() && i != wrap(k, q.len() as int) ==> p1[#[trigger] q[i] as int] == p0[q[i] as int],
    ensures
        fring_ok(q.insert(k, x), n1, p1),
{
    let n = q.len() as int;
    let s = q.insert(k, x);
    let c = wrap(k, n);
    let a = pred(c, n);
    assert forall|i: int| 0 <= i < s.len() implies {
        &&& 0 < #[trigger] s[i] < n1.len()
        &&& s[i] < p1.len()
        &&& n1[s[i] as int] == s[succ(i, s.len() as int)]
        &&& p1[s[i] as int] == s[pred(i, s.len() as int)]
    } by {
        let si = succ(i, n + 1);
        let pi = pred(i, n + 1);
        assert(s[si] == if si < k { q[si] } else if si == k { x } else { q[si - 1] });
        assert(s[pi] == if pi < k { q[pi] } else if pi == k { x } else { q[pi - 1] });
        if i < k {
            assert(s[i] == q[i]);
            if i == a {
                assert(n1[q[i] as int] == x);
            } else {
                assert(n1[q[i] as int] == n0[q[i] as int]);
            }
            if i == c {
                assert(p1[q[i] as int] == x);
            } else {
                assert(p1[q[i] as int] == p0[q[i] as int]);
            }
        } else if i > k {
            assert(s[i] == q[i - 1]);
            if i - 1 == a {
                assert(n1[q[i - 1] as int] == x);
            } else {
                assert(n1[q[i - 1] as int] == n0[q[i - 1] as int]);
            }
            if i - 1 == c {
                assert(p1[q[i - 1] as int] == x);
            } else {
                assert(p1[q[i - 1] as int] == p0[q[i - 1] as int]);
            }
        } else {
            assert(s[i] == x);
        }
    }
    assert forall|i: int, j: int| 0 <= i < s.len() && 0 <= j < s.len() && i != j implies s[i] != s[j] by {
        let qi = if i < k { i } else { i - 1 };
        let qj = if j < k { j } else { j - 1 };
        if i != k && j != k {
            assert(s[i] == q[qi] && s[j] == q[qj]);
        } else if i == k {
            assert(s[j] == q[qj]);
        } else {
            assert(s[i] == q[qi]);
        }
    }
}

#[verifier::spinoff_prover]
#[verifier::rlimit(60)]
/// Unlinking the member at `k` leaves a well-linked ring of the others.
pub proof fn lemma_fring_unlink(q: Seq<u32>, n0: Seq<u32>, p0: Seq<u32>, n1: Seq<u32>, p1: Seq<u32>, k: int)
    requires
        fring_ok(q, n0, p0),
        q.len() >= 2,
        0 <= k < q.len(),
        n1.len() == n0.len(),
        p1.len() == p0.len(),
        n1[q[pred(k, q.len() as int)] as int] == q[succ(k, q.len() as int)],
        p1[q[succ(k, q.len() as int)] as int] == q[pred(k, q.len() as int)],
        forall|i: int| 0 <= i < q.len() && i != pred(k, q.len() as int) ==> n1[#[trigger] q[i] as int] == n0[q[i] as int],
        forall|i: int| 0 <= i < q.len() && i != succ(k, q.len() as int) ==> p1[#[trigger] q[i] as int] == p0[q[i] as int],
    ensures
        fring_ok(q.remove(k), n1, p1),
{
    let n = q.len() as int;
    let q2 = q.remove(k);
    assert forall|i2: int| 0 <= i2 < q2.len() implies {
        &&& 0 < #[trigger] q2[i2] < n1.len()
        &&& q2[i2] < p1.len()
        &&& n1[q2[i2] as int] == q2[succ(i2, q2.len() as int)]
        &&& p1[q2[i2] as int] == q2[pred(i2, q2.len() as int)]
    } by {
        let i = if i2 < k { i2 } else { i2 + 1 };
        assert(q2[i2] == q[i]);
        let s2 = succ(i2, n - 1);
        let p2 = pred(i2, n - 1);
        assert(q2[s2] == q[if s2 < k { s2 } else { s2 + 1 }]);
        assert(q2[p2] == q[if p2 < k { p2 } else { p2 + 1 }]);
        if i != pred(k, n) {
            assert(n1[q[i] as int] == n0[q[i] as int]);
        }
        if i != succ(k, n) {
            assert(p1[q[i] as int] == p0[q[i] as int]);
        }
    }
    assert forall|a: int, b: int| 0 <= a < q2.len() && 0 <= b < q2.len() && a != b implies q2[a] != q2[b] by {
        let ia = if a < k { a } else { a + 1 };
        let ib = if b < k { b } else { b + 1 };
        assert(q2[a] == q[ia] && q2[b] == q[ib]);
    }
}

/// A ring stays well linked when the links of its members are unchanged.
pub proof fn lemma_fring_frame(q: Seq<u32>, n0: Seq<u32>, p0: Seq<u32>, n1: Seq<u32>, p1: Seq<u32>)
    requires
        fring_ok(q, n0, p0),
        n1.len() == n0.len(),
        p1.len() == p0.len(),
        forall|i: int| 0 <= i < q.len() ==> n1[#[trigger] q[i] as int] == n0[q[i] as int] && p1[q[i] as int] == p0[q[i] as int],
    ensures
        fring_ok(q, n1, p1),
{
}

/// Index of the bucket of a futex at physical address `pa_shifted` (the
/// address shifted right by two).
pub open spec fn spec_futex_hash(pa_shifted: u64) -> int {
    let lo = pa_shifted as u32;
    let hi = (pa_shifted >> 32u64) as u32;
    let hash = vstd::wrapping::u32_specs::wrapping_mul(lo, FUTEX_PRIME);
    let bits = (hash >> 26u32) & 0x3F;
    ((bits ^ hi) as int) % 64
}

/// Hash bucket of a futex at physical address `pa_shifted`.
pub fn futex_hash(pa_shifted: u64) -> (r: usize)
    ensures
        r == spec_futex_hash(pa_shifted),
        r < FUTEX_HASHSIZE,
{
    let lo = pa_shifted as u32;
    let hi = (pa_shifted >> 32u64) as u32;
    let hash = lo.wrapping_mul(FUTEX_PRIME);
    proof {
        crate::bits::lemma_const_shifts();
    }
    let bits = (hash >> (32 - FUTEX_HASHBITS)) & ((1u32 << FUTEX_HASHBITS) - 1);
    ((bits ^ hi) as usize) % FUTEX_HASHSIZE
}

/// Position at which a waiter of priority `prio` enters the sorted ring
/// `q`: scanning back from the tail, after the last member that is not
/// worse, or first when it is better than the head.
pub open spec fn insert_pos(q: Seq<u32>, prios: Seq<u8>, prio: u8) -> int {
    if q.len() == 0 {
        0
    } else if prio < prios[q[0] as int] {
        0
    } else {
        scan_back(q, prios, prio, q.len() - 1) + 1
    }
}

/// Last index at or before `j` whose member is not worse than `prio`
/// (stopping at the head).
pub open spec fn scan_back(q: Seq<u32>, prios: Seq<u8>, prio: u8, j: int) -> int
    decreases j,
{
    if j <= 0 || !(prio < prios[q[j] as int]) {
        j
    } else {
        scan_back(q, prios, prio, j - 1)
    }
}


/// The ring `q` runs from best (lowest) to worst priority.
pub open spec fn prio_sorted(q: Seq<u32>, prios: Seq<u8>) -> bool {
    forall|i: int, j: int| 0 <= i < j < q.len() ==> prios[#[trigger] q[i] as int] <= prios[#[trigger] q[j] as int]
}

/// Scanning back from `j` stops at the last position not worse than
/// `prio`, or at the head.
proof fn lemma_scan_back(q: Seq<u32>, prios: Seq<u8>, prio: u8, j: int)
    requires
        0 <= j < q.len(),
    ensures
        0 <= scan_back(q, prios, prio, j) <= j,
        scan_back(q, prios, prio, j) == 0 || !(prio < prios[q[scan_back(q, prios, prio, j)] as int]),
        forall|i: int| scan_back(q, prios, prio, j) < i <= j ==> prio < prios[#[trigger] q[i] as int],
    decreases j,
{
    if j > 0 && prio < prios[q[j] as int] {
        lemma_scan_back(q, prios, prio, j - 1);
    }
}

/// A waiter enters a priority-sorted ring after every waiter of the same
/// or better priority and before every worse one, so the ring stays
/// sorted and waiters of one priority are served first come, first
/// served.
pub proof fn law_insert_keeps_order(q: Seq<u32>, prios: Seq<u8>, prio: u8, idx: u32)
    requires
        prio_sorted(q, prios),
        0 <= idx < prios.len(),
        prios[idx as int] == prio,
    ensures
        forall|i: int| 0 <= i < insert_pos(q, prios, prio) ==> prios[#[trigger] q[i] as int] <= prio,
        forall|i: int| insert_pos(q, prios, prio) <= i < q.len() ==> prio < prios[#[trigger] q[i] as int],
        0 <= insert_pos(q, prios, prio) <= q.len(),
        prio_sorted(q.insert(insert_pos(q, prios, prio), idx), prios),
{
    let k = insert_pos(q, prios, prio);
    if q.len() > 0 && !(prio < prios[q[0] as int]) {
        let n = q.len() as int;
        lemma_scan_back(q, prios, prio, n - 1);
        let r = scan_back(q, prios, prio, n - 1);
        assert(prios[q[r] as int] <= prio) by {
            if r == 0 {
            }
        }
        assert forall|i: int| 0 <= i < k implies prios[#[trigger] q[i] as int] <= prio by {
            if i < r {
                assert(prios[q[i] as int] <= prios[q[r] as int]);
            }
        }
    } else if q.len() > 0 {
        assert forall|i: int| 0 <= i < q.len() implies prio < prios[#[trigger] q[i] as int] by {
            if i > 0 {
                assert(prios[q[0] as int] <= prios[q[i] as int]);
            }
        }
    }
    let q2 = q.insert(k, idx);
    assert forall|i: int, j: int| 0 <= i < j < q2.len() implies prios[#[trigger] q2[i] as int] <= prios[#[trigger] q2[j] as int] by {
        if i < k && j < k {
            assert(q2[i] == q[i] && q2[j] == q[j]);
        } else if i < k && j == k {
            assert(q2[i] == q[i]);
        } else if i < k {
            assert(q2[i] == q[i] && q2[j] == q[j - 1]);
            assert(prios[q[i] as int] <= prio);
            assert(prio < prios[q[j - 1] as int]);
        } else if i == k {
            assert(q2[j] == q[j - 1]);
            assert(prio < prios[q[j - 1] as int]);
        } else {
            assert(q2[i] == q[i - 1] && q2[j] == q[j - 1]);
        }
    }
}

/// `i` is the first position in `q` whose futex address is `lo`.
pub open spec fn is_first_match(q: Seq<u32>, futex_ptrs: Seq<u32>, lo: u32, i: int) -> bool {
    &&& 0 <= i < q.len()
    &&& futex_ptrs[q[i] as int] == lo
    &&& forall|j: int| 0 <= j < i ==> futex_ptrs[#[trigger] q[j] as int] != lo
}

/// Hash table of waiter rings.
pub struct FutexTable {
    /// Head of each bucket's ring, or `IDX_NONE`.
    pub buckets: [u32; FUTEX_HASHSIZE],
    /// Waiters of each bucket, head first.
    pub waiters: Ghost<Seq<Seq<u32>>>,
}

impl View for FutexTable {
    type V = Seq<Seq<u32>>;

    /// Waiters of each bucket, head first.
    open spec fn view(&self) -> Seq<Seq<u32>> {
        self.waiters@
    }
}

impl FutexTable {
    /// Heads match the rings, the rings are well linked and no thread
    /// waits in two places.
    pub open spec fn inv(&self, nexts: Seq<u32>, prevs: Seq<u32>) -> bool {
        &&& self.waiters@.len() == FUTEX_HASHSIZE
        &&& nexts.len() == prevs.len()
        &&& forall|b: int| 0 <= b < FUTEX_HASHSIZE ==> self.buckets@[b] == head_of(#[trigger] self.waiters@[b])
        &&& forall|b: int| 0 <= b < FUTEX_HASHSIZE ==> fring_ok(#[trigger] self.waiters@[b], nexts, prevs)
        &&& forall|b1: int, b2: int, i1: int, i2: int|
            0 <= b1 < FUTEX_HASHSIZE && 0 <= b2 < FUTEX_HASHSIZE && 0 <= i1 < self.waiters@[b1].len() && 0 <= i2
                < self.waiters@[b2].len() && #[trigger] self.waiters@[b1][i1] == #[trigger] self.waiters@[b2][i2] ==> b1 == b2
    }

    /// Thread `x` waits in some bucket.
    pub open spec fn waiting(&self, x: u32) -> bool {
        exists|b: int| 0 <= b < FUTEX_HASHSIZE && #[trigger] self@[b].contains(x)
    }

    /// An empty table.
    pub fn new() -> (r: Self)
        ensures
            forall|n: Seq<u32>, p: Seq<u32>| n.len() == p.len() ==> r.inv(n, p),
            r@.len() == FUTEX_HASHSIZE,
            forall|b: int| 0 <= b < FUTEX_HASHSIZE ==> #[trigger] r@[b].len() == 0,
    {
        let r = Self { buckets: [IDX_NONE; FUTEX_HASHSIZE], waiters: Ghost(Seq::new(64, |b: int| Seq::<u32>::empty())) };
        proof {
            assert forall|n: Seq<u32>, p: Seq<u32>| n.len() == p.len() implies r.inv(n, p) by {
                assert forall|b: int| 0 <= b < FUTEX_HASHSIZE implies fring_ok(#[trigger] r.waiters@[b], n, p) by {
                    assert(r.waiters@[b] =~= Seq::<u32>::empty());
                }
            }
        }
        r
    }

    /// Replacing one bucket's ring keeps the table consistent when the
    /// other rings keep their links and no thread ends up in two buckets.
    proof fn lemma_replace_bucket(
        &self,
        before: &Self,
        n0: Seq<u32>,
        p0: Seq<u32>,
        n1: Seq<u32>,
        p1: Seq<u32>,
        hash: int,
        qn: Seq<u32>,
    )
        requires
            before.inv(n0, p0),
            0 <= hash < FUTEX_HASHSIZE,
            n1.len() == n0.len(),
            p1.len() == p0.len(),
            self.waiters@ == before.waiters@.update(hash, qn),
            self.buckets@ == before.buckets@.update(hash, head_of(qn)),
            fring_ok(qn, n1, p1),
            forall|b: int, i: int|
                0 <= b < FUTEX_HASHSIZE && b != hash && 0 <= i < before.waiters@[b].len() ==> n1[#[trigger] before.waiters@[b][i] as int]
                    == n0[before.waiters@[b][i] as int] && p1[before.waiters@[b][i] as int] == p0[before.waiters@[b][i] as int],
            forall|b: int, x: u32| 0 <= b < FUTEX_HASHSIZE && b != hash && #[trigger] before.waiters@[b].contains(x) ==> !qn.contains(x),
        ensures
            self.inv(n1, p1),
    {
        assert forall|b: int| 0 <= b < FUTEX_HASHSIZE implies fring_ok(#[trigger] self.waiters@[b], n1, p1) by {
            if b != hash {
                let q = before.waiters@[b];
                assert(fring_ok(q, n0, p0));
                assert forall|i: int| 0 <= i < q.len() implies n1[#[trigger] q[i] as int] == n0[q[i] as int] && p1[q[i] as int] == p0[q[i] as int] by {
                    assert(before.waiters@[b][i] == q[i]);
                }
                lemma_fring_frame(q, n0, p0, n1, p1);
            }
        }
        assert forall|b1: int, b2: int, i1: int, i2: int|
            0 <= b1 < FUTEX_HASHSIZE && 0 <= b2 < FUTEX_HASHSIZE && 0 <= i1 < self.waiters@[b1].len() && 0 <= i2
                < self.waiters@[b2].len() && #[trigger] self.waiters@[b1][i1] == #[trigger] self.waiters@[b2][i2] implies b1 == b2 by {
            if b1 != b2 {
                if b1 == hash {
                    assert(before.waiters@[b2].contains(self.waiters@[b2][i2]));
                    assert(qn.contains(qn[i1]));
                } else if b2 == hash {
                    assert(before.waiters@[b1].contains(self.waiters@[b1][i1]));
                    assert(qn.contains(qn[i2]));
                } else {
                    assert(before.waiters@[b1][i1] == before.waiters@[b2][i2]);
                }
            }
        }
    }

    /// Add thread `idx` with priority `prio` to bucket `hash`, keeping the
    /// ring ordered by the priorities in `prios`.
    #[verifier::spinoff_prover]
    #[verifier::rlimit(60)]
    pub fn add_waiter(
        &mut self,
        hash: usize,
        idx: u32,
        prio: u8,
        nexts: &mut [u32],
        prevs: &mut [u32],
        prios: &[u8],
    )
        requires
            old(self).inv(old(nexts)@, old(prevs)@),
            hash < FUTEX_HASHSIZE,
            0 < idx,
            (idx as int) < old(nexts)@.len(),
            !old(self).waiting(idx),
            prios@.len() >= old(nexts)@.len(),
        ensures
            final(self).inv(final(nexts)@, final(prevs)@),
            final(self)@ == old(self)@.update(
                hash as int,
                old(self)@[hash as int].insert(insert_pos(old(self)@[hash as int], prios@, prio), idx),
            ),
            final(nexts)@.len() == old(nexts)@.len(),
            final(prevs)@.len() == old(prevs)@.len(),
            forall|j: int|
                0 <= j < old(nexts)@.len() && !final(self)@[hash as int].contains(j as u32) ==> #[trigger] final(nexts)@[j] == old(nexts)@[j]
                    && final(prevs)@[j] == old(prevs)@[j],
    {
        let ghost q = self.waiters@[hash as int];
        let ghost n0 = nexts@;
        let ghost p0 = prevs@;
        proof {
            assert(fring_ok(q, n0, p0));
            assert forall|b: int| 0 <= b < FUTEX_HASHSIZE implies !#[trigger] self@[b].contains(idx) by {}
            assert(self@ == self.waiters@);
            assert(!self@[hash as int].contains(idx));
            assert(!q.contains(idx));
        }
        let head = self.buckets[hash];
        let ghost k: int;
        if head == IDX_NONE {
            proof {
                if q.len() > 0 {
                    assert(0 < q[0]);
                }
                assert(q.len() == 0);
                k = 0;
            }
            nexts[idx as usize] = idx;
            prevs[idx as usize] = idx;
            self.buckets[hash] = idx;
            proof {
                assert(q.insert(0, idx) =~= seq![idx]);
            }
        } else if prio < prios[head as usize] {
            proof {
                k = 0;
                assert(q.contains(q[0]));
                assert(q.contains(q[q.len() - 1]));
            }
            let tail = prevs[head as usize];
            proof {
                assert(head == q[0]);
                assert(tail == q[q.len() - 1]);
            }
            nexts[idx as usize] = head;
            prevs[idx as usize] = tail;
            nexts[tail as usize] = idx;
            prevs[head as usize] = idx;
            self.buckets[hash] = idx;
            proof {
                let n = q.len() as int;
                assert forall|i: int| 0 <= i < q.len() && i != pred(0, n) implies nexts@[#[trigger] q[i] as int] == n0[q[i] as int] by {
                    assert(q[i] != q[n - 1]);
                    assert(q.contains(q[i]));
                }
                assert forall|i: int| 0 <= i < q.len() && i != 0 implies prevs@[#[trigger] q[i] as int] == p0[q[i] as int] by {
                    assert(q[i] != q[0]);
                    assert(q.contains(q[i]));
                }
                lemma_fring_insert(q, n0, p0, nexts@, prevs@, 0, idx);
            }
        } else {
            let tail = prevs[head as usize];
            let ghost n = q.len() as int;
            let ghost mut j: int = n - 1;
            proof {
                assert(q.contains(q[0]));
                assert(tail == q[n - 1]);
            }
            let mut pos = tail;
            while pos != head && prio < prios[pos as usize]
                invariant
                    fring_ok(q, n0, p0),
                    nexts@ == n0,
                    prevs@ == p0,
                    n == q.len(),
                    n > 0,
                    head == q[0],
                    0 <= j < n,
                    pos == q[j],
                    prios@.len() >= n0.len(),
                    scan_back(q, prios@, prio, n - 1) == scan_back(q, prios@, prio, j),
                decreases j,
            {
                proof {
                    if j == 0 {
                        assert(pos == head);
                    }
                }
                pos = prevs[pos as usize];
                proof {
                    j = j - 1;
                }
            }
            proof {
                if pos == head && j != 0 {
                    assert(q[j] == q[0]);
                }
                assert(scan_back(q, prios@, prio, j) == j);
                k = j + 1;
                assert(insert_pos(q, prios@, prio) == k);
                assert(q.contains(q[succ(j, n)]));
            }
            let after = nexts[pos as usize];
            nexts[pos as usize] = idx;
            nexts[idx as usize] = after;
            prevs[after as usize] = idx;
            prevs[idx as usize] = pos;
            proof {
                assert(after == q[succ(j, n)]);
                assert(wrap(k, n) == succ(j, n));
                assert(pred(wrap(k, n), n) == j);
                assert forall|i: int| 0 <= i < q.len() && i != j implies nexts@[#[trigger] q[i] as int] == n0[q[i] as int] by {
                    assert(q[i] != q[j]);
                    assert(q.contains(q[i]));
                }
                assert forall|i: int| 0 <= i < q.len() && i != succ(j, n) implies prevs@[#[trigger] q[i] as int] == p0[q[i] as int] by {
                    assert(q[i] != q[succ(j, n)]);
                    assert(q.contains(q[i]));
                }
                lemma_fring_insert(q, n0, p0, nexts@, prevs@, k, idx);
            }
        }
        proof {
            assert(k == insert_pos(q, prios@, prio));
        }
        proof {
            assert forall|j2: int| 0 <= j2 < n0.len() && j2 != idx && !q.contains(j2 as u32) implies #[trigger] nexts@[j2] == n0[j2] && prevs@[j2] == p0[j2] by {
                if q.len() > 0 {
                    assert(q.contains(q[0]));
                    assert(q.contains(q[q.len() - 1]));
                }
            }
        }
        self.waiters = Ghost(self.waiters@.update(hash as int, q.insert(k, idx)));
        proof {
            assert(head_of(q.insert(k, idx)) == self.buckets@[hash as int]) by {
                if k > 0 {
                    assert(q.insert(k, idx)[0] == q[0]);
                }
            }
            assert(self.buckets@ =~= old(self).buckets@.update(hash as int, head_of(q.insert(k, idx))));
            self.lemma_after_insert(old(self), n0, p0, nexts@, prevs@, hash as int, k, idx);
        }
    }

    /// Bookkeeping after `idx` entered the ring of bucket `hash` at `k`.
    #[verifier::spinoff_prover]
    #[verifier::rlimit(60)]
    proof fn lemma_after_insert(
        &self,
        before: &Self,
        n0: Seq<u32>,
        p0: Seq<u32>,
        n1: Seq<u32>,
        p1: Seq<u32>,
        hash: int,
        k: int,
        idx: u32,
    )
        requires
            before.inv(n0, p0),
            0 <= hash < FUTEX_HASHSIZE,
            0 <= k <= before.waiters@[hash].len(),
            n1.len() == n0.len(),
            p1.len() == p0.len(),
            !before.waiting(idx),
            self.waiters@ == before.waiters@.update(hash, before.waiters@[hash].insert(k, idx)),
            self.buckets@ == before.buckets@.update(hash, head_of(before.waiters@[hash].insert(k, idx))),
            fring_ok(before.waiters@[hash].insert(k, idx), n1, p1),
            forall|j2: int|
                0 <= j2 < n0.len() && j2 != idx && !before.waiters@[hash].contains(j2 as u32) ==> #[trigger] n1[j2] == n0[j2] && p1[j2] == p0[j2],
        ensures
            self.inv(n1, p1),
            forall|j: int|
                0 <= j < n0.len() && !self@[hash].contains(j as u32) ==> #[trigger] n1[j] == n0[j] && p1[j] == p0[j],
    {
        let q = before.waiters@[hash];
        assert(before@ == before.waiters@);
        assert(!q.contains(idx)) by {
            if q.contains(idx) {
                assert(before@[hash].contains(idx));
            }
        }
            let qn = q.insert(k, idx);
            assert forall|j2: int| 0 <= j2 < n0.len() && !qn.contains(j2 as u32) implies #[trigger] n1[j2] == n0[j2] && p1[j2] == p0[j2] by {
                if q.contains(j2 as u32) {
                    let t = q.index_of(j2 as u32);
                    if t < k {
                        assert(qn[t] == q[t]);
                    } else {
                        assert(qn[t + 1] == q[t]);
                    }
                }
                assert(qn.contains(qn[k]));
                if q.len() > 0 {
                    assert(qn.contains(q[wrap(k, q.len() as int)])) by {
                        let c = wrap(k, q.len() as int);
                        if c < k {
                            assert(qn[c] == q[c]);
                        } else {
                            assert(qn[c + 1] == q[c]);
                        }
                    }
                    assert(qn.contains(q[pred(wrap(k, q.len() as int), q.len() as int)])) by {
                        let a = pred(wrap(k, q.len() as int), q.len() as int);
                        if a < k {
                            assert(qn[a] == q[a]);
                        } else {
                            assert(qn[a + 1] == q[a]);
                        }
                    }
                }
            }
            assert forall|b: int, i: int|
                0 <= b < FUTEX_HASHSIZE && b != hash && 0 <= i < before.waiters@[b].len() implies n1[#[trigger] before.waiters@[b][i] as int]
                    == n0[before.waiters@[b][i] as int] && p1[before.waiters@[b][i] as int] == p0[before.waiters@[b][i] as int] by {
                let x = before.waiters@[b][i];
                assert(before@[b].contains(x));
                if qn.contains(x) {
                    let t = qn.index_of(x);
                    if t == k {
                        assert(x == idx);
                    } else {
                        let tq = if t < k { t } else { t - 1 };
                        assert(q[tq] == x);
                    }
                }
                assert(0 <= x < n0.len()) by {
                    assert(fring_ok(before.waiters@[b], n0, p0));
                }
            }
            assert forall|b: int, x: u32| 0 <= b < FUTEX_HASHSIZE && b != hash && #[trigger] before.waiters@[b].contains(x) implies !qn.contains(x) by {
                if qn.contains(x) {
                    let t = qn.index_of(x);
                    if t == k {
                        assert(before@[b].contains(idx));
                    } else {
                        let tq = if t < k { t } else { t - 1 };
                        assert(q[tq] == x);
                        let i = before.waiters@[b].index_of(x);
                        assert(before.waiters@[b][i] == before.waiters@[hash][tq]);
                    }
                }
            }
            self.lemma_replace_bucket(before, n0, p0, n1, p1, hash, qn);
    }

    /// Take the member at position `k` out of the ring of bucket `hash`
    /// and clear its links.
    #[verifier::spinoff_prover]
    #[verifier::rlimit(60)]
    fn unlink(&mut self, hash: usize, cur: u32, nexts: &mut [u32], prevs: &mut [u32], Ghost(k): Ghost<int>)
        requires
            old(self).inv(old(nexts)@, old(prevs)@),
            hash < FUTEX_HASHSIZE,
            0 <= k < old(self)@[hash as int].len(),
            old(self)@[hash as int][k] == cur,
        ensures
            final(self).inv(final(nexts)@, final(prevs)@),
            final(self)@ == old(self)@.update(hash as int, old(self)@[hash as int].remove(k)),
            final(nexts)@.len() == old(nexts)@.len(),
            final(prevs)@.len() == old(prevs)@.len(),
            final(nexts)@[cur as int] == IDX_NONE,
            final(prevs)@[cur as int] == IDX_NONE,
            forall|j: int|
                0 <= j < old(nexts)@.len() && !old(self)@[hash as int].contains(j as u32) ==> #[trigger] final(nexts)@[j] == old(nexts)@[j]
                    && final(prevs)@[j] == old(prevs)@[j],
    {
        let ghost q = self.waiters@[hash as int];
        let ghost n0 = nexts@;
        let ghost p0 = prevs@;
        let ghost n = q.len() as int;
        proof {
            assert(self@ == self.waiters@);
            assert(fring_ok(q, n0, p0));
            assert(q.contains(q[pred(k, n)]));
            assert(q.contains(q[succ(k, n)]));
            assert(q.contains(q[0]));
        }
        let head = self.buckets[hash];
        let next = nexts[cur as usize];
        let prev = prevs[cur as usize];
        if next == cur {
            proof {
                if n > 1 {
                    assert(q[succ(k, n)] != q[k]);
                }
            }
            self.buckets[hash] = IDX_NONE;
        } else {
            nexts[prev as usize] = next;
            prevs[next as usize] = prev;
            if cur == head {
                self.buckets[hash] = next;
            }
        }
        let ghost n_mid = nexts@;
        let ghost p_mid = prevs@;
        nexts[cur as usize] = IDX_NONE;
        prevs[cur as usize] = IDX_NONE;
        self.waiters = Ghost(self.waiters@.update(hash as int, q.remove(k)));
        proof {
            let qn = q.remove(k);
            if n == 1 {
                assert(qn.len() == 0);
                assert(n_mid == n0 && p_mid == p0);
            } else {
                assert(next != cur);
                assert(n_mid == n0.update(q[pred(k, n)] as int, q[succ(k, n)]));
                assert(p_mid == p0.update(q[succ(k, n)] as int, q[pred(k, n)]));
                if k == 0 {
                    assert(qn[0] == q[1]);
                    assert(succ(0, n) == 1);
                } else {
                    assert(qn[0] == q[0]);
                    assert(q[0] != cur);
                }
            }
            assert(self.buckets@ =~= old(self).buckets@.update(hash as int, head_of(qn)));
            self.lemma_after_unlink(old(self), n0, p0, n_mid, p_mid, nexts@, prevs@, hash as int, k);
        }
    }

    /// Bookkeeping after the member at `k` left the ring of bucket `hash`.
    #[verifier::spinoff_prover]
    #[verifier::rlimit(60)]
    proof fn lemma_after_unlink(
        &self,
        before: &Self,
        n0: Seq<u32>,
        p0: Seq<u32>,
        n_mid: Seq<u32>,
        p_mid: Seq<u32>,
        n1: Seq<u32>,
        p1: Seq<u32>,
        hash: int,
        k: int,
    )
        requires
            before.inv(n0, p0),
            0 <= hash < FUTEX_HASHSIZE,
            0 <= k < before.waiters@[hash].len(),
            before.waiters@[hash].len() == 1 ==> n_mid == n0 && p_mid == p0,
            before.waiters@[hash].len() > 1 ==> n_mid == n0.update(
                before.waiters@[hash][pred(k, before.waiters@[hash].len() as int)] as int,
                before.waiters@[hash][succ(k, before.waiters@[hash].len() as int)],
            ) && p_mid == p0.update(
                before.waiters@[hash][succ(k, before.waiters@[hash].len() as int)] as int,
                before.waiters@[hash][pred(k, before.waiters@[hash].len() as int)],
            ),
            n1 == n_mid.update(before.waiters@[hash][k] as int, IDX_NONE),
            p1 == p_mid.update(before.waiters@[hash][k] as int, IDX_NONE),
            self.waiters@ == before.waiters@.update(hash, before.waiters@[hash].remove(k)),
            self.buckets@ == before.buckets@.update(hash, head_of(before.waiters@[hash].remove(k))),
        ensures
            self.inv(n1, p1),
            forall|j: int|
                0 <= j < n0.len() && !before.waiters@[hash].contains(j as u32) ==> #[trigger] n1[j] == n0[j] && p1[j] == p0[j],
    {
        let q = before.waiters@[hash];
        let n = q.len() as int;
        let qn = q.remove(k);
        let cur = q[k];
        assert(fring_ok(q, n0, p0));
        assert(q.contains(q[pred(k, n)]));
        assert(q.contains(q[succ(k, n)]));
        if n > 1 {
            assert forall|i: int| 0 <= i < q.len() && i != pred(k, n) implies n_mid[#[trigger] q[i] as int] == n0[q[i] as int] by {
                assert(q[i] != q[pred(k, n)]);
            }
            assert forall|i: int| 0 <= i < q.len() && i != succ(k, n) implies p_mid[#[trigger] q[i] as int] == p0[q[i] as int] by {
                assert(q[i] != q[succ(k, n)]);
            }
            lemma_fring_unlink(q, n0, p0, n_mid, p_mid, k);
            assert forall|i: int| 0 <= i < qn.len() implies n1[#[trigger] qn[i] as int] == n_mid[qn[i] as int] && p1[qn[i] as int] == p_mid[qn[i] as int] by {
                let t = if i < k { i } else { i + 1 };
                assert(qn[i] == q[t]);
                assert(q[t] != cur);
            }
            lemma_fring_frame(qn, n_mid, p_mid, n1, p1);
        } else {
            assert(qn.len() == 0);
        }
        assert forall|b: int, i: int|
            0 <= b < FUTEX_HASHSIZE && b != hash && 0 <= i < before.waiters@[b].len() implies n1[#[trigger] before.waiters@[b][i] as int]
                == n0[before.waiters@[b][i] as int] && p1[before.waiters@[b][i] as int] == p0[before.waiters@[b][i] as int] by {
            let x = before.waiters@[b][i];
            if x == cur {
                assert(before.waiters@[b][i] == before.waiters@[hash][k]);
            } else if x == q[pred(k, n)] {
                assert(before.waiters@[b][i] == before.waiters@[hash][pred(k, n)]);
            } else if x == q[succ(k, n)] {
                assert(before.waiters@[b][i] == before.waiters@[hash][succ(k, n)]);
            }
        }
        assert forall|b: int, x: u32| 0 <= b < FUTEX_HASHSIZE && b != hash && #[trigger] before.waiters@[b].contains(x) implies !qn.contains(x) by {
            if qn.contains(x) {
                let t = qn.index_of(x);
                let tq = if t < k { t } else { t + 1 };
                assert(q[tq] == x);
                let i = before.waiters@[b].index_of(x);
                assert(before.waiters@[b][i] == before.waiters@[hash][tq]);
            }
        }
        self.lemma_replace_bucket(before, n0, p0, n1, p1, hash, qn);
        assert forall|j: int| 0 <= j < n0.len() && !q.contains(j as u32) implies #[trigger] n1[j] == n0[j] && p1[j] == p0[j] by {}
    }

    /// Take the first waiter of bucket `hash` whose futex address is
    /// `futex_lo` out of the ring and return it, or `IDX_NONE`.
    #[verifier::spinoff_prover]
    #[verifier::rlimit(60)]
    pub fn remove_one(
        &mut self,
        hash: usize,
        futex_lo: u32,
        futex_ptrs: &[u32],
        nexts: &mut [u32],
        prevs: &mut [u32],
    ) -> (r: u32)
        requires
            old(self).inv(old(nexts)@, old(prevs)@),
            hash < FUTEX_HASHSIZE,
            futex_ptrs@.len() >= old(nexts)@.len(),
        ensures
            final(self).inv(final(nexts)@, final(prevs)@),
            final(nexts)@.len() == old(nexts)@.len(),
            final(prevs)@.len() == old(prevs)@.len(),
            (forall|i: int| 0 <= i < old(self)@[hash as int].len() ==> futex_ptrs@[#[trigger] old(self)@[hash as int][i] as int] != futex_lo)
                ==> r == IDX_NONE && *final(self) == *old(self) && final(nexts)@ == old(nexts)@ && final(prevs)@ == old(prevs)@,
            !(forall|i: int| 0 <= i < old(self)@[hash as int].len() ==> futex_ptrs@[#[trigger] old(self)@[hash as int][i] as int] != futex_lo)
                ==> exists|i: int| {
                &&& #[trigger] is_first_match(old(self)@[hash as int], futex_ptrs@, futex_lo, i)
                &&& r == old(self)@[hash as int][i]
                &&& final(self)@ == old(self)@.update(hash as int, old(self)@[hash as int].remove(i))
                &&& final(nexts)@[r as int] == IDX_NONE
                &&& final(prevs)@[r as int] == IDX_NONE
                &&& forall|j: int|
                    0 <= j < old(nexts)@.len() && !old(self)@[hash as int].contains(j as u32) ==> #[trigger] final(nexts)@[j]
                        == old(nexts)@[j] && final(prevs)@[j] == old(prevs)@[j]
            },
    {
        let ghost q = self.waiters@[hash as int];
        proof {
            assert(self@ == self.waiters@);
            assert(fring_ok(q, nexts@, prevs@));
        }
        let head = self.buckets[hash];
        if head == IDX_NONE {
            proof {
                if q.len() > 0 {
                    assert(0 < q[0]);
                }
            }
            return IDX_NONE;
        }
        let ghost n = q.len() as int;
        let ghost mut i: int = 0;
        let mut cur = head;
        loop
            invariant
                self.inv(nexts@, prevs@),
                *self == *old(self),
                nexts@ == old(nexts)@,
                prevs@ == old(prevs)@,
                self@ == self.waiters@,
                q == self.waiters@[hash as int],
                hash < FUTEX_HASHSIZE,
                fring_ok(q, nexts@, prevs@),
                futex_ptrs@.len() >= nexts@.len(),
                n == q.len(),
                n > 0,
                head == q[0],
                0 <= i < n,
                cur == q[i],
                forall|j: int| 0 <= j < i ==> futex_ptrs@[#[trigger] q[j] as int] != futex_lo,
            decreases n - i,
        {
            if futex_ptrs[cur as usize] == futex_lo {
                self.unlink(hash, cur, nexts, prevs, Ghost(i));
                proof {
                    assert(is_first_match(q, futex_ptrs@, futex_lo, i));
                }
                return cur;
            }
            cur = nexts[cur as usize];
            proof {
                assert(cur == q[succ(i, n)]);
                if i + 1 < n {
                    assert(q[i + 1] != q[0]);
                }
            }
            if cur == head {
                proof {
                    assert(i + 1 == n) by {
                        if i + 1 < n {
                            assert(q[i + 1] != q[0]);
                        }
                    }
                }
                return IDX_NONE;
            }
            proof {
                i = i + 1;
            }
        }
    }

    /// Take thread `idx` out of the ring of bucket `hash` it waits in.
    pub fn cancel(&mut self, hash: usize, idx: u32, nexts: &mut [u32], prevs: &mut [u32])
        requires
            old(self).inv(old(nexts)@, old(prevs)@),
            hash < FUTEX_HASHSIZE,
            old(self)@[hash as int].len() == 0 || old(self)@[hash as int].contains(idx),
        ensures
            final(self).inv(final(nexts)@, final(prevs)@),
            final(nexts)@.len() == old(nexts)@.len(),
            final(prevs)@.len() == old(prevs)@.len(),
            old(self)@[hash as int].len() == 0 ==> *final(self) == *old(self) && final(nexts)@ == old(nexts)@
                && final(prevs)@ == old(prevs)@,
            old(self)@[hash as int].len() > 0 ==> {
                &&& final(self)@ == old(self)@.update(
                    hash as int,
                    old(self)@[hash as int].remove(old(self)@[hash as int].index_of(idx)),
                )
                &&& final(nexts)@[idx as int] == IDX_NONE
                &&& final(prevs)@[idx as int] == IDX_NONE
                &&& forall|j: int|
                    0 <= j < old(nexts)@.len() && !old(self)@[hash as int].contains(j as u32) ==> #[trigger] final(nexts)@[j]
                        == old(nexts)@[j] && final(prevs)@[j] == old(prevs)@[j]
            },
    {
        let ghost q = self.waiters@[hash as int];
        proof {
            assert(self@ == self.waiters@);
        }
        let head = self.buckets[hash];
        if head == IDX_NONE {
            proof {
                if q.len() > 0 {
                    assert(fring_ok(q, nexts@, prevs@));
                    assert(0 < q[0]);
                }
            }
            return ;
        }
        proof {
            assert(q.len() > 0);
            assert(q[q.index_of(idx)] == idx);
        }
        self.unlink(hash, idx, nexts, prevs, Ghost(q.index_of(idx)));
    }
}


impl Default for FutexTable {
    fn default() -> (r: Self)
        ensures
            forall|n: Seq<u32>, p: Seq<u32>| n.len() == p.len() ==> r.inv(n, p),
            r@.len() == FUTEX_HASHSIZE,
            forall|b: int| 0 <= b < FUTEX_HASHSIZE ==> #[trigger] r@[b].len() == 0,
    {
        Self::new()
    }
}

} // verus!
