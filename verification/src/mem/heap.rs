//! Kernel heap: a first-fit allocator over an array of tag words. Every
//! block starts with a tag holding its size in words, a bit telling
//! whether the block before it is free, and a bit marking a deferred free.
//! A free block also ends with a footer holding its size, so that freeing
//! its successor can merge backwards. The first block starts at word
//! `ALLOC_UNIT - 1`; the last word is a sentinel of size 0.

use vstd::prelude::*;
use crate::types::consts::ALLOC_UNIT;

verus! {

/// Tag word: bit 0 "previous block free", bit 1 "released", bits 2..=31
/// the size in words.
#[derive(Clone, Copy, Debug, PartialEq, Eq)]
pub struct AllocTag(pub u32);

impl AllocTag {
    pub open spec fn spec_free(self) -> bool {
        self.0 & 1 == 1
    }

    pub open spec fn spec_released(self) -> bool {
        (self.0 >> 1u32) & 1 == 1
    }

    pub open spec fn spec_size(self) -> u32 {
        self.0 >> 2u32
    }

    /// Whether the previous block is free.
    pub fn free(self) -> (r: bool)
        ensures
            r == self.spec_free(),
    {
        let x = self.0;
        proof {
            lemma_tag_bits(x, 0, 0);
        }
        self.0 & 1 != 0
    }

    /// Whether the block was released for a deferred free.
    pub fn released(self) -> (r: bool)
        ensures
            r == self.spec_released(),
    {
        let x = self.0;
        proof {
            lemma_tag_bits(x, 0, 0);
        }
        (self.0 >> 1u32) & 1 != 0
    }

    /// Size of the block in words.
    pub fn size(self) -> (r: u32)
        ensures
            r == self.spec_size(),
            r < 0x4000_0000,
    {
        let x = self.0;
        proof {
            lemma_tag_bits(x, 0, 0);
        }
        self.0 >> 2u32
    }

    pub fn with_free(self, f: bool) -> (r: Self)
        ensures
            r.spec_free() == f,
            r.spec_released() == self.spec_released(),
            r.spec_size() == self.spec_size(),
    {
        let x = self.0;
        let b: u32 = if f { 1 } else { 0 };
        let r = (x & !1u32) | b;
        proof {
            lemma_tag_bits(x, b, 0);
        }
        AllocTag(r)
    }

    pub fn with_released(self, rel: bool) -> (r: Self)
        ensures
            r.0 == (self.0 & !2u32) | (if rel { 2u32 } else { 0u32 }),
            r.spec_released() == rel,
            r.spec_free() == self.spec_free(),
            r.spec_size() == self.spec_size(),
    {
        let x = self.0;
        let b: u32 = if rel { 1 } else { 0 };
        let r = (x & !2u32) | (b << 1u32);
        proof {
            lemma_tag_bits(x, b, 0);
            crate::bits::lemma_const_shifts();
        }
        AllocTag(r)
    }

    pub fn with_size(self, s: u32) -> (r: Self)
        ensures
            r.0 == (self.0 & 3) | (s << 2u32),
            s < 0x4000_0000 ==> r.spec_size() == s,
            r.spec_free() == self.spec_free(),
            r.spec_released() == self.spec_released(),
    {
        let x = self.0;
        let r = (x & 3) | (s << 2u32);
        proof {
            lemma_tag_bits(x, 0, s);
        }
        AllocTag(r)
    }
}

/// Bit facts behind the tag fields: `x` a tag word, `b` a flag value,
/// `s` a size.
proof fn lemma_tag_bits(x: u32, b: u32, s: u32)
    by (bit_vector)
    ensures
        (x & 1 != 0) == (x & 1 == 1),
        ((x >> 1u32) & 1 != 0) == ((x >> 1u32) & 1 == 1),
        x >> 2u32 < 0x4000_0000,
        b <= 1 ==> (((x & !1u32) | b) & 1 == 1) == (b == 1),
        b <= 1 ==> (((x & !1u32) | b) >> 1u32) & 1 == (x >> 1u32) & 1,
        b <= 1 ==> ((x & !1u32) | b) >> 2u32 == x >> 2u32,
        b <= 1 ==> ((((x & !2u32) | (b << 1u32)) >> 1u32) & 1 == 1) == (b == 1),
        b <= 1 ==> ((x & !2u32) | (b << 1u32)) & 1 == x & 1,
        b <= 1 ==> ((x & !2u32) | (b << 1u32)) >> 2u32 == x >> 2u32,
        s < 0x4000_0000 ==> ((x & 3) | (s << 2u32)) >> 2u32 == s,
        ((x & 3) | (s << 2u32)) & 1 == x & 1,
        (((x & 3) | (s << 2u32)) >> 1u32) & 1 == (x >> 1u32) & 1,
        s < 0x4000_0000 ==> (s << 2u32) >> 2u32 == s && (s << 2u32) & 1 == 0 && ((s << 2u32) >> 1u32) & 1 == 0,
        (0u32 & 3) | (s << 2u32) == s << 2u32,
        x & 1 != 1 && (x >> 1u32) & 1 != 1 && x >> 2u32 == s ==> x == s << 2u32,
{
}

/// A fresh tag of size `s` with both flags clear.
pub open spec fn plain_tag(s: u32) -> AllocTag {
    AllocTag(s << 2u32)
}

proof fn lemma_plain_tag(s: u32)
    requires
        s < 0x4000_0000,
    ensures
        plain_tag(s).spec_size() == s,
        !plain_tag(s).spec_free(),
        !plain_tag(s).spec_released(),
{
    lemma_tag_bits(0, 0, s);
}

/// An allocation: where its data starts and how many bytes it holds.
#[derive(Clone, Copy, Debug)]
pub struct AllocBlock {
    pub offset: usize,
    pub size: usize,
}

/// Words needed for `bytes` bytes plus the tag.
pub open spec fn spec_words(bytes: u32) -> u32 {
    ((bytes + 4) / 4) as u32
}

/// Allocation units for `w` words, always one more than `w / ALLOC_UNIT`.
pub open spec fn spec_units(w: u32) -> u32 {
    ((w + ALLOC_UNIT) / ALLOC_UNIT as int) as u32
}

/// Words given to a request of `request` bytes.
pub open spec fn spec_request_words(request: u32) -> int {
    spec_units(spec_words(request)) * ALLOC_UNIT
}

fn words(bytes: u32) -> (r: u32)
    requires
        bytes <= 0xFFFF_FFFB,
    ensures
        r == spec_words(bytes),
{
    (bytes + 4) / 4
}

fn units(word_count: u32) -> (r: u32)
    requires
        word_count <= 0x4000_0000,
    ensures
        r == spec_units(word_count),
{
    (word_count + ALLOC_UNIT) / ALLOC_UNIT
}

/// `b` lists the block starts of heap `h`, sentinel last: sizes chain
/// the starts, every block but the sentinel spans at least two words, the
/// first block has no free predecessor, and every free block but the last
/// ends with a footer holding its size.
#[verifier::opaque]
pub open spec fn heap_wf(h: Seq<AllocTag>, b: Seq<int>) -> bool {
    &&& 9 < h.len() < 0x4000_0000
    &&& b.len() >= 2
    &&& b[0] == ALLOC_UNIT - 1
    &&& b[b.len() - 1] == h.len() - 1
    &&& h[h.len() - 1].spec_size() == 0
    &&& !h[ALLOC_UNIT - 1].spec_free()
    &&& forall|i: int, j: int| 0 <= i < j < b.len() ==> b[i] < b[j]
    &&& forall|i: int|
        0 <= i < b.len() - 1 ==> b[i] + #[trigger] h[b[i]].spec_size() == b[i + 1] && h[b[i]].spec_size() >= 2
    &&& forall|i: int| 0 < i < b.len() - 1 && #[trigger] h[b[i]].spec_free() ==> h[b[i] - 1].spec_size() == b[i] - b[i - 1]
}


/// The blocks `k2+1 ..= k2+d` of `b0` merged into block `k2`, which spans
/// `s..e`: `b1` is `b0` without them.
pub open spec fn merged_blocks(b0: Seq<int>, b1: Seq<int>, k2: int, d: int) -> bool {
    &&& b1.len() == b0.len() - d
    &&& forall|i: int| 0 <= i <= k2 ==> #[trigger] b1[i] == b0[i]
    &&& forall|i: int| k2 < i < b1.len() ==> #[trigger] b1[i] == b0[i + d]
}


/// What well-formedness says around block `k`.
proof fn lemma_wf_facts(h: Seq<AllocTag>, b: Seq<int>, k: int)
    requires
        heap_wf(h, b),
        0 <= k < b.len() - 1,
    ensures
        9 < h.len() < 0x4000_0000,
        b.len() >= 2,
        b[0] == ALLOC_UNIT - 1,
        b[b.len() - 1] == h.len() - 1,
        h[h.len() - 1].spec_size() == 0,
        !h[ALLOC_UNIT - 1].spec_free(),
        forall|i: int, j: int| 0 <= i < j < b.len() ==> b[i] < b[j],
        b[k] + h[b[k]].spec_size() == b[k + 1],
        h[b[k]].spec_size() >= 2,
        k + 1 < b.len() - 1 ==> b[k + 1] + h[b[k + 1]].spec_size() == b[k + 2] && h[b[k + 1]].spec_size() >= 2,
        k + 1 == b.len() - 1 ==> h[b[k + 1]].spec_size() == 0,
        0 < k && h[b[k]].spec_free() ==> h[b[k] - 1].spec_size() == b[k] - b[k - 1],
        0 <= b[0] <= b[k] < b[k + 1] <= h.len() - 1,
{
    reveal(heap_wf);
    assert(b[0] <= b[k]);
    assert(b[k + 1] <= b[b.len() - 1]);
}


/// A heap stays well formed when free block `k` is taken whole: only the
/// free bit in its successor's tag changes.
proof fn lemma_take_whole(h0: Seq<AllocTag>, b0: Seq<int>, h1: Seq<AllocTag>, k: int)
    requires
        heap_wf(h0, b0),
        0 <= k < b0.len() - 1,
        h1.len() == h0.len(),
        !h1[b0[k + 1]].spec_free(),
        h1[b0[k + 1]].spec_size() == h0[b0[k + 1]].spec_size(),
        forall|x: int| 0 <= x < h0.len() && x != b0[k + 1] ==> #[trigger] h1[x] == h0[x],
    ensures
        heap_wf(h1, b0),
        !block_free(h1, b0, k),
{
    reveal(heap_wf);
    let b = b0;
    assert forall|i: int| 0 <= i < b.len() - 1 implies b[i] + #[trigger] h1[b[i]].spec_size() == b[i + 1] && h1[b[i]].spec_size() >= 2 by {
        assert(b[i] + h0[b[i]].spec_size() == b[i + 1]);
        if b[i] != b[k + 1] {
            assert(h1[b[i]] == h0[b[i]]);
        }
    }
    assert forall|i: int| 0 < i < b.len() - 1 && #[trigger] h1[b[i]].spec_free() implies h1[b[i] - 1].spec_size() == b[i] - b[i - 1] by {
        assert(b[i] != b[k + 1]);
        assert(h1[b[i]] == h0[b[i]]);
        if i > k + 1 {
            assert(b[k + 1] + h0[b[k + 1]].spec_size() == b[k + 2]);
            assert(b[k + 2] <= b[i]);
        }
    }
    if b[k + 1] != h0.len() - 1 {
        assert(h1[h0.len() - 1] == h0[h0.len() - 1]);
    }
    assert(b[k + 1] != ALLOC_UNIT - 1) by {
        assert(b[0] < b[k + 1]);
    }
}

/// A heap stays well formed when block `k2` absorbs the `d` blocks after
/// it, becomes free with a footer, and nothing outside it changes but the
/// free bit of its successor.
proof fn lemma_merge_free(h0: Seq<AllocTag>, b0: Seq<int>, h1: Seq<AllocTag>, b1: Seq<int>, k2: int, d: int)
    requires
        heap_wf(h0, b0),
        0 <= d <= 2,
        0 <= k2,
        k2 + 1 + d <= b0.len() - 1,
        merged_blocks(b0, b1, k2, d),
        h1.len() == h0.len(),
        h1[b0[k2]].spec_size() == b0[k2 + 1 + d] - b0[k2],
        h1[b0[k2]].spec_free() == h0[b0[k2]].spec_free(),
        h1[b0[k2 + 1 + d] - 1] == plain_tag((b0[k2 + 1 + d] - b0[k2]) as u32),
        h1[b0[k2 + 1 + d]].spec_free(),
        h1[b0[k2 + 1 + d]].spec_size() == h0[b0[k2 + 1 + d]].spec_size(),
        forall|x: int|
            0 <= x < h0.len() && !(b0[k2] <= x <= b0[k2 + 1 + d]) ==> #[trigger] h1[x] == h0[x],
    ensures
        heap_wf(h1, b1),
{
    reveal(heap_wf);
    let s = b0[k2];
    let e = b0[k2 + 1 + d];
    let n0 = b0.len();
    let n1 = b1.len();
    assert(s < e);
    assert(e - s >= 2) by {
        assert(b0[k2] + h0[b0[k2]].spec_size() == b0[k2 + 1]);
        assert(b0[k2 + 1] <= e);
    }
    assert(e - s < 0x4000_0000);
    lemma_plain_tag((e - s) as u32);
    assert(b1[k2] == s);
    assert(b1[k2 + 1] == e);
    assert forall|i: int, j: int| 0 <= i < j < n1 implies b1[i] < b1[j] by {
        let ii = if i <= k2 { i } else { i + d };
        let jj = if j <= k2 { j } else { j + d };
        assert(b1[i] == b0[ii]);
        assert(b1[j] == b0[jj]);
    }
    assert forall|i: int| 0 <= i < n1 - 1 implies b1[i] + #[trigger] h1[b1[i]].spec_size() == b1[i + 1] && h1[b1[i]].spec_size() >= 2 by {
        if i < k2 {
            assert(b1[i] == b0[i] && b1[i + 1] == b0[i + 1]);
            assert(b0[i] < s);
            assert(b0[i] + h0[b0[i]].spec_size() == b0[i + 1]);
        } else if i == k2 {
        } else {
            assert(b1[i] == b0[i + d] && b1[i + 1] == b0[i + 1 + d]);
            assert(b0[i + d] >= e);
            assert(b0[i + d] + h0[b0[i + d]].spec_size() == b0[i + d + 1]);
            if b0[i + d] != e {
                assert(h1[b0[i + d]] == h0[b0[i + d]]);
            }
        }
    }
    assert forall|i: int| 0 < i < n1 - 1 && #[trigger] h1[b1[i]].spec_free() implies h1[b1[i] - 1].spec_size() == b1[i] - b1[i - 1] by {
        if i < k2 {
            assert(b1[i] == b0[i] && b1[i - 1] == b0[i - 1]);
            assert(b0[i] < s);
            assert(h1[b0[i]] == h0[b0[i]]);
            assert(h1[b0[i] - 1] == h0[b0[i] - 1]);
        } else if i == k2 {
            assert(b1[i - 1] == b0[i - 1]);
            assert(h1[s - 1] == h0[s - 1]);
        } else if i == k2 + 1 {
        } else {
            assert(b1[i] == b0[i + d] && b1[i - 1] == b0[i - 1 + d]);
            assert(b0[i - 1 + d] >= e);
            assert(b0[i - 1 + d] + h0[b0[i - 1 + d]].spec_size() == b0[i + d]);
            assert(h0[b0[i - 1 + d]].spec_size() >= 2);
            assert(b0[i + d] - 1 > e);
            assert(h1[b0[i + d]] == h0[b0[i + d]]);
            assert(h1[b0[i + d] - 1] == h0[b0[i + d] - 1]);
        }
    }
    assert(b1[n1 - 1] == b0[n0 - 1]) by {
        if n1 - 1 > k2 {
        } else {
            assert(d == 0);
        }
    }
    if e != h0.len() - 1 {
        assert(h1[h0.len() - 1] == h0[h0.len() - 1]);
    }
    if s != ALLOC_UNIT - 1 {
        assert(b0[0] < s);
        assert(h1[ALLOC_UNIT - 1] == h0[ALLOC_UNIT - 1]);
    }
}


/// A heap stays well formed when free block `k` is cut into an allocated
/// head of `rw` words and a free splinter, which gets its own tag and
/// footer.
proof fn lemma_split(h0: Seq<AllocTag>, b0: Seq<int>, h1: Seq<AllocTag>, k: int, rw: int)
    requires
        heap_wf(h0, b0),
        0 <= k < b0.len() - 1,
        2 <= rw,
        b0[k] + rw + 2 <= b0[k + 1],
        h0[b0[k + 1]].spec_free(),
        h1.len() == h0.len(),
        h1[b0[k]].spec_size() == rw,
        h1[b0[k]].spec_free() == h0[b0[k]].spec_free(),
        h1[b0[k] + rw] == plain_tag((b0[k + 1] - b0[k] - rw) as u32),
        h1[b0[k + 1] - 1] == plain_tag((b0[k + 1] - b0[k] - rw) as u32),
        forall|x: int|
            0 <= x < h0.len() && x != b0[k] && x != b0[k] + rw && x != b0[k + 1] - 1 ==> #[trigger] h1[x] == h0[x],
    ensures
        heap_wf(h1, b0.insert(k + 1, b0[k] + rw)),
        !block_free(h1, b0.insert(k + 1, b0[k] + rw), k),
        block_free(h1, b0.insert(k + 1, b0[k] + rw), k + 1),
{
    reveal(heap_wf);
    let b1 = b0.insert(k + 1, b0[k] + rw);
    let t = b0[k];
    let sp = t + rw;
    let nx = b0[k + 1];
    let ss = nx - sp;
    assert(nx - t < 0x4000_0000);
    lemma_plain_tag(ss as u32);
    let n0 = b0.len();
    assert forall|i: int| 0 <= i < b1.len() implies #[trigger] b1[i] == if i <= k { b0[i] } else if i == k + 1 { sp } else { b0[i - 1] } by {}
    assert forall|i: int, j: int| 0 <= i < j < b1.len() implies b1[i] < b1[j] by {
        if i <= k && j > k + 1 {
            assert(b0[k] < b0[j - 1]);
        }
        if i == k + 1 && j > k + 1 {
            assert(b0[k + 1] <= b0[j - 1]);
        }
        if i < k && j == k + 1 {
            assert(b0[i] < b0[k]);
        }
    }
    assert forall|i: int| 0 <= i < b1.len() - 1 implies b1[i] + #[trigger] h1[b1[i]].spec_size() == b1[i + 1] && h1[b1[i]].spec_size() >= 2 by {
        if i < k {
            assert(b0[i] < t);
            assert(h1[b0[i]] == h0[b0[i]]);
            assert(b0[i] + h0[b0[i]].spec_size() == b0[i + 1]);
        } else if i == k {
        } else if i == k + 1 {
        } else {
            assert(b0[i - 1] >= nx);
            assert(h1[b0[i - 1]] == h0[b0[i - 1]]);
            assert(b0[i - 1] + h0[b0[i - 1]].spec_size() == b0[i]);
        }
    }
    assert forall|i: int| 0 < i < b1.len() - 1 && #[trigger] h1[b1[i]].spec_free() implies h1[b1[i] - 1].spec_size() == b1[i] - b1[i - 1] by {
        if i < k {
            assert(b0[i] < t);
            assert(h1[b0[i]] == h0[b0[i]]);
            assert(h1[b0[i] - 1] == h0[b0[i] - 1]);
        } else if i == k {
            assert(h1[t - 1] == h0[t - 1]);
        } else if i == k + 1 {
        } else if i == k + 2 {
        } else {
            assert(b0[i - 2] >= nx);
            assert(b0[i - 2] + h0[b0[i - 2]].spec_size() == b0[i - 1]);
            assert(h1[b0[i - 1]] == h0[b0[i - 1]]);
            assert(h1[b0[i - 1] - 1] == h0[b0[i - 1] - 1]);
        }
    }
    assert(h1[nx] == h0[nx]);
    assert(b1[b1.len() - 1] == b0[n0 - 1]);
    if t != ALLOC_UNIT - 1 {
        assert(b0[0] < t);
        assert(h1[ALLOC_UNIT - 1] == h0[ALLOC_UNIT - 1]);
    }
    assert(h1[h0.len() - 1] == h0[h0.len() - 1]);
}

/// Block `i` of `b` is free.
pub open spec fn block_free(h: Seq<AllocTag>, b: Seq<int>, i: int) -> bool {
    h[b[i + 1]].spec_free()
}

/// Block `j` has been looked at by an allocation of `request` bytes and
/// found wanting: not released, and in use or too small.
pub open spec fn settled(h: Seq<AllocTag>, b: Seq<int>, j: int, request: u32) -> bool {
    &&& !h[b[j]].spec_released()
    &&& !(block_free(h, b, j) && fits(h[b[j]].spec_size(), request))
}

/// Bytes per tag word.
pub const TAG_BYTES: usize = 4;

/// A block of `ts` words serves a request of `request` bytes.
pub open spec fn fits(ts: u32, request: u32) -> bool {
    ts >= spec_request_words(request) && (ts - 1) * 4 >= request
}

/// Block `i` of `b` is live: in use and not released.
pub open spec fn live_at(h: Seq<AllocTag>, b: Seq<int>, i: int) -> bool {
    !block_free(h, b, i) && !h[b[i]].spec_released()
}

/// The span `s..e` is a live block of `(h1, b1)` whose words strictly
/// inside are those of `h0`.
pub open spec fn kept_block(h0: Seq<AllocTag>, s: int, e: int, h1: Seq<AllocTag>, b1: Seq<int>) -> bool {
    &&& exists|j: int| 0 <= j < b1.len() - 1 && b1[j] == s && b1[j + 1] == e && #[trigger] live_at(h1, b1, j)
    &&& forall|x: int| s < x < e ==> #[trigger] h1[x] == h0[x]
}

/// Every block live in `(h0, b0)`, but the one starting at `ex`, is still
/// a live block of `(h1, b1)`, with the same bounds and the same words.
pub open spec fn keeps_live(h0: Seq<AllocTag>, b0: Seq<int>, h1: Seq<AllocTag>, b1: Seq<int>, ex: int) -> bool {
    forall|i: int|
        0 <= i < b0.len() - 1 && #[trigger] live_at(h0, b0, i) && b0[i] != ex ==> kept_block(h0, b0[i], b0[i + 1], h1, b1)
}

/// No block start lies strictly inside another block, and the insides
/// of two blocks do not meet.
proof fn lemma_starts_apart(b: Seq<int>, i: int, m: int, x: int)
    requires
        forall|p: int, q: int| 0 <= p < q < b.len() ==> b[p] < b[q],
        0 <= i < b.len() - 1,
        0 <= m < b.len(),
    ensures
        !(b[i] < b[m] < b[i + 1]),
        m < b.len() - 1 && m != i ==> !(b[i] < x < b[i + 1] && b[m] < x < b[m + 1]),
{
    if m <= i {
        assert(b[m] <= b[i]);
    } else {
        assert(b[i + 1] <= b[m]);
    }
    if m < b.len() - 1 && m != i {
        if m < i {
            assert(b[m + 1] <= b[i]);
        }
    }
}

/// Two different blocks of a well-formed heap do not overlap.
pub proof fn law_blocks_disjoint(h: Seq<AllocTag>, b: Seq<int>, i: int, j: int)
    requires
        heap_wf(h, b),
        0 <= i < b.len() - 1,
        0 <= j < b.len() - 1,
        i != j,
    ensures
        b[i + 1] <= b[j] || b[j + 1] <= b[i],
{
    lemma_wf_facts(h, b, i);
    if i < j {
        assert(b[i + 1] <= b[j]);
    } else {
        assert(b[j + 1] <= b[i]);
    }
}

proof fn lemma_keep_refl(h: Seq<AllocTag>, b: Seq<int>, ex: int)
    ensures
        keeps_live(h, b, h, b, ex),
{
    assert forall|i: int| 0 <= i < b.len() - 1 && #[trigger] live_at(h, b, i) && b[i] != ex implies kept_block(h, b[i], b[i + 1], h, b) by {
        assert(live_at(h, b, i));
    }
}

proof fn lemma_keep_trans(
    h0: Seq<AllocTag>,
    b0: Seq<int>,
    h1: Seq<AllocTag>,
    b1: Seq<int>,
    h2: Seq<AllocTag>,
    b2: Seq<int>,
    ex: int,
)
    requires
        heap_wf(h0, b0),
        keeps_live(h0, b0, h1, b1, ex),
        keeps_live(h1, b1, h2, b2, -1),
    ensures
        keeps_live(h0, b0, h2, b2, ex),
{
    assert forall|i: int| 0 <= i < b0.len() - 1 && #[trigger] live_at(h0, b0, i) && b0[i] != ex implies kept_block(h0, b0[i], b0[i + 1], h2, b2) by {
        lemma_wf_facts(h0, b0, i);
        assert(kept_block(h0, b0[i], b0[i + 1], h1, b1));
        let j = choose|j: int| 0 <= j < b1.len() - 1 && b1[j] == b0[i] && b1[j + 1] == b0[i + 1] && #[trigger] live_at(h1, b1, j);
        assert(b1[j] != -1);
        assert(kept_block(h1, b1[j], b1[j + 1], h2, b2));
    }
}

/// Dropping the exception of a block that was not live.
proof fn lemma_keep_drop_ex(h0: Seq<AllocTag>, b0: Seq<int>, h1: Seq<AllocTag>, b1: Seq<int>, k: int)
    requires
        heap_wf(h0, b0),
        0 <= k < b0.len() - 1,
        !live_at(h0, b0, k),
        keeps_live(h0, b0, h1, b1, b0[k]),
    ensures
        keeps_live(h0, b0, h1, b1, -1),
{
    assert forall|i: int| 0 <= i < b0.len() - 1 && #[trigger] live_at(h0, b0, i) && b0[i] != -1 implies kept_block(h0, b0[i], b0[i + 1], h1, b1) by {
        lemma_wf_facts(h0, b0, i);
        if i != k {
            assert(b0[i] != b0[k]);
        }
    }
}

/// Taking free block `k` whole keeps every live block.
proof fn lemma_keep_take_whole(h0: Seq<AllocTag>, b0: Seq<int>, h1: Seq<AllocTag>, k: int)
    requires
        heap_wf(h0, b0),
        0 <= k < b0.len() - 1,
        block_free(h0, b0, k),
        h1.len() == h0.len(),
        h1[b0[k + 1]].spec_released() == h0[b0[k + 1]].spec_released(),
        forall|x: int| 0 <= x < h0.len() && x != b0[k + 1] ==> #[trigger] h1[x] == h0[x],
    ensures
        keeps_live(h0, b0, h1, b0, -1),
{
    lemma_wf_facts(h0, b0, k);
    assert forall|i: int| 0 <= i < b0.len() - 1 && #[trigger] live_at(h0, b0, i) && b0[i] != -1 implies kept_block(h0, b0[i], b0[i + 1], h1, b0) by {
        lemma_wf_facts(h0, b0, i);
        assert(i != k);
        assert(b0[i + 1] != b0[k + 1]);
        assert(live_at(h1, b0, i));
        assert forall|x: int| b0[i] < x < b0[i + 1] implies #[trigger] h1[x] == h0[x] by {
            lemma_starts_apart(b0, i, k + 1, x);
        }
    }
}

/// Splitting free block `k` into a head of `rw` words and a splinter
/// keeps every live block.
proof fn lemma_keep_split(h0: Seq<AllocTag>, b0: Seq<int>, h1: Seq<AllocTag>, k: int, rw: int)
    requires
        heap_wf(h0, b0),
        0 <= k < b0.len() - 1,
        block_free(h0, b0, k),
        2 <= rw,
        b0[k] + rw + 2 <= b0[k + 1],
        h1.len() == h0.len(),
        h1[b0[k]].spec_free() == h0[b0[k]].spec_free(),
        h1[b0[k]].spec_released() == h0[b0[k]].spec_released(),
        forall|x: int|
            0 <= x < h0.len() && x != b0[k] && x != b0[k] + rw && x != b0[k + 1] - 1 ==> #[trigger] h1[x] == h0[x],
    ensures
        keeps_live(h0, b0, h1, b0.insert(k + 1, b0[k] + rw), -1),
{
    let b1 = b0.insert(k + 1, b0[k] + rw);
    lemma_wf_facts(h0, b0, k);
    assert forall|i: int| 0 <= i < b0.len() - 1 && #[trigger] live_at(h0, b0, i) && b0[i] != -1 implies kept_block(h0, b0[i], b0[i + 1], h1, b1) by {
        lemma_wf_facts(h0, b0, i);
        assert(i != k);
        let j = if i < k { i } else { i + 1 };
        assert(b1[j] == b0[i] && b1[j + 1] == b0[i + 1]);
        lemma_starts_apart(b0, k, i + 1, 0);
        lemma_starts_apart(b0, k, i, 0);
        assert(h1[b0[i + 1]].spec_free() == h0[b0[i + 1]].spec_free());
        assert(h1[b0[i]].spec_released() == h0[b0[i]].spec_released());
        assert(live_at(h1, b1, j));
        assert forall|x: int| b0[i] < x < b0[i + 1] implies #[trigger] h1[x] == h0[x] by {
            lemma_starts_apart(b0, i, k, x);
            lemma_starts_apart(b0, k, i, b0[k] + rw);
            lemma_starts_apart(b0, k, i, b0[k + 1] - 1);
        }
    }
}

/// Merging blocks `k2 ..= k2 + d` (the freed block `k` and free
/// neighbours) keeps every other live block.
proof fn lemma_keep_merge(h0: Seq<AllocTag>, b0: Seq<int>, h1: Seq<AllocTag>, b1: Seq<int>, k2: int, d: int, k: int)
    requires
        heap_wf(h0, b0),
        0 <= d <= 2,
        0 <= k2,
        k2 + 1 + d <= b0.len() - 1,
        merged_blocks(b0, b1, k2, d),
        k2 <= k <= k2 + d,
        forall|m: int| k2 <= m <= k2 + d && m != k ==> #[trigger] block_free(h0, b0, m),
        h1.len() == h0.len(),
        h1[b0[k2]].spec_free() == h0[b0[k2]].spec_free(),
        h1[b0[k2 + 1 + d]].spec_released() == h0[b0[k2 + 1 + d]].spec_released(),
        forall|x: int| 0 <= x < h0.len() && !(b0[k2] <= x <= b0[k2 + 1 + d]) ==> #[trigger] h1[x] == h0[x],
    ensures
        keeps_live(h0, b0, h1, b1, b0[k]),
{
    let s = b0[k2];
    let e = b0[k2 + 1 + d];
    assert forall|i: int| 0 <= i < b0.len() - 1 && #[trigger] live_at(h0, b0, i) && b0[i] != b0[k] implies kept_block(h0, b0[i], b0[i + 1], h1, b1) by {
        lemma_wf_facts(h0, b0, i);
        assert(i != k);
        if k2 <= i <= k2 + d {
            assert(block_free(h0, b0, i));
        }
        assert(i < k2 || i > k2 + d);
        let j = if i < k2 { i } else { i - d };
        assert(b1[j] == b0[i] && b1[j + 1] == b0[i + 1]);
        if i < k2 {
            assert(b0[i + 1] <= s);
            assert(b0[i] < s);
        } else {
            assert(b0[i] >= e);
            assert(b0[i + 1] > e);
        }
        assert(h1[b0[i + 1]].spec_free() == h0[b0[i + 1]].spec_free());
        assert(h1[b0[i]].spec_released() == h0[b0[i]].spec_released());
        assert(live_at(h1, b1, j));
    }
}

/// No block of `(h, b)` is released.
pub open spec fn no_released(h: Seq<AllocTag>, b: Seq<int>) -> bool {
    forall|i: int| 0 <= i < b.len() - 1 ==> !(#[trigger] h[b[i]]).spec_released()
}

/// `(h, b)` comes from `(h0, b0)` by freeing released blocks before
/// block `k` only: live blocks are kept, the block list from `k + 1` on is
/// the tail of `b0` and the heap after its first start is that of `h0`
/// (the tag there keeping its size and released bit), and when nothing
/// was released nothing changed.
pub open spec fn coalesced(h0: Seq<AllocTag>, b0: Seq<int>, h: Seq<AllocTag>, b: Seq<int>, k: int) -> bool {
    &&& h.len() == h0.len()
    &&& keeps_live(h0, b0, h, b, -1)
    &&& b.len() - (k + 1) <= b0.len()
    &&& b.subrange(k + 1, b.len() as int) == b0.subrange(b0.len() - (b.len() - (k + 1)), b0.len() as int)
    &&& forall|x: int| b[k + 1] < x < h0.len() ==> #[trigger] h[x] == h0[x]
    &&& h[b[k + 1]].spec_size() == h0[b[k + 1]].spec_size()
    &&& h[b[k + 1]].spec_released() == h0[b[k + 1]].spec_released()
    &&& no_released(h0, b0) ==> h == h0 && b == b0
}

/// Block `k` of `(h, b)` handed out for `rw` words gives `(h1, b1)`: when
/// at least `ALLOC_UNIT` words would remain it is cut to `rw` words and
/// the rest becomes a block of its own, with a plain tag and footer (its
/// successor's free bit stays set, so it is free); otherwise it is taken
/// whole and its successor's free bit is cleared. No other word changes.
pub open spec fn taken(h: Seq<AllocTag>, b: Seq<int>, k: int, rw: int, h1: Seq<AllocTag>, b1: Seq<int>) -> bool {
    let s = b[k];
    let sz = h[s].spec_size() as int;
    &&& h1.len() == h.len()
    &&& if sz - rw >= ALLOC_UNIT {
        &&& b1 == b.insert(k + 1, s + rw)
        &&& h1[s].spec_size() == rw
        &&& h1[s].spec_free() == h[s].spec_free()
        &&& h1[s].spec_released() == h[s].spec_released()
        &&& h1[s + rw] == plain_tag((sz - rw) as u32)
        &&& h1[s + sz - 1] == plain_tag((sz - rw) as u32)
        &&& forall|x: int| 0 <= x < h.len() && x != s && x != s + rw && x != s + sz - 1 ==> #[trigger] h1[x] == h[x]
    } else {
        &&& b1 == b
        &&& !h1[b[k + 1]].spec_free()
        &&& h1[b[k + 1]].spec_size() == h[b[k + 1]].spec_size()
        &&& h1[b[k + 1]].spec_released() == h[b[k + 1]].spec_released()
        &&& forall|x: int| 0 <= x < h.len() && x != b[k + 1] ==> #[trigger] h1[x] == h[x]
    }
}

/// An allocation of `request` bytes took `(h0, b0)` to `(h1, b1)` through
/// `(hm, bm)`: released blocks before the chosen block `k` were freed,
/// every block before `k` is settled, block `k` is the first free one that
/// fits, and it was taken for the rounded request.
pub open spec fn allocated_from(
    h0: Seq<AllocTag>,
    b0: Seq<int>,
    hm: Seq<AllocTag>,
    bm: Seq<int>,
    k: int,
    request: u32,
    h1: Seq<AllocTag>,
    b1: Seq<int>,
) -> bool {
    &&& heap_wf(hm, bm)
    &&& 0 <= k < bm.len() - 1
    &&& coalesced(h0, b0, hm, bm, k)
    &&& forall|j: int| 0 <= j < k ==> #[trigger] settled(hm, bm, j, request)
    &&& block_free(hm, bm, k)
    &&& !hm[bm[k]].spec_released()
    &&& fits(hm[bm[k]].spec_size(), request)
    &&& taken(hm, bm, k, spec_request_words(request), h1, b1)
}

/// Freeing block `k` of `(h, b)` merges it with its predecessor when
/// that is free (the free bit in block `k`'s tag) and with its successor
/// when that is free and not the sentinel: the starts of the absorbed
/// blocks leave the list.
pub open spec fn freed_blocks(h: Seq<AllocTag>, b: Seq<int>, k: int) -> Seq<int> {
    let pf = h[b[k]].spec_free();
    let nf = k + 2 < b.len() && block_free(h, b, k + 1);
    if pf && nf {
        b.remove(k + 1).remove(k)
    } else if pf {
        b.remove(k)
    } else if nf {
        b.remove(k + 1)
    } else {
        b
    }
}

/// Index of the free block that freeing block `k` leaves: the
/// predecessor's when it absorbed block `k`, else `k`.
pub open spec fn freed_index(h: Seq<AllocTag>, b: Seq<int>, k: int) -> int {
    if h[b[k]].spec_free() {
        k - 1
    } else {
        k
    }
}

/// The start state is coalesced from itself at every block.
proof fn lemma_coalesced_refl(h: Seq<AllocTag>, b: Seq<int>)
    requires
        heap_wf(h, b),
    ensures
        coalesced(h, b, h, b, 0),
{
    assert(b.len() >= 2) by {
        reveal(heap_wf);
    }
    lemma_wf_facts(h, b, 0);
    lemma_keep_refl(h, b, -1);
    assert(b.subrange(1, b.len() as int) =~= b.subrange(b.len() - (b.len() - 1), b.len() as int));
}

/// Passing over block `k` keeps the relation for block `k + 1`.
proof fn lemma_coalesced_advance(h0: Seq<AllocTag>, b0: Seq<int>, h: Seq<AllocTag>, b: Seq<int>, k: int)
    requires
        heap_wf(h, b),
        0 <= k,
        k + 1 < b.len() - 1,
        coalesced(h0, b0, h, b, k),
    ensures
        coalesced(h0, b0, h, b, k + 1),
{
    lemma_wf_facts(h, b, k);
    let n = b.len() as int;
    let m = b0.len() as int;
    let t = b.subrange(k + 1, n);
    let t0 = b0.subrange(m - (n - (k + 1)), m);
    assert(t == t0);
    assert(b.subrange(k + 2, n) =~= b0.subrange(m - (n - (k + 2)), m)) by {
        assert forall|i: int| 0 <= i < n - (k + 2) implies #[trigger] b.subrange(k + 2, n)[i] == b0.subrange(m - (n - (k + 2)), m)[i] by {
            assert(t[i + 1] == t0[i + 1]);
        }
    }
    assert forall|x: int| b[k + 2] < x < h0.len() implies #[trigger] h[x] == h0[x] by {
        assert(b[k + 1] < b[k + 2]);
    }
    assert(h[b[k + 2]] == h0[b[k + 2]]);
}

/// Freeing the released block `k` keeps the relation, for the block the
/// free leaves.
proof fn lemma_coalesced_free(
    h0: Seq<AllocTag>,
    b0: Seq<int>,
    h: Seq<AllocTag>,
    b: Seq<int>,
    k: int,
    h1: Seq<AllocTag>,
    b1: Seq<int>,
)
    requires
        heap_wf(h0, b0),
        heap_wf(h, b),
        heap_wf(h1, b1),
        0 <= k < b.len() - 1,
        coalesced(h0, b0, h, b, k),
        h[b[k]].spec_released(),
        keeps_live(h, b, h1, b1, b[k]),
        h1.len() == h.len(),
        b1 == freed_blocks(h, b, k),
        0 <= freed_index(h, b, k) < b1.len() - 1,
        forall|x: int|
            0 <= x < h.len() && !(b1[freed_index(h, b, k)] <= x <= b1[freed_index(h, b, k) + 1]) ==> #[trigger] h1[x] == h[x],
        h1[b1[freed_index(h, b, k) + 1]].spec_size() == h[b1[freed_index(h, b, k) + 1]].spec_size(),
        h1[b1[freed_index(h, b, k) + 1]].spec_released() == h[b1[freed_index(h, b, k) + 1]].spec_released(),
    ensures
        coalesced(h0, b0, h1, b1, freed_index(h, b, k)),
{
    lemma_wf_facts(h, b, k);
    let k2 = freed_index(h, b, k);
    let pf = h[b[k]].spec_free();
    let nf = k + 2 < b.len() && block_free(h, b, k + 1);
    let c = if nf { k + 2 } else { k + 1 };
    let n = b.len() as int;
    let n1 = b1.len() as int;
    let m = b0.len() as int;
    assert(n1 - (k2 + 1) == n - c);
    assert(b1.subrange(k2 + 1, n1) =~= b.subrange(c, n));
    let t = b.subrange(k + 1, n);
    let t0 = b0.subrange(m - (n - (k + 1)), m);
    assert(t == t0);
    assert(b.subrange(c, n) =~= b0.subrange(m - (n - c), m)) by {
        assert forall|i: int| 0 <= i < n - c implies #[trigger] b.subrange(c, n)[i] == b0.subrange(m - (n - c), m)[i] by {
            assert(t[i + c - (k + 1)] == t0[i + c - (k + 1)]);
        }
    }
    assert(b1[k2 + 1] == b[c]);
    if c == k + 2 {
        assert(b[k + 1] < b[k + 2]);
    }
    assert forall|x: int| b1[k2 + 1] < x < h0.len() implies #[trigger] h1[x] == h0[x] by {
        assert(h1[x] == h[x]);
        assert(h[x] == h0[x]);
    }
    if c == k + 2 {
        assert(h[b[k + 2]] == h0[b[k + 2]]);
    }
    lemma_keep_trans(h0, b0, h, b, h1, b1, -1);
}

/// Cutting free block `k` to `rw` words as `allocate` does is `taken`.
proof fn lemma_taken_split(h: Seq<AllocTag>, b: Seq<int>, k: int, rw: int, h1: Seq<AllocTag>, t: AllocTag)
    requires
        heap_wf(h, b),
        0 <= k < b.len() - 1,
        rw >= ALLOC_UNIT,
        h[b[k]].spec_size() - rw >= ALLOC_UNIT,
        t.spec_size() == rw,
        t.spec_free() == h[b[k]].spec_free(),
        t.spec_released() == h[b[k]].spec_released(),
        h1 == h.update(b[k] + rw, plain_tag((h[b[k]].spec_size() - rw) as u32)).update(
            b[k] + h[b[k]].spec_size() - 1,
            plain_tag((h[b[k]].spec_size() - rw) as u32),
        ).update(b[k], t),
    ensures
        taken(h, b, k, rw, h1, b.insert(k + 1, b[k] + rw)),
{
    lemma_wf_facts(h, b, k);
}

/// Taking free block `k` whole as `allocate` does is `taken`.
proof fn lemma_taken_whole(h: Seq<AllocTag>, b: Seq<int>, k: int, rw: int, h1: Seq<AllocTag>, t: AllocTag)
    requires
        heap_wf(h, b),
        0 <= k < b.len() - 1,
        h[b[k]].spec_size() - rw < ALLOC_UNIT,
        !t.spec_free(),
        t.spec_size() == h[b[k + 1]].spec_size(),
        t.spec_released() == h[b[k + 1]].spec_released(),
        h1 == h.update(b[k + 1], t),
    ensures
        taken(h, b, k, rw, h1, b),
{
    lemma_wf_facts(h, b, k);
}

/// Allocating from a fresh heap and freeing that block again gives back
/// the single initial block: the block list of the fresh heap, its first
/// tag spanning the whole heap.
pub proof fn law_alloc_free_restores(
    h0: Seq<AllocTag>,
    b0: Seq<int>,
    hm: Seq<AllocTag>,
    bm: Seq<int>,
    k: int,
    request: u32,
    h1: Seq<AllocTag>,
    b1: Seq<int>,
    h2: Seq<AllocTag>,
    b2: Seq<int>,
)
    requires
        heap_wf(h0, b0),
        b0 == seq![ALLOC_UNIT - 1, h0.len() - 1],
        !h0[ALLOC_UNIT - 1].spec_released(),
        allocated_from(h0, b0, hm, bm, k, request, h1, b1),
        heap_wf(h1, b1),
        heap_wf(h2, b2),
        b2 == freed_blocks(h1, b1, k),
    ensures
        b2 == b0,
        h2[ALLOC_UNIT - 1].spec_size() == h0.len() - ALLOC_UNIT,
{
    lemma_wf_facts(h0, b0, 0);
    assert(no_released(h0, b0));
    assert(hm == h0 && bm == b0);
    assert(k == 0);
    let n = h0.len() as int;
    let sz = h0[ALLOC_UNIT - 1].spec_size() as int;
    let rw = spec_request_words(request);
    assert(sz == n - ALLOC_UNIT);
    if sz - rw >= ALLOC_UNIT {
        assert(b1 == b0.insert(1, ALLOC_UNIT - 1 + rw));
        assert(h1[ALLOC_UNIT - 1].spec_free() == h0[ALLOC_UNIT - 1].spec_free());
        assert(b1[2] == n - 1);
        assert(h1[n - 1] == h0[n - 1]);
        assert(block_free(h1, b1, 1));
        assert(b2 =~= b0);
    } else {
        assert(b1 == b0);
        assert(h1[ALLOC_UNIT - 1] == h0[ALLOC_UNIT - 1]);
        assert(b2 =~= b0);
    }
    lemma_wf_facts(h2, b2, 0);
}

/// The allocator.
pub struct Allocator {
    /// The tag words.
    pub heap: Vec<AllocTag>,
    /// Start of every block, sentinel last.
    pub blocks: Ghost<Seq<int>>,
}

impl Allocator {
    pub open spec fn wf(&self) -> bool {
        heap_wf(self.heap@, self.blocks@)
    }

    /// Set up one free block spanning the heap, which holds at least
    /// `ALLOC_UNIT + 1` tags; the first block starts at `ALLOC_UNIT - 1`.
    /// A heap of exactly `ALLOC_UNIT + 1` tags is laid out the same way but
    /// has no room to allocate from, so it is well formed only when larger.
    pub fn init(heap: Vec<AllocTag>) -> (r: Self)
        requires
            ALLOC_UNIT + 1 <= heap@.len() < 0x4000_0000,
        ensures
            heap@.len() > ALLOC_UNIT + 1 ==> r.wf(),
            r.heap@.len() == heap@.len(),
            r.blocks@ == seq![ALLOC_UNIT - 1, heap@.len() - 1],
            r.heap@[ALLOC_UNIT - 1].spec_size() == heap@.len() - ALLOC_UNIT,
            !r.heap@[ALLOC_UNIT - 1].spec_free(),
            !r.heap@[ALLOC_UNIT - 1].spec_released(),
            r.heap@[heap@.len() - 1].spec_size() == 0,
            r.heap@[heap@.len() - 1].spec_free(),
            !r.heap@[heap@.len() - 1].spec_released(),
    {
        let mut heap = heap;
        let heap_size = heap.len() as u32;
        let first = ALLOC_UNIT - 1;
        let t0 = AllocTag(0).with_size(heap_size - ALLOC_UNIT).with_free(false).with_released(false);
        heap.set(first as usize, t0);
        let last = heap_size - 1;
        let t1 = AllocTag(0).with_size(0).with_free(true).with_released(false);
        heap.set(last as usize, t1);
        let ghost b = seq![first as int, last as int];
        let r = Allocator { heap, blocks: Ghost(b) };
        proof {
            reveal(heap_wf);
            assert(r.heap@[r.blocks@[0]] == t0);
            assert(r.heap@[r.blocks@[1]] == t1);
        }
        r
    }

    /// Free the block whose data starts at `data_offset` (block `k`),
    /// merging it with a free successor and a free predecessor; returns
    /// the start of the resulting free block.
    #[verifier::rlimit(100)]
    #[verifier::spinoff_prover]
    fn free_at(&mut self, data_offset: usize, Ghost(k): Ghost<int>) -> (r: usize)
        requires
            old(self).wf(),
            0 <= k < old(self).blocks@.len() - 1,
            data_offset == old(self).blocks@[k] + 1,
        ensures
            final(self).wf(),
            final(self).heap@.len() == old(self).heap@.len(),
            exists|k2: int| {
                &&& k - 1 <= k2 <= k
                &&& 0 <= k2 < final(self).blocks@.len() - 1
                &&& #[trigger] final(self).blocks@[k2] == r
                &&& r == old(self).blocks@[k2]
                &&& final(self).blocks@[k2 + 1] > old(self).blocks@[k]
                &&& block_free(final(self).heap@, final(self).blocks@, k2)
                &&& forall|j: int|
                    0 <= j < k2 ==> #[trigger] final(self).blocks@[j] == old(self).blocks@[j] && final(self).heap@[old(self).blocks@[j]]
                        == old(self).heap@[old(self).blocks@[j]]
            },
            final(self).heap@[r as int].spec_free() == old(self).heap@[r as int].spec_free(),
            final(self).blocks@.len() < old(self).blocks@.len() || (final(self).blocks@.len() == old(self).blocks@.len() && r
                == old(self).blocks@[k] && !final(self).heap@[r as int].spec_released()),
            keeps_live(old(self).heap@, old(self).blocks@, final(self).heap@, final(self).blocks@, old(self).blocks@[k]),
            final(self).blocks@ == freed_blocks(old(self).heap@, old(self).blocks@, k),
            r == old(self).blocks@[freed_index(old(self).heap@, old(self).blocks@, k)],
            block_free(final(self).heap@, final(self).blocks@, freed_index(old(self).heap@, old(self).blocks@, k)),
            forall|x: int|
                0 <= x < old(self).heap@.len() && !(final(self).blocks@[freed_index(old(self).heap@, old(self).blocks@, k)] <= x
                    <= final(self).blocks@[freed_index(old(self).heap@, old(self).blocks@, k) + 1]) ==> #[trigger] final(self).heap@[x]
                    == old(self).heap@[x],
            final(self).heap@[final(self).blocks@[freed_index(old(self).heap@, old(self).blocks@, k) + 1]].spec_size()
                == old(self).heap@[final(self).blocks@[freed_index(old(self).heap@, old(self).blocks@, k) + 1]].spec_size(),
            final(self).heap@[final(self).blocks@[freed_index(old(self).heap@, old(self).blocks@, k) + 1]].spec_released()
                == old(self).heap@[final(self).blocks@[freed_index(old(self).heap@, old(self).blocks@, k) + 1]].spec_released(),
    {
        let ghost h0 = self.heap@;
        let ghost b0 = self.blocks@;
        let ghost n0 = b0.len() as int;
        proof {
            lemma_wf_facts(h0, b0, k);
        }
        let tag_idx = data_offset - 1;
        let mut tag = self.heap[tag_idx];
        tag = tag.with_released(false);
        self.heap.set(tag_idx, tag);
        let tag_size = tag.size() as usize;
        let next_idx = tag_idx + tag_size;
        let next_tag = self.heap[next_idx];
        let ghost mut d: int = 0;
        let ghost mut k2: int = k;
        if next_tag.size() != 0 {
            proof {
                if k + 1 == n0 - 1 {
                    assert(false);
                }
                assert(b0[k + 1] + h0[b0[k + 1]].spec_size() == b0[k + 2]);
                assert(b0[k + 2] <= b0[n0 - 1]);
            }
            let next_next_idx = next_idx + next_tag.size() as usize;
            if next_next_idx < self.heap.len() && self.heap[next_next_idx].free() {
                let new_size = tag_size + next_tag.size() as usize;
                let t = self.heap[tag_idx].with_size(new_size as u32);
                self.heap.set(tag_idx, t);
                proof {
                    assert(block_free(h0, b0, k + 1));
                    d = 1;
                }
            }
        }
        let mut final_idx = tag_idx;
        if self.heap[tag_idx].free() {
            proof {
                if k == 0 {
                    assert(false);
                }
                assert(h0[b0[k]].spec_free());
                assert(h0[b0[k] - 1].spec_size() == b0[k] - b0[k - 1]);
                assert(b0[0] <= b0[k - 1]);
            }
            let prev_end_idx = tag_idx - 1;
            let prev_size = self.heap[prev_end_idx].size() as usize;
            let prev_idx = tag_idx - prev_size;
            let new_size = prev_size + self.heap[tag_idx].size() as usize;
            let t = self.heap[prev_idx].with_size(new_size as u32);
            self.heap.set(prev_idx, t);
            final_idx = prev_idx;
            proof {
                assert(block_free(h0, b0, k - 1));
                d = d + 1;
                k2 = k - 1;
            }
        }
        let final_tag = self.heap[final_idx];
        let final_size = final_tag.size() as usize;
        let ghost s = b0[k2];
        let ghost e = b0[k2 + 1 + d];
        proof {
            assert(final_idx == s);
            assert(final_idx + final_size == e);
            assert(s < b0[k] + 1 <= e) by {
                assert(b0[k2] <= b0[k]);
            }
            assert(forall|x: int| 0 <= x < h0.len() && !(s <= x <= e) ==> #[trigger] self.heap@[x] == h0[x]);
            assert(self.heap@[e] == h0[e]);
            assert(e - s >= 2);
        }
        let ghost hm = self.heap@;
        if final_idx + final_size - 1 < self.heap.len() {
            let ft = AllocTag(0).with_size(final_size as u32);
            proof {
                let fs = final_size as u32;
                lemma_tag_bits(0, 0, fs);
                assert(ft == plain_tag(fs));
            }
            self.heap.set(final_idx + final_size - 1, ft);
        }
        proof {
            assert(self.heap@[e] == h0[e]);
        }
        if final_idx + final_size < self.heap.len() {
            let t = self.heap[final_idx + final_size].with_free(true);
            self.heap.set(final_idx + final_size, t);
        }
        proof {
            assert(self.heap@[e].spec_size() == h0[e].spec_size());
            assert(self.heap@[e].spec_released() == h0[e].spec_released());
        }
        proof {
            assert(forall|x: int| 0 <= x < h0.len() && !(s <= x <= e) ==> #[trigger] self.heap@[x] == hm[x]);
            assert(self.heap@[s] == hm[s]);
        }
        let ghost b1 = if d == 0 {
            b0
        } else if d == 1 && k2 == k {
            b0.remove(k + 1)
        } else if d == 1 {
            b0.remove(k)
        } else {
            b0.remove(k + 1).remove(k)
        };
        proof {
            assert(merged_blocks(b0, b1, k2, d));
            lemma_merge_free(h0, b0, self.heap@, b1, k2, d);
            assert(self.heap@[e].spec_released() == h0[e].spec_released());
            assert forall|m: int| k2 <= m <= k2 + d && m != k implies #[trigger] block_free(h0, b0, m) by {}
            lemma_keep_merge(h0, b0, self.heap@, b1, k2, d, k);
        }
        self.blocks = Ghost(b1);
        proof {
            assert(self.blocks@[k2] == final_idx);
            assert(self.blocks@[k2 + 1] == e);
            assert(b0[k + 1] <= e);
            assert forall|j: int| 0 <= j < k2 implies #[trigger] self.blocks@[j] == b0[j] && self.heap@[b0[j]] == h0[b0[j]] by {
                assert(b0[j] < b0[k2]);
            }
        }
        final_idx
    }

    /// Allocate `request` bytes from the first free block that holds
    /// them, freeing released blocks met on the way and splitting off the
    /// rest of the block when at least `ALLOC_UNIT` words remain.
    #[verifier::spinoff_prover]
    #[verifier::rlimit(90)]
    pub fn allocate(&mut self, request: u32) -> (r: Option<AllocBlock>)
        requires
            old(self).wf(),
            request <= 0xFFFF_FFFB,
        ensures
            final(self).wf(),
            final(self).heap@.len() == old(self).heap@.len(),
            match r {
                Some(blk) => exists|k: int| {
                    &&& 0 <= k < final(self).blocks@.len() - 1
                    &&& #[trigger] final(self).blocks@[k] == blk.offset - 1
                    &&& !block_free(final(self).heap@, final(self).blocks@, k)
                    &&& !final(self).heap@[blk.offset - 1].spec_released()
                    &&& blk.size == (final(self).heap@[blk.offset - 1].spec_size() - 1) * TAG_BYTES
                    &&& blk.size >= request
                    &&& final(self).heap@[blk.offset - 1].spec_size() >= spec_request_words(request)
                    &&& forall|j: int| 0 <= j < k ==> #[trigger] settled(final(self).heap@, final(self).blocks@, j, request)
                    &&& forall|i: int|
                        0 <= i < old(self).blocks@.len() - 1 && #[trigger] live_at(old(self).heap@, old(self).blocks@, i)
                            ==> old(self).blocks@[i + 1] <= final(self).blocks@[k] || final(self).blocks@[k + 1] <= old(self).blocks@[i]
                },
                None => forall|j: int|
                    0 <= j < final(self).blocks@.len() - 1 ==> #[trigger] settled(final(self).heap@, final(self).blocks@, j, request),
            },
            keeps_live(old(self).heap@, old(self).blocks@, final(self).heap@, final(self).blocks@, -1),
            r matches Some(blk) ==> exists|k: int, hm: Seq<AllocTag>, bm: Seq<int>|
                #[trigger] allocated_from(old(self).heap@, old(self).blocks@, hm, bm, k, request, final(self).heap@, final(self).blocks@)
                    && bm[k] == blk.offset - 1,
    {
        let w = words(request);
        proof {
            assert(w <= 0x4000_0000);
        }
        let request_units = units(w);
        let request_words = request_units * ALLOC_UNIT;
        proof {
            assert(request_words as int == spec_request_words(request));
            let rq = request as int;
            let ww = w as int;
            let uu = request_units as int;
            assert(ww * 4 >= rq + 1) by (nonlinear_arith)
                requires
                    ww == (rq + 4) / 4,
                    rq >= 0,
            ;
            assert(uu * 8 >= ww + 1) by (nonlinear_arith)
                requires
                    uu == (ww + 8) / 8,
                    ww >= 0,
            ;
        }
        let mut tag_idx: usize = (ALLOC_UNIT - 1) as usize;
        let ghost mut k: int = 0;
        proof {
            assert(self.blocks@.len() >= 2) by {
                reveal(heap_wf);
            }
            lemma_wf_facts(self.heap@, self.blocks@, 0);
            lemma_keep_refl(self.heap@, self.blocks@, -1);
            lemma_coalesced_refl(self.heap@, self.blocks@);
        }
        loop
            invariant
                self.wf(),
                old(self).wf(),
                coalesced(old(self).heap@, old(self).blocks@, self.heap@, self.blocks@, k),
                keeps_live(old(self).heap@, old(self).blocks@, self.heap@, self.blocks@, -1),
                self.heap@.len() == old(self).heap@.len(),
                0 <= k < self.blocks@.len() - 1,
                tag_idx == self.blocks@[k],
                request_words == spec_request_words(request),
                request <= 0xFFFF_FFFB,
                (request_words - 1) * 4 >= request,
                request_words >= 8,
                forall|j: int| 0 <= j < k ==> #[trigger] settled(self.heap@, self.blocks@, j, request),
            decreases self.blocks@.len(), self.heap@.len() - tag_idx, if self.heap@[tag_idx as int].spec_released() {
                1int
            } else {
                0int
            },
        {
            let ghost h0 = self.heap@;
            let ghost b0 = self.blocks@;
            proof {
                lemma_wf_facts(h0, b0, k);
            }
            let tag = self.heap[tag_idx];
            if tag.released() {
                let r = self.free_at(tag_idx + 1, Ghost(k));
                proof {
                    let k2 = choose|k2: int|
                        {
                            &&& k - 1 <= k2 <= k
                            &&& 0 <= k2 < self.blocks@.len() - 1
                            &&& #[trigger] self.blocks@[k2] == r
                            &&& r == b0[k2]
                            &&& self.blocks@[k2 + 1] > b0[k]
                            &&& block_free(self.heap@, self.blocks@, k2)
                            &&& forall|j: int|
                                0 <= j < k2 ==> #[trigger] self.blocks@[j] == b0[j] && self.heap@[b0[j]] == h0[b0[j]]
                        };
                    assert forall|j: int| 0 <= j < k2 implies #[trigger] settled(self.heap@, self.blocks@, j, request) by {
                        assert(settled(h0, b0, j, request));
                        assert(self.blocks@[j] == b0[j]);
                        if j + 1 < k2 {
                            assert(self.blocks@[j + 1] == b0[j + 1]);
                            assert(self.heap@[b0[j + 1]] == h0[b0[j + 1]]);
                        } else {
                            assert(self.blocks@[j + 1] == r);
                        }
                    }
                    lemma_keep_drop_ex(h0, b0, self.heap@, self.blocks@, k);
                    lemma_keep_trans(old(self).heap@, old(self).blocks@, h0, b0, self.heap@, self.blocks@, -1);
                    assert(k2 == freed_index(h0, b0, k)) by {
                        let fi = freed_index(h0, b0, k);
                        if k2 < fi {
                            assert(b0[k2] < b0[fi]);
                        } else if fi < k2 {
                            assert(b0[fi] < b0[k2]);
                        }
                    }
                    lemma_coalesced_free(old(self).heap@, old(self).blocks@, h0, b0, k, self.heap@, self.blocks@);
                    k = k2;
                }
                tag_idx = r;
                continue;
            }
            let next_idx = tag_idx + tag.size() as usize;
            if next_idx >= self.heap.len() {
                return None;
            }
            let next_free = self.heap[next_idx].free();
            let tag_size = tag.size();
            if !next_free || (tag_size as usize - 1) * TAG_BYTES < request as usize || tag_size < request_words {
                proof {
                    assert(settled(h0, b0, k, request));
                }
                tag_idx = next_idx;
                proof {
                    k = k + 1;
                }
                if self.heap[tag_idx].size() == 0 {
                    proof {
                        if k < b0.len() - 1 {
                            assert(h0[b0[k]].spec_size() >= 2);
                        }
                    }
                    return None;
                }
                proof {
                    if k == b0.len() - 1 {
                        assert(false);
                    }
                    lemma_coalesced_advance(old(self).heap@, old(self).blocks@, h0, b0, k - 1);
                }
                continue;
            }
            let splinter_idx = tag_idx + request_words as usize;
            if tag_size - request_words >= ALLOC_UNIT {
                let splinter_size = tag_size - request_words;
                let st = AllocTag(0).with_size(splinter_size).with_free(false).with_released(false);
                let ft = AllocTag(0).with_size(splinter_size);
                proof {
                    let x = splinter_size;
                    lemma_tag_bits(0, 0, x);
                    lemma_plain_tag(x);
                    lemma_tag_bits(st.0, 0, x);
                    assert(st == plain_tag(x));
                    assert(ft == plain_tag(x));
                }
                self.heap.set(splinter_idx, st);
                let splinter_end = tag_idx + tag_size as usize - 1;
                self.heap.set(splinter_end, ft);
                let t = self.heap[tag_idx].with_size(request_words);
                self.heap.set(tag_idx, t);
                proof {
                    lemma_taken_split(h0, b0, k, request_words as int, self.heap@, t);
                    lemma_split(h0, b0, self.heap@, k, request_words as int);
                    lemma_keep_split(h0, b0, self.heap@, k, request_words as int);
                    lemma_keep_trans(
                        old(self).heap@,
                        old(self).blocks@,
                        h0,
                        b0,
                        self.heap@,
                        b0.insert(k + 1, b0[k] + request_words),
                        -1,
                    );
                }
                self.blocks = Ghost(b0.insert(k + 1, b0[k] + request_words));
                proof {
                    assert forall|j: int| 0 <= j < k implies #[trigger] settled(self.heap@, self.blocks@, j, request) by {
                        assert(settled(h0, b0, j, request));
                        assert(b0[j] < b0[k]);
                        assert(self.heap@[b0[j]] == h0[b0[j]]);
                        if j + 1 < k {
                            assert(b0[j + 1] < b0[k]);
                            assert(self.heap@[b0[j + 1]] == h0[b0[j + 1]]);
                        }
                    }
                }
            } else {
                let t = self.heap[next_idx].with_free(false);
                self.heap.set(next_idx, t);
                proof {
                    lemma_taken_whole(h0, b0, k, request_words as int, self.heap@, t);
                    lemma_take_whole(h0, b0, self.heap@, k);
                    lemma_keep_take_whole(h0, b0, self.heap@, k);
                    lemma_keep_trans(old(self).heap@, old(self).blocks@, h0, b0, self.heap@, self.blocks@, -1);
                    assert forall|j: int| 0 <= j < k implies #[trigger] settled(self.heap@, self.blocks@, j, request) by {
                        assert(settled(h0, b0, j, request));
                        assert(b0[j] < b0[k]);
                        assert(b0[j + 1] <= b0[k]);
                    }
                }
            }
            let data_offset = tag_idx + 1;
            let usable_size = (self.heap[tag_idx].size() as usize - 1) * TAG_BYTES;
            proof {
                assert(self.blocks@[k] == tag_idx);
                assert(!block_free(self.heap@, self.blocks@, k));
                assert(!self.heap@[tag_idx as int].spec_released());
                assert(usable_size >= request);
                assert forall|i: int|
                    0 <= i < old(self).blocks@.len() - 1 && #[trigger] live_at(old(self).heap@, old(self).blocks@, i)
                        implies old(self).blocks@[i + 1] <= self.blocks@[k] || self.blocks@[k + 1] <= old(self).blocks@[i] by {
                    lemma_wf_facts(old(self).heap@, old(self).blocks@, i);
                    assert(kept_block(old(self).heap@, old(self).blocks@[i], old(self).blocks@[i + 1], h0, b0));
                    let j0 = choose|j: int|
                        0 <= j < b0.len() - 1 && b0[j] == old(self).blocks@[i] && b0[j + 1] == old(self).blocks@[i + 1]
                            && #[trigger] live_at(h0, b0, j);
                    assert(j0 != k);
                    lemma_wf_facts(h0, b0, j0);
                    assert(b0[j0] != b0[k]);
                    assert(kept_block(old(self).heap@, old(self).blocks@[i], old(self).blocks@[i + 1], self.heap@, self.blocks@));
                    let j = choose|j: int|
                        0 <= j < self.blocks@.len() - 1 && self.blocks@[j] == old(self).blocks@[i] && self.blocks@[j + 1]
                            == old(self).blocks@[i + 1] && #[trigger] live_at(self.heap@, self.blocks@, j);
                    assert(j != k);
                    law_blocks_disjoint(self.heap@, self.blocks@, j, k);
                }
            }
            proof {
                assert(allocated_from(old(self).heap@, old(self).blocks@, h0, b0, k, request, self.heap@, self.blocks@));
            }
            return Some(AllocBlock { offset: data_offset, size: usable_size });
        }
    }

    /// Free the block allocated at `data_offset`.
    pub fn free(&mut self, data_offset: usize)
        requires
            old(self).wf(),
            exists|k: int| 0 <= k < old(self).blocks@.len() - 1 && #[trigger] old(self).blocks@[k] == data_offset - 1,
        ensures
            final(self).wf(),
            final(self).heap@.len() == old(self).heap@.len(),
            exists|k2: int|
                0 <= k2 < final(self).blocks@.len() - 1 && #[trigger] final(self).blocks@[k2] <= data_offset - 1 < final(self).blocks@[k2
                    + 1] && block_free(final(self).heap@, final(self).blocks@, k2),
            keeps_live(old(self).heap@, old(self).blocks@, final(self).heap@, final(self).blocks@, data_offset - 1),
            forall|k: int|
                0 <= k < old(self).blocks@.len() - 1 && #[trigger] old(self).blocks@[k] == data_offset - 1 ==> {
                    let i = freed_index(old(self).heap@, old(self).blocks@, k);
                    &&& final(self).blocks@ == freed_blocks(old(self).heap@, old(self).blocks@, k)
                    &&& block_free(final(self).heap@, final(self).blocks@, i)
                    &&& forall|x: int|
                        0 <= x < old(self).heap@.len() && !(final(self).blocks@[i] <= x <= final(self).blocks@[i + 1])
                            ==> #[trigger] final(self).heap@[x] == old(self).heap@[x]
                },
    {
        let ghost k = choose|k: int| 0 <= k < old(self).blocks@.len() - 1 && #[trigger] old(self).blocks@[k] == data_offset - 1;
        let ghost b0 = self.blocks@;
        let ghost h0 = self.heap@;
        proof {
            lemma_wf_facts(h0, b0, k);
        }
        let r = self.free_at(data_offset, Ghost(k));
        proof {
            let k2 = choose|k2: int|
                {
                    &&& k - 1 <= k2 <= k
                    &&& 0 <= k2 < self.blocks@.len() - 1
                    &&& #[trigger] self.blocks@[k2] == r
                    &&& r == b0[k2]
                    &&& self.blocks@[k2 + 1] > b0[k]
                    &&& block_free(self.heap@, self.blocks@, k2)
                    &&& forall|j: int| 0 <= j < k2 ==> #[trigger] self.blocks@[j] == b0[j] && self.heap@[b0[j]] == h0[b0[j]]
                };
            assert(b0[k2] <= b0[k]);
            assert forall|k1: int| 0 <= k1 < b0.len() - 1 && #[trigger] b0[k1] == data_offset - 1 implies k1 == k by {
                if k1 < k {
                    assert(b0[k1] < b0[k]);
                } else if k1 > k {
                    assert(b0[k] < b0[k1]);
                }
            }
        }
    }

    /// Mark the block allocated at `data_offset` for a deferred free,
    /// carried out by a later allocation.
    pub fn release(&mut self, data_offset: usize)
        requires
            old(self).wf(),
            exists|k: int| 0 <= k < old(self).blocks@.len() - 1 && #[trigger] old(self).blocks@[k] == data_offset - 1,
        ensures
            final(self).wf(),
            final(self).blocks@ == old(self).blocks@,
            final(self).heap@ == old(self).heap@.update(
                data_offset - 1,
                AllocTag(
                    (old(self).heap@[data_offset - 1].0 & !2u32) | 2u32,
                ),
            ),
            final(self).heap@[data_offset - 1].spec_released(),
            keeps_live(old(self).heap@, old(self).blocks@, final(self).heap@, final(self).blocks@, data_offset - 1),
    {
        proof {
            let k = choose|k: int| 0 <= k < old(self).blocks@.len() - 1 && #[trigger] old(self).blocks@[k] == data_offset - 1;
            lemma_wf_facts(self.heap@, self.blocks@, k);
        }
        let tag_idx = data_offset - 1;
        let t = self.heap[tag_idx].with_released(true);
        proof {
            crate::bits::lemma_const_shifts();
        }
        self.heap.set(tag_idx, t);
        proof {
            reveal(heap_wf);
            let h = self.heap@;
            let b = self.blocks@;
            assert forall|i: int| 0 <= i < b.len() - 1 implies b[i] + #[trigger] h[b[i]].spec_size() == b[i + 1] && h[b[i]].spec_size() >= 2 by {
                assert(b[i] + old(self).heap@[b[i]].spec_size() == b[i + 1]);
            }
            assert forall|i: int| 0 < i < b.len() - 1 && #[trigger] h[b[i]].spec_free() implies h[b[i] - 1].spec_size() == b[i] - b[i - 1] by {
                assert(old(self).heap@[b[i]].spec_free());
            }
        }
        proof {
            let h0 = old(self).heap@;
            let b = self.blocks@;
            let k = choose|k: int| 0 <= k < b.len() - 1 && #[trigger] b[k] == data_offset - 1;
            assert forall|i: int| 0 <= i < b.len() - 1 && #[trigger] live_at(h0, b, i) && b[i] != data_offset - 1 implies kept_block(
                h0,
                b[i],
                b[i + 1],
                self.heap@,
                b,
            ) by {
                lemma_wf_facts(h0, b, i);
                assert(self.heap@[b[i]] == h0[b[i]]);
                assert(self.heap@[b[i + 1]].spec_free() == h0[b[i + 1]].spec_free());
                assert(live_at(self.heap@, b, i));
                assert forall|x: int| b[i] < x < b[i + 1] implies #[trigger] self.heap@[x] == h0[x] by {
                    lemma_starts_apart(b, i, k, x);
                }
            }
        }
    }
}


impl Default for AllocTag {
    fn default() -> (r: Self)
        ensures
            r.0 == 0,
    {
        AllocTag(0)
    }
}

impl Default for AllocBlock {
    fn default() -> (r: Self)
        ensures
            r.offset == 0,
            r.size == 0,
    {
        AllocBlock { offset: 0, size: 0 }
    }
}

} // verus!
