//! Per-CPU interrupts (the first sixteen). Each has a pending bit, a
//! global-enable bit and a local-enable bit; it is deliverable when all
//! three are set.

use vstd::prelude::*;
use crate::bits::{bit16, is_lowest16, lemma_trailing_zeros16, lemma_lowest16_unique};
use crate::types::consts::PERCPU_INTERRUPTS;

verus! {

/// Per-CPU interrupt state.
#[derive(Clone, Copy, Debug, Default)]
pub struct CpuIntState {
    pub pending: u16,
    pub enabled: u16,
    pub local_en: u16,
}

/// The mask of interrupt `intno`.
pub open spec fn mask16(intno: u32) -> u16 {
    1u16 << (intno as u16)
}

impl CpuIntState {
    /// Interrupts that are pending, enabled and locally enabled.
    pub open spec fn deliverable(self) -> u16 {
        self.pending & self.enabled & self.local_en
    }

    /// Interrupts that are pending and enabled.
    pub open spec fn visible(self) -> u16 {
        self.enabled & self.pending
    }

    /// `r` is the lowest set bit of `v`, or -1 when `v` is zero.
    pub open spec fn lowest_or_none(v: u16, r: i32) -> bool {
        if v == 0 {
            r == -1
        } else {
            is_lowest16(v, r as int)
        }
    }

    /// Effect of `post` on the state and its result.
    pub open spec fn posts(before: Self, after: Self, intno: u32, r: bool) -> bool {
        &&& (intno >= PERCPU_INTERRUPTS ==> after == before && !r)
        &&& (intno < PERCPU_INTERRUPTS ==> {
                &&& after.pending == before.pending | mask16(intno)
                &&& after.enabled == before.enabled | mask16(intno)
                &&& after.local_en == before.local_en
                &&& r == (after.deliverable() != 0)
            })
    }

    /// Effect of `clear` on the state and its result.
    pub open spec fn clears(before: Self, after: Self, intno: u32, r: bool) -> bool {
        &&& (intno >= PERCPU_INTERRUPTS ==> after == before && !r)
        &&& (intno < PERCPU_INTERRUPTS ==> {
                &&& after.pending == before.pending & !mask16(intno)
                &&& after.enabled == before.enabled
                &&& after.local_en == before.local_en
                &&& r == (before.pending & mask16(intno) != 0)
            })
    }

    /// Effect of `enable` on the state and its result.
    pub open spec fn enables(before: Self, after: Self, intno: u32, r: bool) -> bool {
        &&& (intno >= PERCPU_INTERRUPTS ==> after == before && !r)
        &&& (intno < PERCPU_INTERRUPTS ==> {
                &&& after.pending == before.pending
                &&& after.enabled == before.enabled | mask16(intno)
                &&& after.local_en == before.local_en
                &&& r == (after.deliverable() & mask16(intno) != 0)
            })
    }

    /// Effect of `disable` on the state.
    pub open spec fn disables(before: Self, after: Self, intno: u32) -> bool {
        &&& (intno >= PERCPU_INTERRUPTS ==> after == before)
        &&& (intno < PERCPU_INTERRUPTS ==> {
                &&& after.pending == before.pending
                &&& after.enabled == before.enabled & !mask16(intno)
                &&& after.local_en == before.local_en
            })
    }

    /// Effect of `local_enable` on the state and its result.
    pub open spec fn local_enables(before: Self, after: Self, intno: u32, r: bool) -> bool {
        &&& (intno >= PERCPU_INTERRUPTS ==> after == before && !r)
        &&& (intno < PERCPU_INTERRUPTS ==> {
                &&& after.pending == before.pending
                &&& after.enabled == before.enabled
                &&& after.local_en == before.local_en | mask16(intno)
                &&& r == (before.pending & before.enabled & mask16(intno) != 0)
            })
    }

    /// Effect of `local_disable` on the state.
    pub open spec fn local_disables(before: Self, after: Self, intno: u32) -> bool {
        &&& (intno >= PERCPU_INTERRUPTS ==> after == before)
        &&& (intno < PERCPU_INTERRUPTS ==> {
                &&& after.pending == before.pending
                &&& after.enabled == before.enabled
                &&& after.local_en == before.local_en & !mask16(intno)
            })
    }

    /// Effect of `get` on the state and its result.
    pub open spec fn gets(before: Self, after: Self, r: i32) -> bool {
        &&& (Self::lowest_or_none(before.deliverable(), r))
        &&& (r == -1 ==> after == before)
        &&& (r != -1 ==> {
                &&& after.pending == before.pending & !mask16(r as u32)
                &&& after.enabled == before.enabled & !mask16(r as u32)
                &&& after.local_en == before.local_en
            })
    }

    /// Status word of one interrupt: bit 0 pending, bit 1 local enable,
    /// bit 2 global enable; 0 for an out-of-range number.
    pub open spec fn spec_status(self, intno: u32) -> u32 {
        if intno >= PERCPU_INTERRUPTS {
            0
        } else {
            ((if bit16(self.pending, intno as u16) { 1u32 } else { 0u32 })
                + (if bit16(self.local_en, intno as u16) { 2u32 } else { 0u32 })
                + (if bit16(self.enabled, intno as u16) { 4u32 } else { 0u32 })) as u32
        }
    }

    pub fn new() -> (r: Self)
        ensures
            r.pending == 0,
            r.enabled == 0,
            r.local_en == 0,
    {
        Self { pending: 0, enabled: 0, local_en: 0 }
    }

    /// Post an interrupt: set its pending and enable bits. Returns whether
    /// some interrupt is now deliverable.
    pub fn post(&mut self, intno: u32) -> (r: bool)
        ensures
            Self::posts(*old(self), *final(self), intno, r),
    {
        if intno >= PERCPU_INTERRUPTS {
            return false;
        }
        let mask = 1u16 << (intno as u16);
        self.pending = self.pending | mask;
        self.enabled = self.enabled | mask;
        (self.pending & self.enabled & self.local_en) != 0
    }

    /// Clear an interrupt's pending bit. Returns whether it was pending.
    pub fn clear(&mut self, intno: u32) -> (r: bool)
        ensures
            Self::clears(*old(self), *final(self), intno, r),
    {
        if intno >= PERCPU_INTERRUPTS {
            return false;
        }
        let mask = 1u16 << (intno as u16);
        let was_pending = self.pending & mask != 0;
        self.pending = self.pending & !mask;
        was_pending
    }

    /// Enable an interrupt globally. Returns whether that interrupt is now
    /// deliverable.
    pub fn enable(&mut self, intno: u32) -> (r: bool)
        ensures
            Self::enables(*old(self), *final(self), intno, r),
    {
        if intno >= PERCPU_INTERRUPTS {
            return false;
        }
        let mask = 1u16 << (intno as u16);
        self.enabled = self.enabled | mask;
        (self.pending & self.enabled & self.local_en & mask) != 0
    }

    /// Disable an interrupt globally.
    pub fn disable(&mut self, intno: u32)
        ensures
            Self::disables(*old(self), *final(self), intno),
    {
        if intno >= PERCPU_INTERRUPTS {
            return ;
        }
        self.enabled = self.enabled & !(1u16 << (intno as u16));
    }

    /// Enable an interrupt locally. Returns whether it is now deliverable.
    pub fn local_enable(&mut self, intno: u32) -> (r: bool)
        ensures
            Self::local_enables(*old(self), *final(self), intno, r),
    {
        if intno >= PERCPU_INTERRUPTS {
            return false;
        }
        let mask = 1u16 << (intno as u16);
        self.local_en = self.local_en | mask;
        (self.pending & self.enabled & mask) != 0
    }

    /// Disable an interrupt locally.
    pub fn local_disable(&mut self, intno: u32)
        ensures
            Self::local_disables(*old(self), *final(self), intno),
    {
        if intno >= PERCPU_INTERRUPTS {
            return ;
        }
        self.local_en = self.local_en & !(1u16 << (intno as u16));
    }

    /// Take the lowest-numbered deliverable interrupt: clear its pending
    /// and enable bits and return its number, or -1 if none.
    pub fn get(&mut self) -> (r: i32)
        ensures
            Self::gets(*old(self), *final(self), r),
    {
        let deliverable = self.enabled & self.pending & self.local_en;
        proof {
            crate::bits::lemma_u16_facts(self.enabled, self.pending, self.local_en, 0);
        }
        if deliverable == 0 {
            return -1;
        }
        let bit = deliverable.trailing_zeros();
        proof {
            lemma_trailing_zeros16(deliverable);
        }
        self.pending = self.pending & !(1u16 << (bit as u16));
        self.enabled = self.enabled & !(1u16 << (bit as u16));
        bit as i32
    }

    /// The lowest-numbered pending and enabled interrupt (local enable not
    /// required), or -1. Changes nothing.
    pub fn peek(&self) -> (r: i32)
        ensures
            Self::lowest_or_none(self.visible(), r),
    {
        let visible = self.enabled & self.pending;
        if visible == 0 {
            return -1;
        }
        proof {
            lemma_trailing_zeros16(visible);
        }
        visible.trailing_zeros() as i32
    }

    /// The lowest-numbered deliverable interrupt, or -1. Changes nothing.
    pub fn peek_deliverable(&self) -> (r: i32)
        ensures
            Self::lowest_or_none(self.deliverable(), r),
    {
        let deliverable = self.enabled & self.pending & self.local_en;
        proof {
            crate::bits::lemma_u16_facts(self.enabled, self.pending, self.local_en, 0);
        }
        if deliverable == 0 {
            return -1;
        }
        proof {
            lemma_trailing_zeros16(deliverable);
        }
        deliverable.trailing_zeros() as i32
    }

    /// Status of one interrupt: bit 0 pending, bit 1 local enable, bit 2
    /// global enable; 0 for an out-of-range number.
    pub fn status(&self, intno: u32) -> (r: u32)
        ensures
            r == self.spec_status(intno),
    {
        if intno >= PERCPU_INTERRUPTS {
            return 0;
        }
        let i = intno as u16;
        let p = (self.pending >> i) & 1;
        let l = (self.local_en >> i) & 1;
        let e = (self.enabled >> i) & 1;
        proof {
            crate::bits::lemma_u16_facts(self.pending, 0, 0, i);
            crate::bits::lemma_u16_facts(self.local_en, 0, 0, i);
            crate::bits::lemma_u16_facts(self.enabled, 0, 0, i);
        }
        let mut ret = 0u32;
        ret = ret | (p as u32);
        ret = ret | ((l as u32) << 1u32);
        ret = ret | ((e as u32) << 2u32);
        proof {
            crate::bits::lemma_u32_facts(p as u32, l as u32, e as u32, 0);
        }
        ret
    }

    /// Whether some interrupt is deliverable.
    pub fn any_deliverable(&self) -> (r: bool)
        ensures
            r == (self.deliverable() != 0),
    {
        (self.pending & self.enabled & self.local_en) != 0
    }
}


/// Peeking at the deliverable interrupts names the interrupt that a
/// `get` on the same state takes.
pub proof fn law_peek_names_get(s: CpuIntState, after: CpuIntState, peeked: i32, got: i32)
    requires
        CpuIntState::lowest_or_none(s.deliverable(), peeked),
        CpuIntState::gets(s, after, got),
    ensures
        peeked == got,
{
    if s.deliverable() != 0 {
        crate::bits::lemma_lowest16_unique(s.deliverable(), peeked as int, got as int);
    }
}


proof fn lemma_post_bits(p: u16, e: u16, l: u16, i: u16, j: u16)
    by (bit_vector)
    requires
        i < 16,
        j < 16,
    ensures
        j != i ==> (((((p | (1u16 << i)) & (e | (1u16 << i))) & l) >> j) & 1u16 == 1u16) == ((((p & e) & l) >> j) & 1u16 == 1u16),
        ((l >> i) & 1u16 == 1u16) ==> (((((p | (1u16 << i)) & (e | (1u16 << i))) & l) >> i) & 1u16 == 1u16),
        (((p & !(1u16 << i)) >> i) & 1u16 == 1u16) == false,
{
}

/// A posted interrupt that the CPU enables locally is taken by the next
/// `get` when no lower-numbered interrupt is deliverable, and the `get`
/// clears it.
pub proof fn law_post_then_get(s0: CpuIntState, s1: CpuIntState, s2: CpuIntState, i: u32, posted: bool, got: i32)
    requires
        i < PERCPU_INTERRUPTS,
        bit16(s0.local_en, i as u16),
        forall|k: u16| k < i ==> !bit16(s0.deliverable(), k),
        CpuIntState::posts(s0, s1, i, posted),
        CpuIntState::gets(s1, s2, got),
    ensures
        posted,
        got == i,
        !bit16(s2.pending, i as u16),
{
    let m = mask16(i);
    assert(m == 1u16 << (i as u16));
    let ii = i as u16;
    lemma_post_bits(s0.pending, s0.enabled, s0.local_en, ii, 0);
    assert(is_lowest16(s1.deliverable(), i as int)) by {
        assert forall|j: u16| j < i implies !bit16(s1.deliverable(), j) by {
            lemma_post_bits(s0.pending, s0.enabled, s0.local_en, ii, j);
            assert(!bit16(s0.deliverable(), j));
        }
    }
    assert(s1.deliverable() != 0) by {
        assert(bit16(s1.deliverable(), ii));
        if s1.deliverable() == 0 {
            assert(((0u16 >> ii) & 1u16) == 0u16) by (bit_vector);
        }
    }
    lemma_lowest16_unique(s1.deliverable(), i as int, got as int);
    lemma_post_bits(s1.pending, 0, 0, ii, 0);
}

} // verus!
