//! Shared interrupts: per-VM pending and enable bitmaps plus one local
//! enable bitmap per virtual CPU. An interrupt is deliverable to a CPU
//! when it is pending, enabled and locally enabled for that CPU.

use vstd::prelude::*;
use crate::bits::{bit32, is_lowest32, lemma_trailing_zeros32, lemma_mask_bit, lemma_bit32_of_zero};

verus! {

/// Number of 32-bit words per shared-interrupt bitmap (512 interrupts).
pub const MAX_SHINT_WORDS: usize = 16;

/// Number of virtual CPUs per VM.
pub const MAX_CPUS: usize = 64;

/// Shared interrupt state of a VM.
pub struct SharedIntState {
    /// Number of shared interrupts configured.
    pub num_ints: u32,
    /// Global pending bitmap.
    pub pending: [u32; MAX_SHINT_WORDS],
    /// Global enable bitmap.
    pub enable: [u32; MAX_SHINT_WORDS],
    /// Local enable bitmap of each CPU.
    pub percpu_mask: [[u32; MAX_SHINT_WORDS]; MAX_CPUS],
    /// Number of active CPUs.
    pub max_cpus: u32,
}

/// Word holding interrupt `i`.
pub open spec fn word_of(i: int) -> int {
    i / 32
}

/// Bit of interrupt `i` within its word.
pub open spec fn bit_of(i: int) -> u32 {
    (i % 32) as u32
}

/// Number of bitmap words that `n` interrupts occupy.
pub open spec fn words_for(n: u32) -> int {
    (n as int + 31) / 32
}

/// Where interrupt `i` lives, as the code computes it.
pub proof fn lemma_locate(i: u32)
    ensures
        (i >> 5u32) as int == word_of(i as int),
        (i & 0x1fu32) == bit_of(i as int),
        (i & 0x1fu32) < 32,
{
    crate::bits::lemma_u32_facts(i, 0, 0, 0);
}

/// The first target depends on the local enable bitmaps alone.
pub proof fn lemma_first_target_same_masks(a: &SharedIntState, b: &SharedIntState, i: int, r: i32)
    requires
        a.percpu_mask == b.percpu_mask,
        a.max_cpus == b.max_cpus,
        a.first_target(i, r),
    ensures
        b.first_target(i, r),
{
    assert forall|c: int| #![trigger b.local_bit(c, i)] 0 <= c < a.max_cpus implies a.local_bit(c, i) == b.local_bit(c, i) by {}
}

/// At most one interrupt is the first deliverable one.
pub proof fn lemma_first_deliverable_unique(s: &SharedIntState, cpu: int, a: int, b: int)
    requires
        s.is_first_deliverable(cpu, a),
        s.is_first_deliverable(cpu, b),
    ensures
        a == b,
{
    if a < b {
        assert(!bit32(s.del_word(cpu, word_of(a)), bit_of(a)));
    } else if b < a {
        assert(!bit32(s.del_word(cpu, word_of(b)), bit_of(b)));
    }
}

/// The lowest set bit of the first nonzero word is the first deliverable
/// interrupt.
pub proof fn lemma_first_in_word(s: &SharedIntState, cpu: int, j: int, bit: u32)
    requires
        0 <= j < words_for(s.num_ints),
        forall|k: int| 0 <= k < j ==> #[trigger] s.del_word(cpu, k) == 0,
        is_lowest32(s.del_word(cpu, j), bit as int),
    ensures
        s.is_first_deliverable(cpu, j * 32 + bit),
        s.first_deliverable(cpu) == j * 32 + bit,
        !s.none_deliverable(cpu),
{
    let n = j * 32 + bit;
    assert(word_of(n) == j && bit_of(n) == bit);
    assert forall|m: int| 0 <= m < n implies !bit32(#[trigger] s.del_word(cpu, word_of(m)), bit_of(m)) by {
        if word_of(m) < j {
            lemma_bit32_of_zero(bit_of(m));
        } else {
            assert(bit_of(m) < bit);
        }
    }
    assert(s.is_first_deliverable(cpu, n));
    lemma_first_deliverable_unique(s, cpu, n, s.first_deliverable(cpu));
    lemma_bit32_of_zero(bit);
}

impl SharedIntState {
    /// The sizes fit the bitmaps.
    pub open spec fn wf(&self) -> bool {
        self.num_ints as int <= 32 * MAX_SHINT_WORDS && self.max_cpus as int <= MAX_CPUS
    }

    pub open spec fn pending_bit(&self, i: int) -> bool {
        bit32(self.pending@[word_of(i)], bit_of(i))
    }

    pub open spec fn enable_bit(&self, i: int) -> bool {
        bit32(self.enable@[word_of(i)], bit_of(i))
    }

    pub open spec fn local_bit(&self, cpu: int, i: int) -> bool {
        bit32(self.percpu_mask@[cpu]@[word_of(i)], bit_of(i))
    }

    /// Deliverable bits of word `j` for `cpu`.
    pub open spec fn del_word(&self, cpu: int, j: int) -> u32 {
        self.pending@[j] & self.enable@[j] & self.percpu_mask@[cpu]@[j]
    }

    /// `r` is the first CPU below `max_cpus` that locally enables
    /// interrupt `i`, or -1 when there is none.
    pub open spec fn first_target(&self, i: int, r: i32) -> bool {
        if r == -1 {
            forall|c: int| 0 <= c < self.max_cpus ==> !self.local_bit(c, i)
        } else {
            &&& 0 <= r < self.max_cpus
            &&& self.local_bit(r as int, i)
            &&& forall|c: int| 0 <= c < r ==> !self.local_bit(c, i)
        }
    }

    /// `n` is the lowest interrupt deliverable to `cpu` among the words
    /// that `num_ints` covers.
    pub open spec fn is_first_deliverable(&self, cpu: int, n: int) -> bool {
        &&& 0 <= n < 32 * words_for(self.num_ints)
        &&& bit32(self.del_word(cpu, word_of(n)), bit_of(n))
        &&& forall|m: int|
            0 <= m < n ==> !bit32(#[trigger] self.del_word(cpu, word_of(m)), bit_of(m))
    }

    /// No interrupt is deliverable to `cpu`.
    pub open spec fn none_deliverable(&self, cpu: int) -> bool {
        forall|j: int| 0 <= j < words_for(self.num_ints) ==> #[trigger] self.del_word(cpu, j) == 0
    }

    /// Local enable bitmap of `cpu`.
    pub open spec fn row(&self, cpu: int) -> Seq<u32> {
        self.percpu_mask@[cpu]@
    }

    /// The lowest interrupt deliverable to `cpu` (meaningful when one is).
    pub open spec fn first_deliverable(&self, cpu: int) -> int {
        choose|n: int| self.is_first_deliverable(cpu, n)
    }

    /// Every bitmap unchanged except those the postcondition names.
    pub open spec fn same_masks(&self, other: &Self) -> bool {
        &&& self.num_ints == other.num_ints
        &&& self.max_cpus == other.max_cpus
        &&& self.percpu_mask@ == other.percpu_mask@
    }

    /// Effect of `post` on the state and its result.
    pub open spec fn posts(before: Self, after: Self, intno: u32, r: i32) -> bool {
        &&& (intno >= before.num_ints || before.pending_bit(intno as int) ==> after
                == before && r == -1)
        &&& (intno < before.num_ints && !before.pending_bit(intno as int) ==> {
                &&& after.pending@ == before.pending@.update(
                    word_of(intno as int),
                    before.pending@[word_of(intno as int)] | (1u32 << bit_of(intno as int)),
                )
                &&& after.enable@ == before.enable@
                &&& after.same_masks(&before)
                &&& if before.enable_bit(intno as int) {
                    before.first_target(intno as int, r)
                } else {
                    r == -1
                }
            })
    }

    /// Effect of `clear` on the state and its result.
    pub open spec fn clears(before: Self, after: Self, intno: u32, r: bool) -> bool {
        &&& (intno >= before.num_ints ==> after == before && !r)
        &&& (intno < before.num_ints ==> {
                &&& after.pending@ == before.pending@.update(
                    word_of(intno as int),
                    before.pending@[word_of(intno as int)] & !(1u32 << bit_of(intno as int)),
                )
                &&& after.enable@ == before.enable@
                &&& after.same_masks(&before)
                &&& r == before.pending_bit(intno as int)
            })
    }

    /// Effect of `enable` on the state and its result.
    pub open spec fn enables(before: Self, after: Self, intno: u32, r: i32) -> bool {
        &&& (intno >= before.num_ints || before.enable_bit(intno as int) ==> after
                == before && r == -1)
        &&& (intno < before.num_ints && !before.enable_bit(intno as int) ==> {
                &&& after.enable@ == before.enable@.update(
                    word_of(intno as int),
                    before.enable@[word_of(intno as int)] | (1u32 << bit_of(intno as int)),
                )
                &&& after.pending@ == before.pending@
                &&& after.same_masks(&before)
                &&& if before.pending_bit(intno as int) {
                    before.first_target(intno as int, r)
                } else {
                    r == -1
                }
            })
    }

    /// Effect of `disable` on the state.
    pub open spec fn disables(before: Self, after: Self, intno: u32) -> bool {
        &&& (intno >= before.num_ints ==> after == before)
        &&& (intno < before.num_ints ==> {
                &&& after.enable@ == before.enable@.update(
                    word_of(intno as int),
                    before.enable@[word_of(intno as int)] & !(1u32 << bit_of(intno as int)),
                )
                &&& after.pending@ == before.pending@
                &&& after.same_masks(&before)
            })
    }

    /// Effect of `local_enable` on the state and its result.
    pub open spec fn local_enables(before: Self, after: Self, intno: u32, cpu: u32, r: i32) -> bool {
        &&& (intno >= before.num_ints || cpu >= before.max_cpus || before.local_bit(
                cpu as int,
                intno as int,
            ) ==> after == before && r == -1)
        &&& (intno < before.num_ints && cpu < before.max_cpus && !before.local_bit(
                cpu as int,
                intno as int,
            ) ==> {
                &&& forall|c: int|
                    0 <= c < MAX_CPUS ==> #[trigger] after.percpu_mask@[c]@ == if c == cpu {
                        before.percpu_mask@[c]@.update(
                            word_of(intno as int),
                            before.percpu_mask@[c]@[word_of(intno as int)] | (1u32 << bit_of(
                                intno as int,
                            )),
                        )
                    } else {
                        before.percpu_mask@[c]@
                    }
                &&& after.pending@ == before.pending@
                &&& after.enable@ == before.enable@
                &&& after.num_ints == before.num_ints
                &&& after.max_cpus == before.max_cpus
                &&& r == if before.pending_bit(intno as int) && before.enable_bit(
                    intno as int,
                ) {
                    cpu as i32
                } else {
                    -1i32
                }
            })
    }

    /// Effect of `local_disable` on the state.
    pub open spec fn local_disables(before: Self, after: Self, intno: u32, cpu: u32) -> bool {
        &&& (intno >= before.num_ints || cpu >= before.max_cpus ==> after == before)
        &&& (intno < before.num_ints && cpu < before.max_cpus ==> {
                &&& forall|c: int|
                    0 <= c < MAX_CPUS ==> #[trigger] after.row(c) == if c == cpu {
                        before.row(c).update(
                            word_of(intno as int),
                            before.row(c)[word_of(intno as int)] & !(1u32 << bit_of(
                                intno as int,
                            )),
                        )
                    } else {
                        before.row(c)
                    }
                &&& after.pending@ == before.pending@
                &&& after.enable@ == before.enable@
                &&& after.num_ints == before.num_ints
                &&& after.max_cpus == before.max_cpus
            })
    }

    /// Effect of `set_affinity` on the state.
    pub open spec fn sets_affinity(before: Self, after: Self, intno: u32, target_cpu: u32) -> bool {
        &&& (intno >= before.num_ints ==> after == before)
        &&& (intno < before.num_ints ==> {
                &&& forall|c: int|
                    0 <= c < MAX_CPUS ==> #[trigger] after.row(c) == if c < before.max_cpus {
                        before.row(c).update(
                            word_of(intno as int),
                            if c == target_cpu {
                                before.row(c)[word_of(intno as int)] | (1u32 << bit_of(
                                    intno as int,
                                ))
                            } else {
                                before.row(c)[word_of(intno as int)] & !(1u32 << bit_of(
                                    intno as int,
                                ))
                            },
                        )
                    } else {
                        before.row(c)
                    }
                &&& after.pending@ == before.pending@
                &&& after.enable@ == before.enable@
                &&& after.num_ints == before.num_ints
                &&& after.max_cpus == before.max_cpus
            })
    }

    /// Effect of `get` on the state and its result.
    pub open spec fn gets(before: Self, after: Self, cpu: u32, offset: u32, r: i32) -> bool {
        &&& (cpu >= before.max_cpus || before.none_deliverable(cpu as int) ==> after
                == before && r == -1)
        &&& (cpu < before.max_cpus && !before.none_deliverable(cpu as int) ==> {
                let n = before.first_deliverable(cpu as int);
                &&& before.is_first_deliverable(cpu as int, n)
                &&& r == (offset + n) as i32
                &&& after.pending@ == before.pending@.update(
                    word_of(n),
                    before.pending@[word_of(n)] & !(1u32 << bit_of(n)),
                )
                &&& after.enable@ == before.enable@.update(
                    word_of(n),
                    before.enable@[word_of(n)] & !(1u32 << bit_of(n)),
                )
                &&& after.same_masks(&before)
            })
    }

    /// Status word of one interrupt for `cpu`: bit 0 pending, bit 1 local
    /// enable, bit 2 global enable; 0 when out of range.
    pub open spec fn spec_status(&self, intno: u32, cpu: u32) -> u32 {
        if intno >= self.num_ints || cpu >= self.max_cpus {
            0
        } else {
            ((if self.pending_bit(intno as int) { 1u32 } else { 0u32 })
                + (if self.local_bit(cpu as int, intno as int) { 2u32 } else { 0u32 })
                + (if self.enable_bit(intno as int) { 4u32 } else { 0u32 })) as u32
        }
    }

    /// Result of `peek`: the lowest interrupt deliverable to `cpu` plus
    /// `offset`, or -1.
    pub open spec fn peeks(&self, cpu: u32, offset: u32, r: i32) -> bool {
        &&& (cpu >= self.max_cpus || self.none_deliverable(cpu as int) ==> r == -1)
        &&& (cpu < self.max_cpus && !self.none_deliverable(cpu as int) ==> {
                &&& self.is_first_deliverable(cpu as int, self.first_deliverable(cpu as int))
                &&& r == (offset + self.first_deliverable(cpu as int)) as i32
            })
    }

    pub fn new() -> (r: Self)
        ensures
            r.wf(),
            r.num_ints == 0,
            r.max_cpus == 0,
            forall|j: int| 0 <= j < MAX_SHINT_WORDS ==> r.pending@[j] == 0 && r.enable@[j] == 0,
            forall|c: int, j: int|
                0 <= c < MAX_CPUS && 0 <= j < MAX_SHINT_WORDS ==> r.percpu_mask@[c]@[j] == 0,
    {
        Self {
            num_ints: 0,
            pending: [0u32; MAX_SHINT_WORDS],
            enable: [0u32; MAX_SHINT_WORDS],
            percpu_mask: [[0u32; MAX_SHINT_WORDS]; MAX_CPUS],
            max_cpus: 0,
        }
    }

    /// Configure `num_ints` interrupts and `max_cpus` CPUs; every CPU
    /// locally enables every configured word.
    pub fn init(&mut self, num_ints: u32, max_cpus: u32)
        requires
            num_ints as int <= 32 * MAX_SHINT_WORDS,
            max_cpus as int <= MAX_CPUS,
        ensures
            final(self).wf(),
            final(self).num_ints == num_ints,
            final(self).max_cpus == max_cpus,
            final(self).pending@ == old(self).pending@,
            final(self).enable@ == old(self).enable@,
            forall|c: int, j: int|
                0 <= c < MAX_CPUS && 0 <= j < MAX_SHINT_WORDS ==> final(self).percpu_mask@[c]@[j] == if c
                    < max_cpus && j < words_for(num_ints) {
                    0xFFFF_FFFFu32
                } else {
                    old(self).percpu_mask@[c]@[j]
                },
    {
        self.num_ints = num_ints;
        self.max_cpus = max_cpus;
        let words = ((num_ints as usize) + 31) / 32;
        let mut cpu: usize = 0;
        while cpu < max_cpus as usize
            invariant
                self.num_ints == num_ints,
                self.max_cpus == max_cpus,
                max_cpus as int <= MAX_CPUS,
                words == words_for(num_ints),
                words <= MAX_SHINT_WORDS,
                cpu <= max_cpus,
                self.pending@ == old(self).pending@,
                self.enable@ == old(self).enable@,
                forall|c: int, j: int|
                    0 <= c < MAX_CPUS && 0 <= j < MAX_SHINT_WORDS ==> self.percpu_mask@[c]@[j] == if c
                        < cpu && j < words {
                        0xFFFF_FFFFu32
                    } else {
                        old(self).percpu_mask@[c]@[j]
                    },
            decreases max_cpus as usize - cpu,
        {
            let mut row = self.percpu_mask[cpu];
            let mut w: usize = 0;
            while w < words
                invariant
                    words <= MAX_SHINT_WORDS,
                    w <= words,
                    cpu < MAX_CPUS,
                    forall|j: int|
                        0 <= j < MAX_SHINT_WORDS ==> row@[j] == if j < w {
                            0xFFFF_FFFFu32
                        } else {
                            self.percpu_mask@[cpu as int]@[j]
                        },
                decreases words - w,
            {
                row[w] = 0xFFFF_FFFFu32;
                w = w + 1;
            }
            self.percpu_mask[cpu] = row;
            cpu = cpu + 1;
        }
    }

    /// First CPU that locally enables interrupt `intno`, or -1.
    fn find_target_cpu(&self, intno: u32) -> (r: i32)
        requires
            self.wf(),
            intno < self.num_ints,
        ensures
            self.first_target(intno as int, r),
    {
        let word = (intno >> 5u32) as usize;
        let bit = intno & 0x1f;
        proof {
            lemma_locate(intno);
        }
        let mask = 1u32 << bit;
        let mut cpu: usize = 0;
        while cpu < self.max_cpus as usize
            invariant
                self.wf(),
                word as int == word_of(intno as int),
                word < MAX_SHINT_WORDS,
                bit == bit_of(intno as int),
                bit < 32,
                mask == 1u32 << bit,
                cpu <= self.max_cpus,
                forall|c: int| 0 <= c < cpu ==> !self.local_bit(c, intno as int),
            decreases self.max_cpus as usize - cpu,
        {
            proof {
                lemma_mask_bit(self.percpu_mask@[cpu as int]@[word as int], bit);
            }
            if self.percpu_mask[cpu][word] & mask != 0 {
                return cpu as i32;
            }
            cpu = cpu + 1;
        }
        -1
    }

    /// Post a shared interrupt. Returns the CPU that should receive it, or
    /// -1 when it was already pending, is not enabled or no CPU takes it.
    pub fn post(&mut self, intno: u32) -> (r: i32)
        requires
            old(self).wf(),
        ensures
            final(self).wf(),
            Self::posts(*old(self), *final(self), intno, r),
    {
        if intno >= self.num_ints {
            return -1;
        }
        let word = (intno >> 5u32) as usize;
        let bit = intno & 0x1f;
        proof {
            lemma_locate(intno);
            lemma_mask_bit(self.pending@[word as int], bit);
            lemma_mask_bit(self.enable@[word as int], bit);
        }
        let mask = 1u32 << bit;
        if self.pending[word] & mask != 0 {
            return -1;
        }
        self.pending[word] = self.pending[word] | mask;
        if self.enable[word] & mask == 0 {
            return -1;
        }
        let r = self.find_target_cpu(intno);
        proof {
            lemma_first_target_same_masks(self, old(self), intno as int, r);
        }
        r
    }

    /// Clear a shared interrupt's pending bit. Returns whether it was
    /// pending.
    pub fn clear(&mut self, intno: u32) -> (r: bool)
        requires
            old(self).wf(),
        ensures
            final(self).wf(),
            Self::clears(*old(self), *final(self), intno, r),
    {
        if intno >= self.num_ints {
            return false;
        }
        let word = (intno >> 5u32) as usize;
        let bit = intno & 0x1f;
        proof {
            lemma_locate(intno);
            lemma_mask_bit(self.pending@[word as int], bit);
        }
        let mask = 1u32 << bit;
        let was_pending = self.pending[word] & mask != 0;
        self.pending[word] = self.pending[word] & !mask;
        was_pending
    }

    /// Enable a shared interrupt globally. Returns the CPU to deliver it
    /// to when it was disabled and is pending, else -1.
    pub fn enable(&mut self, intno: u32) -> (r: i32)
        requires
            old(self).wf(),
        ensures
            final(self).wf(),
            Self::enables(*old(self), *final(self), intno, r),
    {
        if intno >= self.num_ints {
            return -1;
        }
        let word = (intno >> 5u32) as usize;
        let bit = intno & 0x1f;
        proof {
            lemma_locate(intno);
            lemma_mask_bit(self.pending@[word as int], bit);
            lemma_mask_bit(self.enable@[word as int], bit);
        }
        let mask = 1u32 << bit;
        if self.enable[word] & mask != 0 {
            return -1;
        }
        self.enable[word] = self.enable[word] | mask;
        if self.pending[word] & mask != 0 {
            let r = self.find_target_cpu(intno);
            proof {
                lemma_first_target_same_masks(self, old(self), intno as int, r);
            }
            return r;
        }
        -1
    }

    /// Disable a shared interrupt globally.
    pub fn disable(&mut self, intno: u32)
        requires
            old(self).wf(),
        ensures
            final(self).wf(),
            Self::disables(*old(self), *final(self), intno),
    {
        if intno >= self.num_ints {
            return ;
        }
        let word = (intno >> 5u32) as usize;
        let bit = intno & 0x1f;
        proof {
            lemma_locate(intno);
            lemma_mask_bit(self.enable@[word as int], bit);
        }
        let mask = 1u32 << bit;
        if self.enable[word] & mask == 0 {
            proof {
                let v = self.enable@[word as int];
                crate::bits::lemma_u32_facts(v, mask, 0, 0);
                assert(self.enable@ =~= self.enable@.update(word as int, v & !mask));
            }
            return ;
        }
        self.enable[word] = self.enable[word] & !mask;
    }

    /// Enable a shared interrupt locally for `cpu`. Returns `cpu` when the
    /// interrupt was locally disabled and is now deliverable there, else -1.
    pub fn local_enable(&mut self, intno: u32, cpu: u32) -> (r: i32)
        requires
            old(self).wf(),
        ensures
            final(self).wf(),
            Self::local_enables(*old(self), *final(self), intno, cpu, r),
    {
        if intno >= self.num_ints || cpu >= self.max_cpus {
            return -1;
        }
        let word = (intno >> 5u32) as usize;
        let bit = intno & 0x1f;
        let c = cpu as usize;
        proof {
            lemma_locate(intno);
            lemma_mask_bit(self.percpu_mask@[c as int]@[word as int], bit);
            lemma_mask_bit(self.pending@[word as int] & self.enable@[word as int], bit);
            lemma_mask_bit(self.pending@[word as int], bit);
            lemma_mask_bit(self.enable@[word as int], bit);
            let (p, e) = (self.pending@[word as int], self.enable@[word as int]);
            crate::bits::lemma_u32_facts(p, e, 0, bit);
        }
        let mask = 1u32 << bit;
        if self.percpu_mask[c][word] & mask != 0 {
            return -1;
        }
        let mut row = self.percpu_mask[c];
        row[word] = row[word] | mask;
        self.percpu_mask[c] = row;
        if self.enable[word] & self.pending[word] & mask != 0 {
            proof {
                let (p, e) = (self.pending@[word as int], self.enable@[word as int]);
                crate::bits::lemma_u32_facts(e, p, mask, 0);
            }
            return cpu as i32;
        }
        proof {
            let (p, e) = (self.pending@[word as int], self.enable@[word as int]);
            crate::bits::lemma_u32_facts(e, p, mask, 0);
        }
        -1
    }

    /// Disable a shared interrupt locally for `cpu`.
    pub fn local_disable(&mut self, intno: u32, cpu: u32)
        requires
            old(self).wf(),
        ensures
            final(self).wf(),
            Self::local_disables(*old(self), *final(self), intno, cpu),
    {
        if intno >= self.num_ints || cpu >= self.max_cpus {
            return ;
        }
        let word = (intno >> 5u32) as usize;
        let bit = intno & 0x1f;
        let c = cpu as usize;
        proof {
            lemma_locate(intno);
        }
        let mask = 1u32 << bit;
        if self.percpu_mask[c][word] & mask == 0 {
            proof {
                let v = self.percpu_mask@[c as int]@[word as int];
                crate::bits::lemma_u32_facts(v, mask, 0, 0);
                assert(self.row(c as int) =~= self.row(c as int).update(word as int, v & !mask));
            }
            return ;
        }
        let mut row = self.percpu_mask[c];
        row[word] = row[word] & !mask;
        self.percpu_mask[c] = row;
    }

    /// Route an interrupt to one CPU: every CPU locally disables it, then
    /// `target_cpu` locally enables it.
    pub fn set_affinity(&mut self, intno: u32, target_cpu: u32)
        requires
            old(self).wf(),
        ensures
            final(self).wf(),
            Self::sets_affinity(*old(self), *final(self), intno, target_cpu),
    {
        if intno >= self.num_ints {
            let mut cpu0: u32 = 0;
            while cpu0 < self.max_cpus
                invariant
                    self.wf(),
                    intno >= self.num_ints,
                    *self == *old(self),
                decreases self.max_cpus - cpu0,
            {
                self.local_disable(intno, cpu0);
                cpu0 = cpu0 + 1;
            }
            self.local_enable(intno, target_cpu);
            return ;
        }
        let ghost w = word_of(intno as int);
        let ghost b = bit_of(intno as int);
        proof {
            lemma_locate(intno);
        }
        let mut cpu: u32 = 0;
        while cpu < self.max_cpus
            invariant
                self.wf(),
                intno < self.num_ints,
                0 <= w < MAX_SHINT_WORDS,
                b < 32,
                w == word_of(intno as int),
                b == bit_of(intno as int),
                cpu <= self.max_cpus,
                self.num_ints == old(self).num_ints,
                self.max_cpus == old(self).max_cpus,
                self.pending@ == old(self).pending@,
                self.enable@ == old(self).enable@,
                forall|c: int|
                    0 <= c < MAX_CPUS ==> #[trigger] self.row(c) == if c < cpu {
                        old(self).row(c).update(w, old(self).row(c)[w] & !(1u32 << b))
                    } else {
                        old(self).row(c)
                    },
            decreases self.max_cpus - cpu,
        {
            self.local_disable(intno, cpu);
            cpu = cpu + 1;
        }
        proof {
            assert forall|c: int| 0 <= c < MAX_CPUS implies #[trigger] self.row(c)[w] == if c < self.max_cpus {
                old(self).row(c)[w] & !(1u32 << b)
            } else {
                old(self).row(c)[w]
            } by {}
        }
        let ghost mid = *self;
        let _ = self.local_enable(intno, target_cpu);
        proof {
            assert forall|c: int| 0 <= c < MAX_CPUS implies #[trigger] self.row(c) == if c < old(self).max_cpus {
                old(self).row(c).update(
                    w,
                    if c == target_cpu {
                        old(self).row(c)[w] | (1u32 << b)
                    } else {
                        old(self).row(c)[w] & !(1u32 << b)
                    },
                )
            } else {
                old(self).row(c)
            } by {
                let v = old(self).row(c)[w];
                let m = 1u32 << b;
                if c < old(self).max_cpus {
                    assert(mid.row(c) == old(self).row(c).update(w, v & !m));
                    if c == target_cpu {
                        crate::bits::lemma_u32_facts(v, m, 0, 0);
                        lemma_mask_bit(v, b);
                        assert(mid.row(c)[w] == v & !m);
                        assert(!mid.local_bit(c, intno as int));
                        assert(self.row(c) == mid.row(c).update(w, mid.row(c)[w] | m));
                        assert(self.row(c) =~= old(self).row(c).update(w, v | m));
                    } else {
                        assert(self.row(c) == mid.row(c));
                    }
                } else {
                    assert(self.row(c) == mid.row(c));
                }
            }
        }
    }

    /// Take the lowest interrupt deliverable to `cpu`: clear its pending
    /// and enable bits and return `offset` plus its number, or -1.
    pub fn get(&mut self, cpu: u32, offset: u32) -> (r: i32)
        requires
            old(self).wf(),
            cpu < old(self).max_cpus ==> forall|n: int|
                #[trigger] old(self).is_first_deliverable(cpu as int, n) ==> offset + n <= u32::MAX,
        ensures
            final(self).wf(),
            Self::gets(*old(self), *final(self), cpu, offset, r),
    {
        if cpu >= self.max_cpus {
            return -1;
        }
        let c = cpu as usize;
        let words = ((self.num_ints as usize) + 31) / 32;
        let mut j: usize = 0;
        while j < words
            invariant
                self.wf(),
                *self == *old(self),
                c == cpu,
                cpu < self.max_cpus,
                words == words_for(self.num_ints),
                words <= MAX_SHINT_WORDS,
                j <= words,
                forall|k: int| 0 <= k < j ==> #[trigger] self.del_word(c as int, k) == 0,
                forall|n: int| #[trigger] self.is_first_deliverable(cpu as int, n) ==> offset + n <= u32::MAX,
            decreases words - j,
        {
            let deliverable = self.pending[j] & self.enable[j] & self.percpu_mask[c][j];
            if deliverable != 0 {
                let bit = deliverable.trailing_zeros();
                proof {
                    lemma_trailing_zeros32(deliverable);
                    lemma_first_in_word(self, c as int, j as int, bit);
                }
                self.enable[j] = self.enable[j] & !(1u32 << bit);
                self.pending[j] = self.pending[j] & !(1u32 << bit);
                return (offset + j as u32 * 32 + bit) as i32;
            }
            j = j + 1;
        }
        -1
    }

    /// The lowest interrupt deliverable to `cpu` plus `offset`, or -1.
    /// Changes nothing.
    pub fn peek(&self, cpu: u32, offset: u32) -> (r: i32)
        requires
            self.wf(),
            cpu < self.max_cpus ==> forall|n: int| #[trigger] self.is_first_deliverable(cpu as int, n) ==> offset + n <= u32::MAX,
        ensures
            self.peeks(cpu, offset, r),
    {
        if cpu >= self.max_cpus {
            return -1;
        }
        let c = cpu as usize;
        let words = ((self.num_ints as usize) + 31) / 32;
        let mut j: usize = 0;
        while j < words
            invariant
                self.wf(),
                c == cpu,
                cpu < self.max_cpus,
                words == words_for(self.num_ints),
                words <= MAX_SHINT_WORDS,
                j <= words,
                forall|k: int| 0 <= k < j ==> #[trigger] self.del_word(c as int, k) == 0,
                forall|n: int| #[trigger] self.is_first_deliverable(cpu as int, n) ==> offset + n <= u32::MAX,
            decreases words - j,
        {
            let deliverable = self.pending[j] & self.enable[j] & self.percpu_mask[c][j];
            if deliverable != 0 {
                let bit = deliverable.trailing_zeros();
                proof {
                    lemma_trailing_zeros32(deliverable);
                    lemma_first_in_word(self, c as int, j as int, bit);
                }
                return (offset + j as u32 * 32 + bit) as i32;
            }
            j = j + 1;
        }
        -1
    }

    /// Status of one interrupt for `cpu`: bit 0 pending, bit 1 local
    /// enable, bit 2 global enable; 0 when out of range.
    pub fn status(&self, intno: u32, cpu: u32) -> (r: u32)
        requires
            self.wf(),
        ensures
            r == self.spec_status(intno, cpu),
    {
        if intno >= self.num_ints || cpu >= self.max_cpus {
            return 0;
        }
        let word = (intno >> 5u32) as usize;
        let bit = intno & 0x1f;
        proof {
            lemma_locate(intno);
        }
        let p = (self.pending[word] >> bit) & 1;
        let l = (self.percpu_mask[cpu as usize][word] >> bit) & 1;
        let e = (self.enable[word] >> bit) & 1;
        proof {
            let (a, b2, c2) = (self.pending@[word as int], self.percpu_mask@[cpu as int]@[word as int], self.enable@[word as int]);
            crate::bits::lemma_u32_facts(a, 0, 0, bit);
            crate::bits::lemma_u32_facts(b2, 0, 0, bit);
            crate::bits::lemma_u32_facts(c2, 0, 0, bit);
        }
        let mut ret = 0u32;
        ret = ret | p;
        ret = ret | (l << 1u32);
        ret = ret | (e << 2u32);
        proof {
            crate::bits::lemma_u32_facts(p, l, e, 0);
        }
        ret
    }
}


/// Peeking at the shared interrupts of a CPU names the interrupt that a
/// `get` for that CPU on the same state takes.
pub proof fn law_shared_peek_names_get(
    s: SharedIntState,
    after: SharedIntState,
    cpu: u32,
    offset: u32,
    peeked: i32,
    got: i32,
)
    requires
        s.peeks(cpu, offset, peeked),
        SharedIntState::gets(s, after, cpu, offset, got),
    ensures
        peeked == got,
{
}


impl Default for SharedIntState {
    fn default() -> (r: Self)
        ensures
            r.wf(),
            r.num_ints == 0,
            r.max_cpus == 0,
            forall|j: int| 0 <= j < MAX_SHINT_WORDS ==> r.pending@[j] == 0 && r.enable@[j] == 0,
            forall|c: int, j: int|
                0 <= c < MAX_CPUS && 0 <= j < MAX_SHINT_WORDS ==> r.percpu_mask@[c]@[j] == 0,
    {
        Self::new()
    }
}

} // verus!
