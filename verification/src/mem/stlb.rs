//! Software TLB: per ASID, a set-associative cache of hardware TLB
//! entries (2048 sets of 4 ways), consulted on a TLB miss before the full
//! translation. A set is only looked at once its bit in the validity map
//! is on.

use vstd::prelude::*;
use vstd::std_specs::bits::u32_trailing_zeros;
use crate::types::consts::{PAGE_BITS, STLB_MAX_SETS, STLB_MAX_WAYS};

verus! {

/// Words of the validity map.
pub const VALIDS_LEN: usize = 32;

/// Entries per ASID.
pub const ENTRIES_PER_ASID: usize = 8192;

/// Low word of a raw entry.
pub open spec fn entry_lo(e: u64) -> u32 {
    e as u32
}

/// High word of a raw entry.
pub open spec fn entry_hi(e: u64) -> u32 {
    (e >> 32u64) as u32
}

/// ASID field of a raw entry.
pub open spec fn entry_asid(e: u64) -> u32 {
    (entry_hi(e) >> 20u32) & 0x7F
}

/// A storable entry: zero, or one whose page size field (the trailing
/// zeros of its low word) is below 16.
pub open spec fn entry_ok(e: u64) -> bool {
    e == 0 || u32_trailing_zeros(entry_lo(e)) < 16
}

/// Whether entry `e` translates `va` for `asid`: nonzero, valid, same
/// ASID, and the virtual page equal above the page size.
pub open spec fn spec_stlb_check(va: u32, asid: u32, e: u64) -> bool {
    let hi = entry_hi(e);
    let size = u32_trailing_zeros(entry_lo(e));
    let mask = (!0u32) << ((size * 2) as u32);
    &&& e != 0
    &&& (hi >> 31u32) & 1 == 1
    &&& entry_asid(e) == asid
    &&& ((va >> 12u32) & mask) == ((hi & 0x000F_FFFF) & mask)
}

/// Set of the STLB that `va` falls in.
pub open spec fn set_of(va: u32) -> u32 {
    (va >> 12u32) & 0x7FF
}

/// Bit of set `s` in the validity map.
pub open spec fn set_valid_in(valids: Seq<u64>, s: int) -> bool {
    (valids[s / 64] >> ((s % 64) as u64)) & 1 == 1
}

/// STLB of one ASID.
pub struct StlbAsidInfo {
    /// Bit `s` is on once set `s` has been filled.
    pub valids: [u64; 32],
    /// The entries, set by set (`ENTRIES_PER_ASID` of them), or none
    /// before the storage is given.
    pub entries: Vec<u64>,
}

/// First way of set `s` (from way `w` on) whose entry translates `va`.
pub open spec fn first_way(entries: Seq<u64>, s: int, w: int, va: u32, asid: u32) -> u64
    decreases 4 - w,
{
    if w >= 4 {
        0
    } else if spec_stlb_check(va, asid, entries[s * 4 + w]) {
        entries[s * 4 + w]
    } else {
        first_way(entries, s, w + 1, va, asid)
    }
}

/// The entry a lookup of `va` finds, or 0.
pub open spec fn spec_lookup(va: u32, asid: u32, info: StlbAsidInfo) -> u64 {
    if info.entries@.len() == 0 || !set_valid_in(info.valids@, set_of(va) as int) {
        0
    } else {
        first_way(info.entries@, set_of(va) as int, 0, va, asid)
    }
}

impl StlbAsidInfo {
    /// The storage is absent or complete, and holds storable entries.
    pub open spec fn wf(&self) -> bool {
        &&& (self.entries@.len() == 0 || self.entries@.len() == ENTRIES_PER_ASID)
        &&& forall|i: int| 0 <= i < self.entries@.len() ==> entry_ok(#[trigger] self.entries@[i])
    }

    /// No storage, no valid set.
    pub fn empty() -> (r: Self)
        ensures
            r.wf(),
            r.entries@.len() == 0,
            forall|s: int| 0 <= s < STLB_MAX_SETS ==> !set_valid_in(r.valids@, s),
    {
        let r = Self { valids: [0u64; 32], entries: Vec::new() };
        proof {
            assert forall|s: int| 0 <= s < STLB_MAX_SETS implies !set_valid_in(r.valids@, s) by {
                let b = (s % 64) as u64;
                assert(r.valids@[s / 64] == 0);
                crate::bits::lemma_u64_facts(0, b, 0);
            }
        }
        r
    }

    /// Whether the storage was given.
    pub fn is_initialized(&self) -> (r: bool)
        ensures
            r == (self.entries@.len() != 0),
    {
        self.entries.len() != 0
    }

    fn read_entry(&self, idx: usize) -> (r: u64)
        requires
            idx < self.entries@.len(),
        ensures
            r == self.entries@[idx as int],
    {
        self.entries[idx]
    }

    fn write_entry(&mut self, idx: usize, val: u64)
        requires
            idx < old(self).entries@.len(),
        ensures
            final(self).entries@ == old(self).entries@.update(idx as int, val),
            final(self).valids == old(self).valids,
    {
        self.entries.set(idx, val);
    }

    /// Whether set `set_idx` has been filled.
    fn is_set_valid(&self, set_idx: u32) -> (r: bool)
        requires
            set_idx < STLB_MAX_SETS,
        ensures
            r == set_valid_in(self.valids@, set_idx as int),
    {
        let word = (set_idx / 64) as usize;
        let bit = set_idx & 63;
        proof {
            crate::bits::lemma_u32_facts(set_idx, 0, 0, 0);
            assert(word as int == set_idx as int / 64);
            assert(bit as u64 == ((set_idx as int % 64) as u64));
        }
        let wv = self.valids[word];
        let bb = bit as u64;
        let v = (wv >> bb) & 1;
        proof {
            crate::bits::lemma_u64_facts(wv, bb, 0);
        }
        v != 0
    }

    /// Mark set `set_idx` filled.
    fn set_valid(&mut self, set_idx: u32)
        requires
            set_idx < STLB_MAX_SETS,
        ensures
            forall|s: int| 0 <= s < STLB_MAX_SETS ==> #[trigger] set_valid_in(final(self).valids@, s) == (set_valid_in(
                old(self).valids@,
                s,
            ) || s == set_idx),
            final(self).entries == old(self).entries,
    {
        let word = (set_idx / 64) as usize;
        let bit = set_idx & 63;
        proof {
            crate::bits::lemma_u32_facts(set_idx, 0, 0, 0);
        }
        let old_word = self.valids[word];
        let b = bit as u64;
        proof {
            assert(word as int == set_idx as int / 64);
            assert(b == ((set_idx as int % 64) as u64));
        }
        self.valids[word] = old_word | (1u64 << b);
        proof {
            assert forall|s: int| 0 <= s < STLB_MAX_SETS implies #[trigger] set_valid_in(self.valids@, s) == (set_valid_in(
                old(self).valids@,
                s,
            ) || s == set_idx) by {
                let c = (s % 64) as u64;
                if s / 64 == word as int {
                    crate::bits::lemma_u64_facts(old_word, b, c);
                    if c == b {
                        assert(s == set_idx);
                    }
                }
            }
        }
    }
}

/// Whether entry `entry_raw` translates `va` for `asid`.
fn stlb_check(va: u32, asid: u32, entry_raw: u64) -> (r: bool)
    requires
        entry_ok(entry_raw),
    ensures
        r == spec_stlb_check(va, asid, entry_raw),
{
    if entry_raw == 0 {
        return false;
    }
    let entry_hi = (entry_raw >> 32u64) as u32;
    let entry_lo = entry_raw as u32;
    let entry_vpn = entry_hi & 0x000F_FFFF;
    let entry_asid = (entry_hi >> 20u32) & 0x7F;
    let valid = (entry_hi >> 31u32) & 1;
    if valid == 0 || entry_asid != asid {
        proof {
            crate::bits::lemma_u32_facts(entry_hi, 0, 0, 31);
        }
        return false;
    }
    proof {
        crate::bits::lemma_u32_facts(entry_hi, 0, 0, 31);
        assert(entry_lo == self::entry_lo(entry_raw));
        assert(entry_hi == self::entry_hi(entry_raw));
    }
    let size = entry_lo.trailing_zeros();
    let vpn = va >> PAGE_BITS;
    let mask = !0u32 << (size * 2);
    (vpn & mask) == (entry_vpn & mask)
}

/// Whether entry `entry_raw` belongs to `asid`.
fn stlb_match_asid(asid: u32, entry_raw: u64) -> (r: bool)
    ensures
        r == (entry_asid(entry_raw) == asid),
{
    let entry_hi = (entry_raw >> 32u64) as u32;
    let entry_asid = (entry_hi >> 20u32) & 0x7F;
    entry_asid == asid
}

/// Look `va` up in the STLB of `asid`: the first way of its set whose
/// entry translates it, or 0.
pub fn stlb_lookup(va: u32, asid: u32, info: &StlbAsidInfo) -> (r: u64)
    requires
        info.wf(),
    ensures
        r == spec_lookup(va, asid, *info),
{
    if !info.is_initialized() {
        return 0;
    }
    let set_idx = (va >> PAGE_BITS) & (STLB_MAX_SETS - 1);
    proof {
        crate::bits::lemma_u32_masks(va);
    }
    if !info.is_set_valid(set_idx) {
        return 0;
    }
    let base = (set_idx * STLB_MAX_WAYS) as usize;
    let mut way: usize = 0;
    while way < STLB_MAX_WAYS as usize
        invariant
            info.wf(),
            info.entries@.len() == ENTRIES_PER_ASID,
            set_idx == set_of(va),
            set_idx < 2048,
            set_valid_in(info.valids@, set_idx as int),
            base == set_idx * 4,
            way <= 4,
            first_way(info.entries@, set_idx as int, 0, va, asid) == first_way(info.entries@, set_idx as int, way as int, va, asid),
        decreases 4 - way,
    {
        proof {
            assert(info.entries@.len() == ENTRIES_PER_ASID);
            assert(base + way < ENTRIES_PER_ASID);
        }
        let entry = info.read_entry(base + way);
        if stlb_check(va, asid, entry) {
            proof {
                assert(entry == info.entries@[set_idx as int * 4 + way as int]);
                assert(first_way(info.entries@, set_idx as int, way as int, va, asid) == entry);
            }
            return entry;
        }
        way = way + 1;
    }
    0
}

/// The entries after set `s` is filled for the first time by `asid`:
/// its ways holding entries of `asid` are cleared; a set already filled
/// is left alone.
pub open spec fn stlb_cleared(valids: Seq<u64>, entries: Seq<u64>, s: int, asid: u32) -> Seq<u64> {
    if set_valid_in(valids, s) {
        entries
    } else {
        Seq::new(
            entries.len(),
            |i: int|
                if s * 4 <= i < s * 4 + 4 && entry_asid(entries[i]) == asid {
                    0u64
                } else {
                    entries[i]
                },
        )
    }
}

/// Put `entry` into way `way` of the set of `va`. A set used for the
/// first time is first cleared of stale entries of `asid` and marked
/// filled. The way is chosen by the caller, at random.
pub fn stlb_add(va: u32, asid: u32, entry: u64, info: &mut StlbAsidInfo, way: u32)
    requires
        old(info).wf(),
        entry_ok(entry),
        way < STLB_MAX_WAYS,
    ensures
        final(info).wf(),
        old(info).entries@.len() == 0 ==> *final(info) == *old(info),
        old(info).entries@.len() != 0 ==> {
            &&& final(info).entries@ == stlb_cleared(old(info).valids@, old(info).entries@, set_of(va) as int, asid).update(
                set_of(va) as int * 4 + way,
                entry,
            )
            &&& forall|s2: int| 0 <= s2 < STLB_MAX_SETS ==> #[trigger] set_valid_in(final(info).valids@, s2) == (set_valid_in(
                old(info).valids@,
                s2,
            ) || s2 == set_of(va) as int)
        },
{
    if !info.is_initialized() {
        return ;
    }
    let set_idx = (va >> PAGE_BITS) & (STLB_MAX_SETS - 1);
    proof {
        crate::bits::lemma_u32_masks(va);
    }
    let ghost e0 = info.entries@;
    let ghost s = set_idx as int;
    let ghost cleared = Seq::new(
        e0.len(),
        |i: int|
            if s * 4 <= i < s * 4 + 4 && entry_asid(e0[i]) == asid {
                0u64
            } else {
                e0[i]
            },
    );
    if !info.is_set_valid(set_idx) {
        let base = (set_idx * STLB_MAX_WAYS) as usize;
        let mut w: usize = 0;
        while w < STLB_MAX_WAYS as usize
            invariant
                info.wf(),
                info.entries@.len() == ENTRIES_PER_ASID,
                e0.len() == ENTRIES_PER_ASID,
                cleared.len() == e0.len(),
                forall|i: int|
                    0 <= i < e0.len() ==> #[trigger] cleared[i] == if s * 4 <= i < s * 4 + 4 && entry_asid(e0[i]) == asid {
                        0u64
                    } else {
                        e0[i]
                    },
                info.valids == old(info).valids,
                base == s * 4,
                0 <= s < 2048,
                w <= 4,
                forall|i: int|
                    0 <= i < e0.len() ==> #[trigger] info.entries@[i] == if s * 4 <= i < s * 4 + w {
                        cleared[i]
                    } else {
                        e0[i]
                    },
            decreases 4 - w,
        {
            let existing = info.read_entry(base + w);
            proof {
                let j = (base + w) as int;
                assert(cleared[j] == if entry_asid(e0[j]) == asid { 0u64 } else { e0[j] });
                assert(existing == e0[j]);
            }
            if stlb_match_asid(asid, existing) {
                info.write_entry(base + w, 0);
            }
            w = w + 1;
        }
        proof {
            assert(info.entries@ =~= cleared);
            assert(cleared == stlb_cleared(old(info).valids@, e0, s, asid));
        }
        info.set_valid(set_idx);
    } else {
        proof {
            assert(e0 == stlb_cleared(old(info).valids@, e0, s, asid));
        }
    }
    let idx = (set_idx * STLB_MAX_WAYS) as usize + way as usize;
    info.write_entry(idx, entry);
}

/// Whether some page of `start..=end` lies in set `s` and its address
/// is translated by `e` for `asid`.
pub open spec fn hit_in_range(start: u32, end: u32, s: int, asid: u32, e: u64) -> bool {
    exists|p: u32| start <= p <= end && #[trigger] ((p & 0x7FF) as int) == s && spec_stlb_check(p << 12u32, asid, e)
}

/// Drop from the STLB of `asid` the entries translating any page of the
/// `count` bytes from `va`, in the sets that are filled.
pub fn stlb_invalidate_va(va: u32, count: u32, asid: u32, info: &mut StlbAsidInfo)
    requires
        old(info).wf(),
    ensures
        final(info).wf(),
        final(info).valids == old(info).valids,
        final(info).entries@.len() == old(info).entries@.len(),
        forall|i: int|
            0 <= i < old(info).entries@.len() ==> #[trigger] final(info).entries@[i] == if set_valid_in(old(info).valids@, i / 4)
                && hit_in_range(
                va >> 12u32,
                vstd::wrapping::u32_specs::wrapping_sub(vstd::wrapping::u32_specs::wrapping_add(va, count), 1) >> 12u32,
                i / 4,
                asid,
                old(info).entries@[i],
            ) {
                0u64
            } else {
                old(info).entries@[i]
            },
{
    if !info.is_initialized() {
        proof {
            assert forall|i: int| 0 <= i < old(info).entries@.len() implies #[trigger] info.entries@[i] == old(info).entries@[i] by {}
        }
        return ;
    }
    let start = va >> PAGE_BITS;
    let end = (va.wrapping_add(count).wrapping_sub(1)) >> PAGE_BITS;
    proof {
        crate::bits::lemma_u32_masks(vstd::wrapping::u32_specs::wrapping_sub(vstd::wrapping::u32_specs::wrapping_add(va, count), 1));
    }
    let ghost e0 = info.entries@;
    let mut page: u32 = start;
    while page <= end
        invariant
            info.wf(),
            info.entries@.len() == ENTRIES_PER_ASID,
            e0.len() == ENTRIES_PER_ASID,
            info.valids == old(info).valids,
            e0 == old(info).entries@,
            start <= page,
            page <= end + 1 || page == start,
            end <= 0xFFFFF,
            forall|i: int|
                0 <= i < e0.len() ==> #[trigger] info.entries@[i] == if set_valid_in(old(info).valids@, i / 4) && hit_in_range(
                    start,
                    (page - 1) as u32,
                    i / 4,
                    asid,
                    e0[i],
                ) && page > start {
                    0u64
                } else {
                    e0[i]
                },
        decreases end + 1 - page,
    {
        let search_va = page << PAGE_BITS;
        let set_idx = page & (STLB_MAX_SETS - 1);
        proof {
            crate::bits::lemma_u32_masks(page);
        }
        if info.is_set_valid(set_idx) {
            let base = (set_idx * STLB_MAX_WAYS) as usize;
            let ghost e1 = info.entries@;
            let mut w: usize = 0;
            while w < STLB_MAX_WAYS as usize
                invariant
                    info.wf(),
                    info.entries@.len() == ENTRIES_PER_ASID,
                    info.valids == old(info).valids,
                    base == set_idx * 4,
                    set_idx < 2048,
                    w <= 4,
                    e1.len() == ENTRIES_PER_ASID,
                    forall|i: int|
                        0 <= i < e1.len() ==> #[trigger] info.entries@[i] == if set_idx * 4 <= i < set_idx * 4 + w
                            && spec_stlb_check(search_va, asid, e1[i]) {
                            0u64
                        } else {
                            e1[i]
                        },
                decreases 4 - w,
            {
                let existing = info.read_entry(base + w);
                if stlb_check(search_va, asid, existing) {
                    info.write_entry(base + w, 0);
                }
                w = w + 1;
            }
            proof {
                assert forall|i: int| 0 <= i < e0.len() implies #[trigger] info.entries@[i] == if set_valid_in(old(info).valids@, i / 4)
                    && hit_in_range(start, page, i / 4, asid, e0[i]) && page + 1 > start {
                    0u64
                } else {
                    e0[i]
                } by {
                    assert(set_idx * 4 <= i < set_idx * 4 + 4 <==> i / 4 == set_idx);
                    if hit_in_range(start, page, i / 4, asid, e0[i]) && !(hit_in_range(start, (page - 1) as u32, i / 4, asid, e0[i]) && page > start) {
                        let p = choose|p: u32| start <= p <= page && #[trigger] ((p & 0x7FF) as int) == i / 4 && spec_stlb_check(p << 12u32, asid, e0[i]);
                        assert(p == page) by {
                            if p < page {
                                assert(hit_in_range(start, (page - 1) as u32, i / 4, asid, e0[i]));
                            }
                        }
                    }
                    if hit_in_range(start, (page - 1) as u32, i / 4, asid, e0[i]) && page > start {
                        let p = choose|p: u32| start <= p <= (page - 1) as u32 && #[trigger] ((p & 0x7FF) as int) == i / 4 && spec_stlb_check(p << 12u32, asid, e0[i]);
                        assert(start <= p <= page);
                    }
                }
            }
        } else {
            proof {
                assert forall|i: int| 0 <= i < e0.len() implies #[trigger] info.entries@[i] == if set_valid_in(old(info).valids@, i / 4)
                    && hit_in_range(start, page, i / 4, asid, e0[i]) && page + 1 > start {
                    0u64
                } else {
                    e0[i]
                } by {
                    if hit_in_range(start, page, i / 4, asid, e0[i]) && !(hit_in_range(start, (page - 1) as u32, i / 4, asid, e0[i]) && page > start) {
                        let p = choose|p: u32| start <= p <= page && #[trigger] ((p & 0x7FF) as int) == i / 4 && spec_stlb_check(p << 12u32, asid, e0[i]);
                        if p < page {
                            assert(hit_in_range(start, (page - 1) as u32, i / 4, asid, e0[i]));
                        }
                    }
                    if hit_in_range(start, (page - 1) as u32, i / 4, asid, e0[i]) && page > start {
                        let p = choose|p: u32| start <= p <= (page - 1) as u32 && #[trigger] ((p & 0x7FF) as int) == i / 4 && spec_stlb_check(p << 12u32, asid, e0[i]);
                        assert(start <= p <= page);
                    }
                }
            }
        }
        page = page + 1;
    }
    proof {
        assert forall|i: int| 0 <= i < e0.len() implies #[trigger] info.entries@[i] == if set_valid_in(old(info).valids@, i / 4)
            && hit_in_range(start, end, i / 4, asid, e0[i]) {
            0u64
        } else {
            e0[i]
        } by {
            if start > end {
                if hit_in_range(start, end, i / 4, asid, e0[i]) {
                    let p = choose|p: u32| start <= p <= end && #[trigger] ((p & 0x7FF) as int) == i / 4 && spec_stlb_check(p << 12u32, asid, e0[i]);
                }
            }
        }
    }
}

/// Forget every set of the STLB: nothing is found until sets are filled
/// again.
pub fn stlb_invalidate_asid(info: &mut StlbAsidInfo)
    ensures
        forall|s: int| 0 <= s < STLB_MAX_SETS ==> !set_valid_in(final(info).valids@, s),
        final(info).entries == old(info).entries,
{
    let mut i: usize = 0;
    while i < VALIDS_LEN
        invariant
            0 <= i <= 32,
            forall|j: int| 0 <= j < i ==> info.valids@[j] == 0,
            info.entries == old(info).entries,
        decreases 32 - i,
    {
        info.valids[i] = 0;
        i = i + 1;
    }
    proof {
        assert forall|s: int| 0 <= s < STLB_MAX_SETS implies !set_valid_in(info.valids@, s) by {
            let b = (s % 64) as u64;
            assert(info.valids@[s / 64] == 0);
            crate::bits::lemma_u64_facts(0, b, 0);
        }
    }
}


/// A way at or after `w` of set `s` translating `va` makes the search
/// from `w` find an entry that translates it.
proof fn lemma_first_way_finds(entries: Seq<u64>, s: int, w: int, w0: int, va: u32, asid: u32)
    requires
        0 <= w <= w0 < 4,
        spec_stlb_check(va, asid, entries[s * 4 + w0]),
    ensures
        first_way(entries, s, w, va, asid) != 0,
        spec_stlb_check(va, asid, first_way(entries, s, w, va, asid)),
    decreases 4 - w,
{
    if !spec_stlb_check(va, asid, entries[s * 4 + w]) {
        lemma_first_way_finds(entries, s, w + 1, w0, va, asid);
    }
}

/// Once an entry translating `va` for `asid` is added, a lookup of `va`
/// finds an entry that translates it (the added one, or an earlier way
/// of the same set that also does).
pub proof fn law_lookup_after_add(
    before: StlbAsidInfo,
    after: StlbAsidInfo,
    va: u32,
    asid: u32,
    entry: u64,
    way: u32,
)
    requires
        before.wf(),
        before.entries@.len() != 0,
        way < STLB_MAX_WAYS,
        spec_stlb_check(va, asid, entry),
        after.entries@ == stlb_cleared(before.valids@, before.entries@, set_of(va) as int, asid).update(
            set_of(va) as int * 4 + way,
            entry,
        ),
        forall|s2: int| 0 <= s2 < STLB_MAX_SETS ==> #[trigger] set_valid_in(after.valids@, s2) == (set_valid_in(
            before.valids@,
            s2,
        ) || s2 == set_of(va) as int),
    ensures
        spec_lookup(va, asid, after) != 0,
        spec_stlb_check(va, asid, spec_lookup(va, asid, after)),
{
    let s = set_of(va) as int;
    crate::bits::lemma_u32_masks(va);
    assert(set_valid_in(after.valids@, s));
    assert(after.entries@.len() == ENTRIES_PER_ASID);
    assert(after.entries@[s * 4 + way] == entry);
    lemma_first_way_finds(after.entries@, s, 0, way as int, va, asid);
}

/// After the STLB of an ASID is forgotten, no lookup finds anything.
pub proof fn law_invalidate_asid_forgets(info: StlbAsidInfo, va: u32, asid: u32)
    requires
        forall|s: int| 0 <= s < STLB_MAX_SETS ==> !set_valid_in(info.valids@, s),
    ensures
        spec_lookup(va, asid, info) == 0,
{
    crate::bits::lemma_u32_masks(va);
}


proof fn lemma_page_set(p: u32)
    by (bit_vector)
    requires
        p < 0x10_0000,
    ensures
        ((p << 12u32) >> 12u32) & 0x7FF == p & 0x7FF,
        p & 0x7FF < 2048,
{
}

/// After the pages of `count` bytes from `va` are invalidated for `asid`
/// (a range that does not wrap around), a lookup of any page in the range
/// finds nothing for `asid`.
pub proof fn law_invalidate_va_forgets(before: StlbAsidInfo, after: StlbAsidInfo, va: u32, count: u32, asid: u32, p: u32)
    requires
        before.wf(),
        after.valids == before.valids,
        after.entries@.len() == before.entries@.len(),
        forall|i: int|
            0 <= i < before.entries@.len() ==> #[trigger] after.entries@[i] == if set_valid_in(before.valids@, i / 4)
                && hit_in_range(
                va >> 12u32,
                vstd::wrapping::u32_specs::wrapping_sub(vstd::wrapping::u32_specs::wrapping_add(va, count), 1) >> 12u32,
                i / 4,
                asid,
                before.entries@[i],
            ) {
                0u64
            } else {
                before.entries@[i]
            },
        va >> 12u32 <= p,
        p <= vstd::wrapping::u32_specs::wrapping_sub(vstd::wrapping::u32_specs::wrapping_add(va, count), 1) >> 12u32,
    ensures
        spec_lookup(p << 12u32, asid, after) == 0,
{
    let start = va >> 12u32;
    let end = vstd::wrapping::u32_specs::wrapping_sub(vstd::wrapping::u32_specs::wrapping_add(va, count), 1) >> 12u32;
    let x = vstd::wrapping::u32_specs::wrapping_sub(vstd::wrapping::u32_specs::wrapping_add(va, count), 1);
    crate::bits::lemma_u32_masks(x);
    assert(end < 0x10_0000) by {
        assert(x >> 12u32 <= 0xF_FFFF) by (bit_vector);
    }
    lemma_page_set(p);
    let s = set_of(p << 12u32) as int;
    assert(s == (p & 0x7FF) as int);
    if after.entries@.len() != 0 && set_valid_in(after.valids@, s) {
        assert(after.entries@.len() == ENTRIES_PER_ASID);
        assert forall|w: int| 0 <= w < 4 implies !spec_stlb_check(p << 12u32, asid, #[trigger] after.entries@[s * 4 + w]) by {
            let i = s * 4 + w;
            assert(i / 4 == s);
            if !(set_valid_in(before.valids@, i / 4) && hit_in_range(start, end, i / 4, asid, before.entries@[i])) {
                assert(after.entries@[i] == before.entries@[i]);
                if spec_stlb_check(p << 12u32, asid, before.entries@[i]) {
                    assert(((p & 0x7FF) as int) == i / 4);
                    assert(hit_in_range(start, end, i / 4, asid, before.entries@[i]));
                }
            }
        }
        assert(!spec_stlb_check(p << 12u32, asid, after.entries@[s * 4 + 0]));
        assert(!spec_stlb_check(p << 12u32, asid, after.entries@[s * 4 + 1]));
        assert(!spec_stlb_check(p << 12u32, asid, after.entries@[s * 4 + 2]));
        assert(!spec_stlb_check(p << 12u32, asid, after.entries@[s * 4 + 3]));
        reveal_with_fuel(first_way, 5);
    }
}

} // verus!
