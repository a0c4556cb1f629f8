//! ASID table: 128 reference-counted entries, found by hashing the page
//! table base and probing with an odd stride from the hash.

use vstd::prelude::*;
use crate::types::asid::{AsidEntry, AsidEntryFields, TranslationType};
use crate::types::consts::{ASID_BITS, MAX_ASIDS};

verus! {

/// Multiplier of the ASID hash.
pub const ASID_HASH_MULT: u32 = 2654435761;

/// Hash of a page table base: the top `ASID_BITS` bits of the product.
pub open spec fn spec_asid_hash(ptb: u32) -> u32 {
    (vstd::wrapping::u32_specs::wrapping_mul(ptb, ASID_HASH_MULT) >> 25u32) & 0x7F
}

/// Next index of a probe with stride `chain`, modulo the table size.
pub open spec fn spec_next_idx(idx: u32, chain: u32) -> u32 {
    vstd::wrapping::u32_specs::wrapping_add(idx, chain) & 0x7F
}

/// Index visited after `k` steps of the probe from `start`.
pub open spec fn probe(start: u32, chain: u32, k: nat) -> u32
    decreases k,
{
    if k == 0 {
        start
    } else {
        spec_next_idx(probe(start, chain, (k - 1) as nat), chain)
    }
}

/// Number of bits needed to write `x`.
pub open spec fn bit_width(x: u32) -> nat
    decreases x,
{
    if x == 0 {
        0
    } else {
        1 + bit_width(x / 2)
    }
}

/// Hash a page table base to the ASID where its probe starts.
pub fn asid_hash(ptb: u32) -> (r: u32)
    ensures
        r == spec_asid_hash(ptb),
        r < MAX_ASIDS,
{
    let product = ptb.wrapping_mul(ASID_HASH_MULT);
    proof {
        crate::bits::lemma_const_shifts();
        crate::bits::lemma_u32_masks(product);
    }
    (product >> (32 - ASID_BITS)) & ((1u32 << ASID_BITS) - 1)
}

/// Next index of a probe.
pub fn next_idx(idx: u32, chain: u32) -> (r: u32)
    ensures
        r == spec_next_idx(idx, chain),
        r < MAX_ASIDS,
{
    proof {
        crate::bits::lemma_const_shifts();
        crate::bits::lemma_u32_masks(vstd::wrapping::u32_specs::wrapping_add(idx, chain));
    }
    (idx.wrapping_add(chain)) & ((1u32 << ASID_BITS) - 1)
}

proof fn lemma_bit_width_step(x: u32, h: u32, r: u32, r1: u32, r2: u32, l: u32)
    by (bit_vector)
    requires
        h == x / 2,
        r >= 1 ==> r1 == r - 1,
        r >= 2 ==> r2 == r - 2,
    ensures
        1 <= r && (x >> r1) & 1 == 1 ==> x != 0,
        r == 1 && x >> r == 0 ==> h == 0,
        2 <= r <= 32 && x >> r == 0 && (x >> r1) & 1 == 1 ==> h >> r1 == 0 && (h >> r2) & 1 == 1,
        l < 16 ==> 1u32 << l <= 0x8000,
{
}

proof fn lemma_bit_width(x: u32, r: u32)
    requires
        1 <= r <= 32,
        x >> r == 0,
        (x >> ((r - 1) as u32)) & 1 == 1,
    ensures
        bit_width(x) == r,
    decreases r,
{
    let r1 = (r - 1) as u32;
    let h = x / 2;
    let r2 = if r >= 2 { (r - 2) as u32 } else { 0 };
    lemma_bit_width_step(x, h, r, r1, r2, 0);
    assert(bit_width(x) == 1 + bit_width(x / 2));
    if r == 1 {
        assert(bit_width(0) == 0);
    } else {
        lemma_bit_width(h, r1);
    }
}

/// Bit width of `x`: the smallest `k` with `2^k > x`.
pub fn log2_greater(x: u32) -> (r: u32)
    ensures
        r == bit_width(x),
{
    if x == 0 {
        return 0;
    }
    let lz = x.leading_zeros();
    proof {
        vstd::std_specs::bits::axiom_u32_leading_zeros(x);
        assert(lz < 32);
        let r = (32 - lz) as u32;
        let r1 = (31 - lz) as u32;
        assert(vstd::std_specs::bits::u32_leading_zeros(x) == lz);
        assert((x >> r1) & 1u32 != 0u32);
        assert(x >> r == 0);
        crate::bits::lemma_u32_facts(x, 0, 0, r1);
        lemma_bit_width(x, r);
    }
    32 - lz
}

/// `e` is the entry of page table base `ptb` in VM `vmidx` with
/// translation type `trans_type`.
pub open spec fn entry_matches(e: AsidEntry, ptb: u32, vmidx: u8, trans_type: u8) -> bool {
    &&& e.ptb == ptb
    &&& e.fields.spec_vmid() == vmidx
    &&& e.fields.spec_trans_type() == trans_type
}

fn asid_match(entry: &AsidEntry, ptb: u32, vmidx: u8, trans_type: u8) -> (r: bool)
    ensures
        r == entry_matches(*entry, ptb, vmidx, trans_type),
{
    entry.ptb == ptb && entry.fields.vmid() == vmidx && entry.fields.trans_type() == trans_type
}

/// Stride of the probe from `start`: always odd, so every index is visited.
pub open spec fn chain_of(start: u32) -> u32 {
    start | 1
}

/// First of the probe positions `k..=limit` from `start` whose entry
/// matches.
pub open spec fn first_hit(
    entries: Seq<AsidEntry>,
    start: u32,
    k: nat,
    limit: nat,
    ptb: u32,
    vmidx: u8,
    trans_type: u8,
) -> Option<u32>
    decreases limit + 1 - k,
{
    if k > limit {
        None
    } else if entry_matches(entries[probe(start, chain_of(start), k) as int], ptb, vmidx, trans_type) {
        Some(probe(start, chain_of(start), k))
    } else {
        first_hit(entries, start, k + 1, limit, ptb, vmidx, trans_type)
    }
}

/// First of the probe positions `k..128` from `start` whose entry is
/// unreferenced, with its distance from `start`.
pub open spec fn first_free(entries: Seq<AsidEntry>, start: u32, k: nat) -> Option<(u32, u32)>
    decreases 128 - k,
{
    if k >= 128 {
        None
    } else if entries[probe(start, chain_of(start), k) as int].fields.spec_count() == 0 {
        Some((probe(start, chain_of(start), k), k as u32))
    } else {
        first_free(entries, start, k + 1)
    }
}

/// Probe limit recorded at `start`.
pub open spec fn probe_limit(entries: Seq<AsidEntry>, start: u32) -> nat {
    (1u32 << entries[start as int].fields.spec_log_maxhops()) as nat
}

/// The ASID of a lookup, if any: the first matching entry within the
/// probe limit recorded at the hash of `ptb`.
pub open spec fn spec_search(entries: Seq<AsidEntry>, ptb: u32, vmidx: u8, trans_type: u8) -> Option<u32> {
    let start = spec_asid_hash(ptb);
    first_hit(entries, start, 0, probe_limit(entries, start), ptb, vmidx, trans_type)
}

/// The start entry after a free slot was found `hops` steps away: its
/// probe limit grows to cover the distance.
pub open spec fn with_hops(e: AsidEntry, hops: u32) -> AsidEntry {
    if bit_width(hops) as u8 > e.fields.spec_log_maxhops() {
        AsidEntry { ptb: e.ptb, fields: e.fields.spec_set(0xF, 22, bit_width(hops) as u8 as u32) }
    } else {
        e
    }
}

/// The entry with its reference count raised, saturating at 0xFFF.
pub open spec fn bumped(e: AsidEntry) -> AsidEntry {
    if e.fields.spec_count() < 0xFFF {
        AsidEntry { ptb: e.ptb, fields: e.fields.spec_set(0xFFF, 0, (e.fields.spec_count() + 1) as u32) }
    } else {
        e
    }
}

/// A fresh entry with one reference.
pub open spec fn fresh_entry(ptb: u32, trans_type: TranslationType, vmidx: u8, extra: u8) -> AsidEntry {
    AsidEntry {
        ptb,
        fields: AsidEntryFields(0).spec_set(0x3, 20, trans_type.spec_raw() as u32).spec_set(0xFF, 12, vmidx as u32).spec_set(
            0xFFF,
            0,
            1,
        ).spec_set(0x3F, 26, extra as u32),
    }
}

proof fn lemma_probe_range(start: u32, k: nat)
    requires
        start < 128,
    ensures
        probe(start, chain_of(start), k) < 128,
    decreases k,
{
    if k > 0 {
        lemma_probe_range(start, (k - 1) as nat);
        crate::bits::lemma_u32_masks(vstd::wrapping::u32_specs::wrapping_add(probe(start, chain_of(start), (k - 1) as nat), chain_of(start)));
    }
}

/// What `inc` does: entries `e0` become `e1`, the flush list `inv0`
/// becomes `inv1`, and `r` is returned.
pub open spec fn inc_effect(
    e0: Seq<AsidEntry>,
    e1: Seq<AsidEntry>,
    inv0: Seq<u32>,
    inv1: Seq<u32>,
    ptb: u32,
    trans_type: TranslationType,
    invalidate: bool,
    extra: u8,
    vmidx: u8,
    r: i32,
) -> bool {
    match spec_search(e0, ptb, vmidx, trans_type.spec_raw()) {
            Some(i) => {
                &&& r == i
                &&& e1 == e0.update(i as int, bumped(e0[i as int]))
                &&& inv1 == (if invalidate {
                    inv0.push(i)
                } else {
                    inv0
                })
            },
            None => match first_free(e0, spec_asid_hash(ptb), 0) {
                Some((i, hops)) => {
                    &&& r == i
                    &&& e1 == e0.update(
                        spec_asid_hash(ptb) as int,
                        with_hops(e0[spec_asid_hash(ptb) as int], hops),
                    ).update(i as int, fresh_entry(ptb, trans_type, vmidx, extra))
                    &&& inv1 == inv0.push(i)
                },
                None => {
                    &&& r == -1
                    &&& e1 == e0
                    &&& inv1 == inv0
                },
            },
        }
}

/// The table of address space identifiers.
pub struct AsidTable {
    pub entries: [AsidEntry; 128],
}

impl AsidTable {
    /// A table of empty entries.
    pub fn new() -> (r: Self)
        ensures
            forall|i: int| 0 <= i < 128 ==> (#[trigger] r.entries@[i]).spec_is_empty(),
    {
        AsidTable { entries: [AsidEntry { ptb: 0, fields: AsidEntryFields(0) }; 128] }
    }

    /// Empty every entry.
    pub fn init(&mut self)
        ensures
            forall|i: int| 0 <= i < 128 ==> (#[trigger] final(self).entries@[i]).spec_is_empty(),
    {
        let mut i: usize = 0;
        while i < 128
            invariant
                0 <= i <= 128,
                forall|j: int| 0 <= j < i ==> (#[trigger] self.entries@[j]).spec_is_empty(),
            decreases 128 - i,
        {
            self.entries[i] = AsidEntry::empty();
            i = i + 1;
        }
    }

    /// Look up the entry of (`ptb`, `vmidx`, `trans_type`).
    pub fn search(&self, ptb: u32, vmidx: u8, trans_type: u8) -> (r: Option<u32>)
        ensures
            r == spec_search(self.entries@, ptb, vmidx, trans_type),
            r matches Some(i) ==> i < MAX_ASIDS && entry_matches(self.entries@[i as int], ptb, vmidx, trans_type),
    {
        let start_idx = asid_hash(ptb);
        let chain = start_idx | 1;
        let lmh = self.entries[start_idx as usize].fields.log_maxhops();
        proof {
            lemma_bit_width_step(0, 0, 0, 0, 0, lmh as u32);
        }
        let max_hops = 1u32 << lmh;
        let ghost limit = max_hops as nat;
        let mut idx = start_idx;
        let mut k: u32 = 0;
        while k <= max_hops
            invariant
                start_idx == spec_asid_hash(ptb),
                start_idx < 128,
                chain == chain_of(start_idx),
                limit == probe_limit(self.entries@, start_idx),
                limit == max_hops,
                max_hops <= 0x8000,
                k <= max_hops + 1,
                idx == probe(start_idx, chain, k as nat),
                first_hit(self.entries@, start_idx, 0, limit, ptb, vmidx, trans_type) == first_hit(
                    self.entries@,
                    start_idx,
                    k as nat,
                    limit,
                    ptb,
                    vmidx,
                    trans_type,
                ),
            decreases max_hops + 1 - k,
        {
            proof {
                lemma_probe_range(start_idx, k as nat);
            }
            if asid_match(&self.entries[idx as usize], ptb, vmidx, trans_type) {
                return Some(idx);
            }
            idx = next_idx(idx, chain);
            k = k + 1;
        }
        None
    }

    /// Find an unreferenced entry along the probe of `ptb`, raising the
    /// probe limit recorded at the hash to cover it.
    pub fn find_eviction_slot(&mut self, ptb: u32) -> (r: Option<u32>)
        ensures
            match first_free(old(self).entries@, spec_asid_hash(ptb), 0) {
                Some((i, hops)) => {
                    &&& r == Some(i)
                    &&& final(self).entries@ == old(self).entries@.update(
                        spec_asid_hash(ptb) as int,
                        with_hops(old(self).entries@[spec_asid_hash(ptb) as int], hops),
                    )
                },
                None => r is None && final(self).entries@ == old(self).entries@,
            },
            r matches Some(i) ==> i < MAX_ASIDS,
    {
        let start_idx = asid_hash(ptb);
        let chain = start_idx | 1;
        let mut idx = start_idx;
        let mut hops: u32 = 0;
        while hops < MAX_ASIDS
            invariant
                start_idx == spec_asid_hash(ptb),
                start_idx < 128,
                chain == chain_of(start_idx),
                hops <= 128,
                idx == probe(start_idx, chain, hops as nat),
                self.entries@ == old(self).entries@,
                first_free(self.entries@, start_idx, 0) == first_free(self.entries@, start_idx, hops as nat),
            decreases 128 - hops,
        {
            proof {
                lemma_probe_range(start_idx, hops as nat);
            }
            if self.entries[idx as usize].fields.count() == 0 {
                let log_maxhops = log2_greater(hops) as u8;
                let old_lmh = self.entries[start_idx as usize].fields.log_maxhops();
                if log_maxhops > old_lmh {
                    let e = self.entries[start_idx as usize];
                    self.entries[start_idx as usize] = AsidEntry { ptb: e.ptb, fields: e.fields.with_log_maxhops(log_maxhops) };
                }
                return Some(idx);
            }
            idx = next_idx(idx, chain);
            hops = hops + 1;
        }
        None
    }

    /// Take a reference on the entry of (`ptb`, `vmidx`, `trans_type`),
    /// creating it in a free slot if there is none; returns its ASID, or
    /// -1 when the table is full. The ASIDs whose cached translations
    /// must be flushed are appended to `invalidated`: a new entry always,
    /// an existing one when `invalidate` is set.
    pub fn inc(
        &mut self,
        ptb: u32,
        trans_type: TranslationType,
        invalidate: bool,
        extra: u8,
        vmidx: u8,
        invalidated: &mut Vec<u32>,
    ) -> (r: i32)
        ensures
            inc_effect(
                old(self).entries@,
                final(self).entries@,
                old(invalidated)@,
                final(invalidated)@,
                ptb,
                trans_type,
                invalidate,
                extra,
                vmidx,
                r,
            ),
    {
        let ttype = trans_type.raw();
        if let Some(idx) = self.search(ptb, vmidx, ttype) {
            let e = self.entries[idx as usize];
            let count = e.fields.count();
            if count < 0xFFF {
                self.entries[idx as usize] = AsidEntry { ptb: e.ptb, fields: e.fields.with_count(count + 1) };
            }
            proof {
                assert(self.entries@ =~= old(self).entries@.update(idx as int, bumped(old(self).entries@[idx as int])));
            }
            if invalidate {
                invalidated.push(idx);
            }
            return idx as i32;
        }
        if let Some(idx) = self.find_eviction_slot(ptb) {
            let fields = AsidEntryFields(0).with_type(trans_type).with_vmid(vmidx).with_count(1).with_extra(extra);
            let ghost e_mid = self.entries@;
            self.entries[idx as usize] = AsidEntry { ptb, fields };
            proof {
                assert(self.entries@ =~= e_mid.update(idx as int, fresh_entry(ptb, trans_type, vmidx, extra)));
            }
            invalidated.push(idx);
            return idx as i32;
        }
        -1
    }

    /// Drop a reference on entry `asid`; the count stays at 0 once there.
    pub fn dec(&mut self, asid: u32)
        requires
            asid < MAX_ASIDS,
        ensures
            final(self).entries@ == old(self).entries@.update(
                asid as int,
                if old(self).entries@[asid as int].fields.spec_count() > 0 {
                    AsidEntry {
                        ptb: old(self).entries@[asid as int].ptb,
                        fields: old(self).entries@[asid as int].fields.spec_set(
                            0xFFF,
                            0,
                            (old(self).entries@[asid as int].fields.spec_count() - 1) as u32,
                        ),
                    }
                } else {
                    old(self).entries@[asid as int]
                },
            ),
    {
        let e = self.entries[asid as usize];
        let count = e.fields.count();
        if count > 0 {
            self.entries[asid as usize] = AsidEntry { ptb: e.ptb, fields: e.fields.with_count(count - 1) };
        }
    }

    /// The entry of `asid`.
    pub fn get(&self, asid: u32) -> (r: &AsidEntry)
        requires
            asid < MAX_ASIDS,
        ensures
            *r == self.entries@[asid as int],
    {
        &self.entries[asid as usize]
    }
}

impl Default for AsidTable {
    fn default() -> (r: Self)
        ensures
            forall|i: int| 0 <= i < 128 ==> (#[trigger] r.entries@[i]).spec_is_empty(),
    {
        Self::new()
    }
}


/// The fields of an ASID entry word kept or set by the updates `inc`
/// makes: a new count leaves VM and type alone, and a fresh word holds
/// the VM, type and count it was built with.
proof fn lemma_fields_bits(x: u32, c: u32, t: u32, vm: u32, ex: u32, y: u32, f: u32)
    by (bit_vector)
    ensures
        c <= 0xFFF && y == (x & !(0xFFFu32 << 0u32)) | ((c & 0xFFF) << 0u32) ==> (y >> 12u32) & 0xFF == (x >> 12u32) & 0xFF && (y
            >> 20u32) & 0x3 == (x >> 20u32) & 0x3 && y & 0xFFF == c,
        t <= 3 && vm <= 0xFF && f == ((((((0u32 & !(0x3u32 << 20u32)) | ((t & 0x3) << 20u32)) & !(0xFFu32 << 12u32)) | ((vm
            & 0xFF) << 12u32)) & !(0xFFFu32 << 0u32)) | ((1u32 & 0xFFF) << 0u32)) & !(0x3Fu32 << 26u32) | ((ex & 0x3F) << 26u32)
            ==> (f >> 12u32) & 0xFF == vm && (f >> 20u32) & 0x3 == t && f & 0xFFF == 1,
{
}

proof fn lemma_first_hit_matches(
    entries: Seq<AsidEntry>,
    start: u32,
    k: nat,
    limit: nat,
    ptb: u32,
    vmidx: u8,
    trans_type: u8,
)
    requires
        start < 128,
    ensures
        first_hit(entries, start, k, limit, ptb, vmidx, trans_type) matches Some(p) ==> p < 128 && entry_matches(
            entries[p as int],
            ptb,
            vmidx,
            trans_type,
        ),
    decreases limit + 1 - k,
{
    lemma_probe_range(start, k);
    if k <= limit && !entry_matches(entries[probe(start, chain_of(start), k) as int], ptb, vmidx, trans_type) {
        lemma_first_hit_matches(entries, start, k + 1, limit, ptb, vmidx, trans_type);
    }
}

proof fn lemma_first_free_range(entries: Seq<AsidEntry>, start: u32, k: nat)
    requires
        start < 128,
    ensures
        first_free(entries, start, k) matches Some((i, h)) ==> i < 128,
    decreases 128 - k,
{
    lemma_probe_range(start, k);
    if k < 128 && entries[probe(start, chain_of(start), k) as int].fields.spec_count() != 0 {
        lemma_first_free_range(entries, start, k + 1);
    }
}

/// The ASID that `inc` hands out names an entry of the address space it
/// was asked for: same page table base, VM and translation type.
pub proof fn law_inc_names_entry(
    e0: Seq<AsidEntry>,
    e1: Seq<AsidEntry>,
    inv0: Seq<u32>,
    inv1: Seq<u32>,
    ptb: u32,
    trans_type: TranslationType,
    invalidate: bool,
    extra: u8,
    vmidx: u8,
    r: i32,
)
    requires
        e0.len() == MAX_ASIDS,
        inc_effect(e0, e1, inv0, inv1, ptb, trans_type, invalidate, extra, vmidx, r),
        r >= 0,
    ensures
        r < MAX_ASIDS,
        entry_matches(e1[r as int], ptb, vmidx, trans_type.spec_raw()),
{
    let start = spec_asid_hash(ptb);
    crate::bits::lemma_u32_masks(vstd::wrapping::u32_specs::wrapping_mul(ptb, ASID_HASH_MULT));
    lemma_first_hit_matches(e0, start, 0, probe_limit(e0, start), ptb, vmidx, trans_type.spec_raw());
    lemma_first_free_range(e0, start, 0);
    match spec_search(e0, ptb, vmidx, trans_type.spec_raw()) {
        Some(i) => {
            let e = e0[i as int];
            if e.fields.spec_count() < 0xFFF {
                let x = e.fields.0;
                let c = (e.fields.spec_count() + 1) as u32;
                lemma_fields_bits(x, c, 0, 0, 0, (x & !(0xFFFu32 << 0u32)) | ((c & 0xFFF) << 0u32), 0);
            }
        },
        None => {
            if let Some((i, hops)) = first_free(e0, start, 0) {
                let t = trans_type.spec_raw() as u32;
                let vm = vmidx as u32;
                let ex = extra as u32;
                let f = ((((((0u32 & !(0x3u32 << 20u32)) | ((t & 0x3) << 20u32)) & !(0xFFu32 << 12u32)) | ((vm & 0xFF) << 12u32))
                    & !(0xFFFu32 << 0u32)) | ((1u32 & 0xFFF) << 0u32)) & !(0x3Fu32 << 26u32) | ((ex & 0x3F) << 26u32);
                lemma_fields_bits(0, 0, t, vm, ex, 0, f);
                assert(fresh_entry(ptb, trans_type, vmidx, extra).fields.0 == f);
            }
        },
    }
}

} // verus!
