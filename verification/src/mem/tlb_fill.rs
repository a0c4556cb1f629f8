//! Hardware TLB miss handling: look in the software TLB first, else
//! translate, encode the result as a TLB entry, cache it and insert it,
//! or raise a page fault when the translation grants no access.

use vstd::prelude::*;
use crate::types::asid::AsidEntry;
use crate::types::consts::PAGE_SIZE_MAX;
use crate::types::translate::Translation;

verus! {

/// High word of the TLB entry of `va` in `asid` mapping physical page
/// `pn`: virtual page (bits 0..=19), ASID (20..=26), physical address
/// bits 36..=37 (27..=28) and 35 (29), valid (31).
pub open spec fn spec_tlb_hi(va: u32, asid: u32, pn: u32) -> u32 {
    ((va >> 12u32) & 0x000F_FFFF) | ((asid & 0x7F) << 20u32) | (1u32 << 31u32) | (((pn >> 23u32) & 0x1) << 29u32) | (((pn
        >> 24u32) & 0x3) << 27u32)
}

/// Page size of the TLB entry: the translation's, at most `PAGE_SIZE_MAX`.
pub open spec fn spec_tlb_size(size: u8) -> u32 {
    if size as u32 > PAGE_SIZE_MAX as u32 {
        PAGE_SIZE_MAX as u32
    } else {
        size as u32
    }
}

/// Low word of the TLB entry: the physical page number above the page
/// size, shifted up one, with a marker bit at the page size (bits
/// 0..=23), cache attributes (24..=27) and permissions (28..=31).
pub open spec fn spec_tlb_lo(pn: u32, tlbsize: u32, cccc: u8, xwru: u8) -> u32 {
    let ppd = ((pn & ((!0u32) << tlbsize)) << 1u32) | (1u32 << tlbsize);
    (ppd & 0x00FF_FFFF) | (((cccc as u32) & 0xF) << 24u32) | (((xwru as u32) & 0xF) << 28u32)
}

/// The TLB entry for `trans` of `va` in `asid`; 0 when it grants neither
/// read nor write.
pub open spec fn spec_tlbfmt(trans: Translation, va: u32, asid: u32) -> u64 {
    if (trans.spec_xwru() & 0x6) == 0 {
        0
    } else {
        ((spec_tlb_hi(va, asid, trans.spec_pn()) as u64) << 32u64) | (spec_tlb_lo(
            trans.spec_pn(),
            spec_tlb_size(trans.spec_size()),
            trans.spec_cccc(),
            trans.spec_xwru(),
        ) as u64)
    }
}

/// Encode a translation as a hardware TLB entry.
pub fn tlbfmt_from_translation(trans: Translation, va: u32, asid: u32) -> (r: u64)
    ensures
        r == spec_tlbfmt(trans, va, asid),
{
    if (trans.xwru() & 0b0110) == 0 {
        return 0;
    }
    let vpn = va >> 12u32;
    let mut hi = (vpn & 0x000F_FFFF) | ((asid & 0x7F) << 20u32) | (1u32 << 31u32);
    hi = hi | (((trans.pn() >> 23u32) & 0x1) << 29u32);
    hi = hi | (((trans.pn() >> 24u32) & 0x3) << 27u32);
    let mut tlbsize = trans.size() as u32;
    if tlbsize > PAGE_SIZE_MAX as u32 {
        tlbsize = PAGE_SIZE_MAX as u32;
    }
    let ppn = trans.pn();
    let ppn_masked = ppn & ((!0u32) << tlbsize);
    let ppd_base = (ppn_masked << 1u32) | (1u32 << tlbsize);
    let lo = (ppd_base & 0x00FF_FFFF) | (((trans.cccc() as u32) & 0xF) << 24u32) | (((trans.xwru() as u32) & 0xF) << 28u32);
    ((hi as u64) << 32u64) | (lo as u64)
}

/// A call that TLB miss handling makes on its context to change the
/// system.
#[derive(Clone, Copy, Debug, PartialEq, Eq)]
pub enum FillCall {
    /// `stlb_add(va, asid, entry)`.
    StlbAdd(u32, u32, u64),
    /// `tlb_insert(entry)`.
    TlbInsert(u64),
    /// `pagefault(va)`.
    PageFault(u32),
}

/// What TLB miss handling needs from the rest of the system. The system
/// implements it.
///
/// Each query answers as a function of its arguments and of the context's
/// state, named by the `spec_` function beside it, and an implementation
/// must return exactly that. `spec_calls` is the log of the calls that
/// change the system, in order: each of them appends itself to it.
pub trait TlbFillCtx {
    /// What `asid_entry` returns.
    spec fn spec_asid_entry(&self, asid: u32) -> AsidEntry;

    /// What `stlb_lookup` returns.
    spec fn spec_stlb_lookup(&self, va: u32, asid: u32) -> u64;

    /// What `translate` returns.
    spec fn spec_translate(&self, input: Translation, info: AsidEntry) -> Translation;

    /// The calls made so far that change the system.
    spec fn spec_calls(&self) -> Vec<FillCall>;

    /// The ASID table entry of `asid`.
    fn asid_entry(&self, asid: u32) -> (r: AsidEntry)
        ensures
            r == self.spec_asid_entry(asid),
    ;

    /// The cached TLB entry of `va` in `asid`, or 0.
    fn stlb_lookup(&self, va: u32, asid: u32) -> (r: u64)
        ensures
            r == self.spec_stlb_lookup(va, asid),
    ;

    /// Cache a TLB entry.
    fn stlb_add(&mut self, va: u32, asid: u32, entry: u64)
        ensures
            final(self).spec_calls()@ == old(self).spec_calls()@.push(FillCall::StlbAdd(va, asid, entry)),
    ;

    /// Insert an entry into the hardware TLB.
    fn tlb_insert(&mut self, entry: u64)
        ensures
            final(self).spec_calls()@ == old(self).spec_calls()@.push(FillCall::TlbInsert(entry)),
    ;

    /// Translate through an ASID entry.
    fn translate(&self, input: Translation, info: AsidEntry) -> (r: Translation)
        ensures
            r == self.spec_translate(input, info),
    ;

    /// Raise a page fault at `va`.
    fn pagefault(&mut self, va: u32)
        ensures
            final(self).spec_calls()@ == old(self).spec_calls()@.push(FillCall::PageFault(va)),
    ;
}

/// The calls that handling a miss at `va` in `asid` makes on `ctx`: a
/// cached entry is inserted as it is; otherwise the default translation
/// of `va` is translated through the ASID entry and encoded, and the
/// entry is cached and inserted, or a page fault is raised when the
/// encoding is 0.
pub open spec fn spec_tlb_fill_calls<C: TlbFillCtx>(ctx: &C, va: u32, asid: u32) -> Seq<FillCall> {
    let cached = ctx.spec_stlb_lookup(va, asid);
    if cached != 0 {
        seq![FillCall::TlbInsert(cached)]
    } else {
        let trans = ctx.spec_translate(Translation::spec_default_for_va(va), ctx.spec_asid_entry(asid));
        let entry = spec_tlbfmt(trans, va, asid);
        if entry == 0 {
            seq![FillCall::PageFault(va)]
        } else {
            seq![FillCall::StlbAdd(va, asid, entry), FillCall::TlbInsert(entry)]
        }
    }
}

/// Handle a TLB miss at `va` in `asid`.
pub fn tlb_fill<C: TlbFillCtx>(ctx: &mut C, va: u32, asid: u32)
    ensures
        final(ctx).spec_calls()@ == old(ctx).spec_calls()@ + spec_tlb_fill_calls(old(ctx), va, asid),
{
    let cached = ctx.stlb_lookup(va, asid);
    if cached != 0 {
        ctx.tlb_insert(cached);
        return ;
    }
    let info = ctx.asid_entry(asid);
    let trans = Translation::default_for_va(va);
    let result = ctx.translate(trans, info);
    let entry = tlbfmt_from_translation(result, va, asid);
    if entry == 0 {
        ctx.pagefault(va);
    } else {
        ctx.stlb_add(va, asid, entry);
        ctx.tlb_insert(entry);
    }
}


proof fn lemma_entry_words(hi: u32, lo: u32, e: u64)
    by (bit_vector)
    requires
        e == ((hi as u64) << 32u64) | (lo as u64),
    ensures
        (e >> 32u64) as u32 == hi,
        e as u32 == lo,
        (e >> 63u64) & 1 == (hi >> 31u32) & 1,
{
}

proof fn lemma_entry_fields(va: u32, asid: u32, pn: u32, hi: u32, lo_rest: u32, cccc: u32, xwru: u32, lo: u32)
    by (bit_vector)
    requires
        hi == ((va >> 12u32) & 0x000F_FFFF) | ((asid & 0x7F) << 20u32) | (1u32 << 31u32) | (((pn >> 23u32) & 0x1) << 29u32) | (((
        pn >> 24u32) & 0x3) << 27u32),
        lo == (lo_rest & 0x00FF_FFFF) | ((cccc & 0xF) << 24u32) | ((xwru & 0xF) << 28u32),
    ensures
        lo & 0x00FF_FFFF == lo_rest & 0x00FF_FFFF,
        (hi >> 29u32) & 1 == (pn >> 23u32) & 1,
        (hi >> 27u32) & 3 == (pn >> 24u32) & 3,
        hi & 0x000F_FFFF == (va >> 12u32) & 0x000F_FFFF,
        (hi >> 20u32) & 0x7F == asid & 0x7F,
        (hi >> 31u32) & 1 == 1,
        (lo >> 24u32) & 0xF == cccc & 0xF,
        (lo >> 28u32) & 0xF == xwru & 0xF,
{
}

/// The entry made for a translation carries what the TLB matches on and
/// grants: the virtual page and ASID it was made for, the valid bit, the
/// translation's cache attributes and permissions, physical page bits
/// 23..=25 in the high word, and in its page field
/// the translation's physical page above the page size (at most the
/// largest TLB page size), shifted up one, with the marker bit at the
/// page size.
pub proof fn law_entry_fields(trans: Translation, va: u32, asid: u32)
    requires
        (trans.spec_xwru() & 0x6) != 0,
    ensures
        ((spec_tlbfmt(trans, va, asid) >> 32u64) as u32) & 0x000F_FFFF == (va >> 12u32) & 0x000F_FFFF,
        (((spec_tlbfmt(trans, va, asid) >> 32u64) as u32) >> 20u32) & 0x7F == asid & 0x7F,
        (spec_tlbfmt(trans, va, asid) >> 63u64) & 1 == 1,
        ((spec_tlbfmt(trans, va, asid) as u32) >> 24u32) & 0xF == (trans.spec_cccc() as u32) & 0xF,
        ((spec_tlbfmt(trans, va, asid) as u32) >> 28u32) & 0xF == (trans.spec_xwru() as u32) & 0xF,
        (((spec_tlbfmt(trans, va, asid) >> 32u64) as u32) >> 29u32) & 1 == (trans.spec_pn() >> 23u32) & 1,
        (((spec_tlbfmt(trans, va, asid) >> 32u64) as u32) >> 27u32) & 3 == (trans.spec_pn() >> 24u32) & 3,
        (spec_tlbfmt(trans, va, asid) as u32) & 0x00FF_FFFF == (((trans.spec_pn() & ((!0u32) << (if trans.spec_size() > PAGE_SIZE_MAX {
            PAGE_SIZE_MAX as u32
        } else {
            trans.spec_size() as u32
        }))) << 1u32) | (1u32 << (if trans.spec_size() > PAGE_SIZE_MAX {
            PAGE_SIZE_MAX as u32
        } else {
            trans.spec_size() as u32
        }))) & 0x00FF_FFFF,
{
    let pn = trans.spec_pn();
    let hi = spec_tlb_hi(va, asid, pn);
    let ts = spec_tlb_size(trans.spec_size());
    let lo = spec_tlb_lo(pn, ts, trans.spec_cccc(), trans.spec_xwru());
    let ppd = ((pn & ((!0u32) << ts)) << 1u32) | (1u32 << ts);
    lemma_entry_words(hi, lo, spec_tlbfmt(trans, va, asid));
    lemma_entry_fields(va, asid, pn, hi, ppd, trans.spec_cccc() as u32, trans.spec_xwru() as u32, lo);
}

} // verus!
