//! Offset translation: the physical page is the virtual page plus a fixed
//! offset, with permissions, cache attributes and page size limited by the
//! offset configuration kept in the ASID entry. Pages of the TCMs are not
//! moved, and nothing may land outside the fences of the VM.

use vstd::prelude::*;
use crate::types::asid::AsidEntry;
use crate::types::config::OffsetConfig;
use crate::types::translate::{Translation, lemma_translation_eq, lemma_translation_setters, reserved_bits};
use crate::mem::translate::TranslateCtx;

verus! {

/// `input` moved by the offset configuration `off`: page moved by the
/// offset (modulo 2^32, cut to the page field), size at most the
/// configured one, permissions masked, cache attributes taken from the
/// configuration when the input's were weak, and weakness from the
/// configuration; sharing, failure and reserved bits kept.
pub open spec fn offset_applied(input: Translation, off: OffsetConfig, r: Translation) -> bool {
    &&& r.spec_pn() == (vstd::wrapping::u32_specs::wrapping_add(input.spec_pn(), off.spec_pages()) & 0x3FF_FFFF)
    &&& r.spec_size() == (if input.spec_size() > off.spec_size() { off.spec_size() } else { input.spec_size() })
    &&& r.spec_xwru() == input.spec_xwru() & off.spec_xwru()
    &&& r.spec_cccc() == (if input.spec_weak_ccc() { off.spec_cccc() } else { input.spec_cccc() })
    &&& r.spec_weak_ccc() == off.spec_weak_ccc()
    &&& r.spec_shared() == input.spec_shared()
    &&& r.spec_is_bad() == input.spec_is_bad()
    &&& reserved_bits(r) == reserved_bits(input)
}

/// The translation `offset_applied` describes: it fixes every field and
/// the reserved bits, so exactly one translation meets it.
pub open spec fn spec_offset_apply(input: Translation, off: OffsetConfig) -> Translation {
    choose|t: Translation| offset_applied(input, off, t)
}

/// Apply the offset configuration `offset` to `input`.
pub fn offset_apply(input: Translation, offset: OffsetConfig) -> (r: Translation)
    ensures
        offset_applied(input, offset, r),
        r == spec_offset_apply(input, offset),
{
    let mut trans = input.with_pn(input.pn().wrapping_add(offset.pages()));
    proof {
        crate::bits::lemma_u32_masks(offset.0);
        crate::bits::lemma_u8_facts(offset.spec_size(), 0xF);
        crate::bits::lemma_u8_facts(offset.spec_cccc(), 0xF);
        lemma_translation_setters(input, vstd::wrapping::u32_specs::wrapping_add(input.spec_pn(), offset.spec_pages()), 0, false);
    }
    if trans.size() > offset.size() {
        let t0 = trans;
        trans = trans.with_size(offset.size());
        proof {
            lemma_translation_setters(t0, 0, offset.spec_size(), false);
            assert(offset.spec_size() < 16) by {
                crate::bits::lemma_u32_masks(offset.0);
            }
        }
    }
    let t1 = trans;
    trans = trans.with_xwru(trans.xwru() & offset.xwru());
    proof {
        lemma_translation_setters(t1, 0, (t1.spec_xwru() & offset.spec_xwru()) as u8, false);
        crate::bits::lemma_u64_masks(t1.0);
        assert((t1.spec_xwru() & offset.spec_xwru()) & 0xF == t1.spec_xwru() & offset.spec_xwru()) by {
            crate::bits::lemma_u8_facts(t1.spec_xwru(), offset.spec_xwru());
        }
    }
    if trans.weak_ccc() {
        let t2 = trans;
        trans = trans.with_cccc(offset.cccc());
        proof {
            lemma_translation_setters(t2, 0, offset.spec_cccc(), false);
            crate::bits::lemma_u8_facts(offset.spec_cccc(), 0xF);
        }
    }
    let t3 = trans;
    trans = trans.with_weak_ccc(offset.weak_ccc());
    proof {
        lemma_translation_setters(t3, 0, 0, offset.spec_weak_ccc());
        assert(offset_applied(input, offset, trans));
        lemma_translation_eq(trans, spec_offset_apply(input, offset));
    }
    trans
}

/// Page `pn` lies in the `size` pages from `base`.
pub open spec fn in_range(pn: u32, base: u32, size: u32) -> bool {
    size > 0 && base <= pn && (pn as int) < (base as int) + (size as int)
}

/// The last step of an offset translation without a guest map: a page of
/// a TCM keeps its untranslated number; otherwise the translated page must
/// lie between the fences, the upper one extended by one page of the
/// translation's size (modulo 2^32).
pub open spec fn spec_offset_resolve(
    trans: Translation,
    orig_pn: u32,
    tcm: (u32, u32),
    vtcm: (u32, u32),
    fence_lo: u32,
    fence_hi: u32,
) -> Translation {
    if in_range(orig_pn, tcm.0, tcm.1) || in_range(orig_pn, vtcm.0, vtcm.1) {
        trans.spec_with_pn(orig_pn)
    } else if trans.spec_pn() < fence_lo || trans.spec_pn() >= vstd::wrapping::u32_specs::wrapping_add(
        fence_hi,
        (1u32 << ((trans.spec_size() as u32) * 2)) as u32,
    ) {
        Translation::spec_bad()
    } else {
        trans
    }
}

/// A page of the TCM or of the vector TCM keeps its untranslated number
/// and the rest of the translation; any other page keeps the translation
/// when it lies between the fences (the upper one extended by one page of
/// the translation's size, modulo 2^32) and fails otherwise.
pub proof fn law_offset_resolve(
    trans: Translation,
    orig_pn: u32,
    tcm: (u32, u32),
    vtcm: (u32, u32),
    fence_lo: u32,
    fence_hi: u32,
)
    ensures
        tcm.1 > 0 && tcm.0 <= orig_pn && orig_pn < tcm.0 + tcm.1 ==> spec_offset_resolve(
            trans,
            orig_pn,
            tcm,
            vtcm,
            fence_lo,
            fence_hi,
        ) == trans.spec_with_pn(orig_pn),
        vtcm.1 > 0 && vtcm.0 <= orig_pn && orig_pn < vtcm.0 + vtcm.1 ==> spec_offset_resolve(
            trans,
            orig_pn,
            tcm,
            vtcm,
            fence_lo,
            fence_hi,
        ) == trans.spec_with_pn(orig_pn),
        !(tcm.1 > 0 && tcm.0 <= orig_pn && orig_pn < tcm.0 + tcm.1) && !(vtcm.1 > 0 && vtcm.0 <= orig_pn && orig_pn < vtcm.0
            + vtcm.1) ==> spec_offset_resolve(trans, orig_pn, tcm, vtcm, fence_lo, fence_hi) == (if fence_lo <= trans.spec_pn()
            && (trans.spec_pn() as int) < (fence_hi as int + (1u32 << ((trans.spec_size() as u32) * 2)) as int) % 0x1_0000_0000 {
            trans
        } else {
            Translation::spec_bad()
        }),
{
}

/// Check a translated page against the TCMs and the fences.
pub fn offset_resolve(
    trans: Translation,
    orig_pn: u32,
    tcm: (u32, u32),
    vtcm: (u32, u32),
    fence_lo: u32,
    fence_hi: u32,
) -> (r: Translation)
    ensures
        r == spec_offset_resolve(trans, orig_pn, tcm, vtcm, fence_lo, fence_hi),
{
    let (tcm_base, tcm_size) = tcm;
    let (vtcm_base, vtcm_size) = vtcm;
    if (tcm_size > 0 && orig_pn >= tcm_base && (orig_pn as u64) < (tcm_base as u64) + (tcm_size as u64)) || (vtcm_size > 0
        && orig_pn >= vtcm_base && (orig_pn as u64) < (vtcm_base as u64) + (vtcm_size as u64)) {
        trans.with_pn(orig_pn)
    } else {
        let page_span = 1u32 << (trans.size() as u32 * 2);
        if trans.pn() < fence_lo || trans.pn() >= fence_hi.wrapping_add(page_span) {
            Translation::bad()
        } else {
            trans
        }
    }
}

/// Offset translation of `input` through `info` in context `ctx`.
pub open spec fn spec_offset_translate<C: TranslateCtx>(ctx: &C, input: Translation, info: AsidEntry) -> Translation {
    let t = spec_offset_apply(input, OffsetConfig(info.ptb));
    let v = info.fields.spec_vmid();
    if !t.spec_shared() && !ctx.spec_guestmap(v).spec_is_empty() {
        ctx.spec_translate(t, ctx.spec_guestmap(v))
    } else {
        spec_offset_resolve(
            t,
            input.spec_pn(),
            ctx.spec_tcm_range(),
            ctx.spec_vtcm_range(),
            ctx.spec_fence_lo(v),
            ctx.spec_fence_hi(v),
        )
    }
}

/// Offset translation of `input` through `info`: apply the offset, then
/// translate again through the guest map of the VM when there is one and
/// the page is not shared; otherwise check it against the TCMs and fences.
pub fn offset_translate<C: TranslateCtx>(ctx: &C, input: Translation, info: AsidEntry) -> (r: Translation)
    ensures
        r == spec_offset_translate(ctx, input, info),
{
    let orig_pn = input.pn();
    let offset = OffsetConfig(info.ptb);
    let trans = offset_apply(input, offset);
    let vmidx = info.vmid();
    let guestmap = ctx.vmblock_guestmap(vmidx);
    if !trans.shared() && !guestmap.is_empty() {
        ctx.translate(trans, guestmap)
    } else {
        let tcm = ctx.tcm_range();
        let vtcm = ctx.vtcm_range();
        let fence_lo = ctx.vmblock_fence_lo(vmidx);
        let fence_hi = ctx.vmblock_fence_hi(vmidx);
        offset_resolve(trans, orig_pn, tcm, vtcm, fence_lo, fence_hi)
    }
}

} // verus!
