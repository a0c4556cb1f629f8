use minivm::mem::stlb::{
    stlb_add, stlb_invalidate_asid, stlb_invalidate_va, stlb_lookup, StlbAsidInfo,
    ENTRIES_PER_ASID, VALIDS_LEN,
};
use minivm::mem::tlb_fill::{tlb_fill, tlbfmt_from_translation, FillCall, TlbFillCtx};
use minivm::mem::translate::linear::{
    linear_entry_matches, linear_step, linear_translate, linear_translate_update, LinearStep,
};
use minivm::mem::translate::offset::{offset_apply, offset_translate};
use minivm::mem::translate::{translate, PageFaultCause, TranslateCtx};
use minivm::types::asid::{AsidEntry, AsidEntryFields, TranslationType};
use minivm::types::config::OffsetConfig;
use minivm::types::linear::LinearFmt;
use minivm::types::translate::Translation;

fn stlb_info() -> StlbAsidInfo {
    StlbAsidInfo {
        valids: [0u64; VALIDS_LEN],
        entries: vec![0u64; ENTRIES_PER_ASID],
    }
}

fn make_test_entry(vpn: u32, asid: u32, ppn: u32, size: u8) -> u64 {
    let ppn_masked = ppn & !((1u32 << size) - 1);
    let ppd = (ppn_masked << 1) | (1u32 << size);
    let hi = (vpn & 0x000F_FFFF) | ((asid & 0x7F) << 20) | (1u32 << 31);
    ((hi as u64) << 32) | (ppd as u64)
}

#[test]
fn test_stlb_lookup_empty() {
    let info = stlb_info();
    assert_eq!(stlb_lookup(0x1000, 1, &info), 0);
}

#[test]
fn test_stlb_add_and_lookup() {
    let mut info = stlb_info();
    let entry = make_test_entry(0x10, 5, 0x20, 0);
    stlb_add(0x10 << 12, 5, entry, &mut info, 0);
    assert_eq!(stlb_lookup(0x10 << 12, 5, &info), entry);
}

#[test]
fn test_stlb_lookup_wrong_asid() {
    let mut info = stlb_info();
    let entry = make_test_entry(0x10, 5, 0x20, 0);
    stlb_add(0x10 << 12, 5, entry, &mut info, 0);
    assert_eq!(stlb_lookup(0x10 << 12, 6, &info), 0);
}

#[test]
fn test_stlb_invalidate_asid() {
    let mut info = stlb_info();
    let entry = make_test_entry(0x10, 5, 0x20, 0);
    stlb_add(0x10 << 12, 5, entry, &mut info, 0);
    stlb_invalidate_asid(&mut info);
    assert_eq!(stlb_lookup(0x10 << 12, 5, &info), 0);
}

#[test]
fn test_stlb_invalidate_va() {
    let mut info = stlb_info();
    let entry = make_test_entry(0x10, 5, 0x20, 0);
    stlb_add(0x10 << 12, 5, entry, &mut info, 0);
    stlb_invalidate_va(0x10 << 12, 0x1000, 5, &mut info);
    assert_eq!(stlb_lookup(0x10 << 12, 5, &info), 0);
}

#[test]
fn test_stlb_uninit_returns_zero() {
    let info = StlbAsidInfo::empty();
    assert_eq!(stlb_lookup(0x1000, 1, &info), 0);
}

#[test]
fn stlb_add_without_storage_is_ignored() {
    let mut info = StlbAsidInfo::empty();
    let entry = make_test_entry(0x10, 5, 0x20, 0);
    stlb_add(0x10 << 12, 5, entry, &mut info, 1);
    assert!(!info.is_initialized());
    assert_eq!(stlb_lookup(0x10 << 12, 5, &info), 0);
}

#[test]
fn stlb_other_ways_and_pages_survive() {
    let mut info = stlb_info();
    let e1 = make_test_entry(0x10, 5, 0x20, 0);
    let e2 = make_test_entry(0x11, 5, 0x21, 0);
    stlb_add(0x10 << 12, 5, e1, &mut info, 2);
    stlb_add(0x11 << 12, 5, e2, &mut info, 3);
    assert_eq!(stlb_lookup(0x10 << 12, 5, &info), e1);
    assert_eq!(stlb_lookup(0x11 << 12, 5, &info), e2);
    stlb_invalidate_va(0x11 << 12, 0x1000, 5, &mut info);
    assert_eq!(stlb_lookup(0x10 << 12, 5, &info), e1);
    assert_eq!(stlb_lookup(0x11 << 12, 5, &info), 0);
}

#[test]
fn test_tlbfmt_from_translation_basic() {
    let trans = Translation(0).with_pn(0x100).with_size(0).with_xwru(0xF).with_cccc(7);
    let entry = tlbfmt_from_translation(trans, 0x100 << 12, 5);
    assert_ne!(entry, 0);
    let hi = (entry >> 32) as u32;
    assert_eq!(hi & 0x000F_FFFF, 0x100);
    assert_eq!((hi >> 20) & 0x7F, 5);
    assert_eq!((hi >> 31) & 1, 1);
    let lo = entry as u32;
    assert_eq!((lo >> 28) & 0xF, 0xF);
    assert_eq!((lo >> 24) & 0xF, 7);
    let ppd = lo & 0x00FF_FFFF;
    assert_eq!(ppd.trailing_zeros(), 0);
}

#[test]
fn test_tlbfmt_from_translation_no_perms() {
    let trans = Translation(0).with_pn(0x100).with_size(0).with_xwru(0x1);
    assert_eq!(tlbfmt_from_translation(trans, 0x100 << 12, 5), 0);
}

#[test]
fn test_tlbfmt_from_translation_large_page() {
    let trans = Translation(0).with_pn(0x100).with_size(2).with_xwru(0xF).with_cccc(5);
    let entry = tlbfmt_from_translation(trans, 0x100 << 12, 3);
    assert_ne!(entry, 0);
    let ppd = entry as u32 & 0x00FF_FFFF;
    assert_eq!(ppd.trailing_zeros(), 2);
}

#[test]
fn tlbfmt_clamps_size_and_keeps_high_pa_bits() {
    let trans = Translation(0).with_pn(0x80_0000).with_size(12).with_xwru(0x2).with_cccc(1);
    let entry = tlbfmt_from_translation(trans, 0, 1);
    let hi = (entry >> 32) as u32;
    assert_eq!((hi >> 29) & 1, 1);
    let ppd = entry as u32 & 0x00FF_FFFF;
    assert_eq!(ppd.trailing_zeros(), 6);
}

struct MockTlbFillCtx {
    asid_info: AsidEntry,
    stlb_entries: Vec<(u32, u32, u64)>,
    inserted: Vec<u64>,
    pagefaults: Vec<u32>,
    bad: bool,
    calls: Vec<FillCall>,
}

impl MockTlbFillCtx {
    fn new(asid_info: AsidEntry) -> Self {
        Self { asid_info, stlb_entries: Vec::new(), inserted: Vec::new(), pagefaults: Vec::new(), bad: false, calls: Vec::new() }
    }
}

impl TlbFillCtx for MockTlbFillCtx {
    fn spec_asid_entry(&self, asid: u32) -> AsidEntry {
        self.asid_entry(asid)
    }
    fn spec_stlb_lookup(&self, va: u32, asid: u32) -> u64 {
        self.stlb_lookup(va, asid)
    }
    fn spec_translate(&self, input: Translation, info: AsidEntry) -> Translation {
        self.translate(input, info)
    }
    fn spec_calls(&self) -> Vec<FillCall> {
        self.calls.clone()
    }
    fn asid_entry(&self, _asid: u32) -> AsidEntry {
        self.asid_info
    }
    fn stlb_lookup(&self, va: u32, asid: u32) -> u64 {
        for &(v, a, e) in &self.stlb_entries {
            if v == va && a == asid {
                return e;
            }
        }
        0
    }
    fn stlb_add(&mut self, va: u32, asid: u32, entry: u64) {
        self.stlb_entries.push((va, asid, entry));
        self.calls.push(FillCall::StlbAdd(va, asid, entry));
    }
    fn tlb_insert(&mut self, entry: u64) {
        self.inserted.push(entry);
        self.calls.push(FillCall::TlbInsert(entry));
    }
    fn translate(&self, input: Translation, _info: AsidEntry) -> Translation {
        if self.bad {
            Translation::bad()
        } else {
            input
        }
    }
    fn pagefault(&mut self, va: u32) {
        self.pagefaults.push(va);
        self.calls.push(FillCall::PageFault(va));
    }
}

#[test]
fn test_tlb_fill_stlb_hit() {
    let mut ctx = MockTlbFillCtx::new(AsidEntry::empty());
    let fake_entry = 0xDEAD_BEEF_1234_5678u64;
    ctx.stlb_entries.push((0x1000, 5, fake_entry));
    tlb_fill(&mut ctx, 0x1000, 5);
    assert_eq!(ctx.inserted.len(), 1);
    assert_eq!(ctx.inserted[0], fake_entry);
    assert!(ctx.pagefaults.is_empty());
}

#[test]
fn test_tlb_fill_stlb_miss_translate_success() {
    let offset = OffsetConfig::new(10, 7, true, 0xF, 0);
    let info = AsidEntry {
        ptb: offset.0,
        fields: AsidEntryFields(0).with_type(TranslationType::Offset).with_vmid(0).with_count(1),
    };
    let mut ctx = MockTlbFillCtx::new(info);
    tlb_fill(&mut ctx, 0x1000, 5);
    assert_eq!(ctx.inserted.len(), 1);
    assert_ne!(ctx.inserted[0], 0);
    assert_eq!(ctx.stlb_entries.len(), 1);
    assert_eq!(ctx.stlb_entries[0], (0x1000, 5, ctx.inserted[0]));
    assert_eq!(
        ctx.inserted[0],
        tlbfmt_from_translation(Translation::default_for_va(0x1000), 0x1000, 5)
    );
    assert!(ctx.pagefaults.is_empty());
}

#[test]
fn test_tlb_fill_pagefault() {
    let mut ctx = MockTlbFillCtx::new(AsidEntry::empty());
    ctx.bad = true;
    tlb_fill(&mut ctx, 0x1000, 5);
    assert!(ctx.inserted.is_empty());
    assert_eq!(ctx.pagefaults.len(), 1);
    assert_eq!(ctx.pagefaults[0], 0x1000);
}

#[test]
fn tlb_fill_call_log_per_outcome() {
    let mut hit = MockTlbFillCtx::new(AsidEntry::empty());
    hit.stlb_entries.push((0x2000, 3, 0x1234));
    tlb_fill(&mut hit, 0x2000, 3);
    assert_eq!(hit.calls, vec![FillCall::TlbInsert(0x1234)]);

    let mut miss = MockTlbFillCtx::new(AsidEntry::empty());
    tlb_fill(&mut miss, 0x2000, 3);
    let e = tlbfmt_from_translation(Translation::default_for_va(0x2000), 0x2000, 3);
    assert_ne!(e, 0);
    assert_eq!(miss.calls, vec![FillCall::StlbAdd(0x2000, 3, e), FillCall::TlbInsert(e)]);

    let mut fault = MockTlbFillCtx::new(AsidEntry::empty());
    fault.bad = true;
    tlb_fill(&mut fault, 0x2000, 3);
    assert_eq!(fault.calls, vec![FillCall::PageFault(0x2000)]);
}

#[test]
fn tlbfmt_needs_read_or_write() {
    let base = Translation(0).with_pn(0x10).with_size(0).with_cccc(7);
    assert_eq!(tlbfmt_from_translation(base.with_xwru(0x8), 0x1000, 1), 0);
    assert_eq!(tlbfmt_from_translation(base.with_xwru(0x1), 0x1000, 1), 0);
    assert_ne!(tlbfmt_from_translation(base.with_xwru(0x4), 0x1000, 1), 0);
    assert_ne!(tlbfmt_from_translation(base.with_xwru(0x2), 0x1000, 1), 0);
    let e = tlbfmt_from_translation(base.with_xwru(0xC), 0x1000, 1);
    assert_eq!((e as u32) >> 28, 0xC);
}

struct TestCtx {
    fence_lo: u32,
    fence_hi: u32,
    guestmap: AsidEntry,
    tcm_base: u32,
    tcm_size: u32,
    vtcm_base: u32,
    vtcm_size: u32,
    memory: Vec<u8>,
}

impl TestCtx {
    fn simple(fence_lo: u32, fence_hi: u32) -> Self {
        Self {
            fence_lo,
            fence_hi,
            guestmap: AsidEntry::empty(),
            tcm_base: 0,
            tcm_size: 0,
            vtcm_base: 0,
            vtcm_size: 0,
            memory: vec![0u8; 4096],
        }
    }

    fn write_dword(&mut self, pa: u64, val: u64) {
        let offset = pa as usize;
        if offset + 8 <= self.memory.len() {
            self.memory[offset..offset + 8].copy_from_slice(&val.to_le_bytes());
        }
    }
}

impl TranslateCtx for TestCtx {
    fn spec_translate(&self, input: Translation, info: AsidEntry) -> Translation {
        self.translate(input, info)
    }
    fn spec_guestmap(&self, vmidx: u8) -> AsidEntry {
        self.vmblock_guestmap(vmidx)
    }
    fn spec_fence_lo(&self, vmidx: u8) -> u32 {
        self.vmblock_fence_lo(vmidx)
    }
    fn spec_fence_hi(&self, vmidx: u8) -> u32 {
        self.vmblock_fence_hi(vmidx)
    }
    fn spec_tcm_range(&self) -> (u32, u32) {
        self.tcm_range()
    }
    fn spec_vtcm_range(&self) -> (u32, u32) {
        self.vtcm_range()
    }
    fn spec_read(&self, pa: u64) -> u64 {
        self.physread_dword(pa)
    }
    fn translate(&self, input: Translation, info: AsidEntry) -> Translation {
        translate(self, input, info)
    }
    fn vmblock_guestmap(&self, _vmidx: u8) -> AsidEntry {
        self.guestmap
    }
    fn vmblock_fence_lo(&self, _vmidx: u8) -> u32 {
        self.fence_lo
    }
    fn vmblock_fence_hi(&self, _vmidx: u8) -> u32 {
        self.fence_hi
    }
    fn tcm_range(&self) -> (u32, u32) {
        (self.tcm_base, self.tcm_size)
    }
    fn vtcm_range(&self) -> (u32, u32) {
        (self.vtcm_base, self.vtcm_size)
    }
    fn physread_dword(&self, pa: u64) -> u64 {
        let offset = pa as usize;
        if offset + 8 <= self.memory.len() {
            u64::from_le_bytes(self.memory[offset..offset + 8].try_into().unwrap())
        } else {
            0
        }
    }
}

fn make_offset_info(pages: u32, size: u8, xwru: u8, cccc: u8, weak_ccc: bool, vmidx: u8) -> AsidEntry {
    let offset = OffsetConfig::new(size, cccc, weak_ccc, xwru, pages);
    AsidEntry {
        ptb: offset.0,
        fields: AsidEntryFields(0).with_type(TranslationType::Offset).with_vmid(vmidx).with_count(1),
    }
}

fn make_linear_info(list_addr: u32, vmidx: u8) -> AsidEntry {
    AsidEntry {
        ptb: list_addr,
        fields: AsidEntryFields(0).with_type(TranslationType::Linear).with_vmid(vmidx).with_count(1),
    }
}

#[test]
fn test_translate_offset_dispatch() {
    let ctx = TestCtx::simple(0, 0xFFFFF);
    let info = make_offset_info(0, 10, 0xF, 7, true, 0);
    let input = Translation::default_for_va(0x1000_0000);
    let result = translate(&ctx, input, info);
    assert!(!result.is_bad());
}

#[test]
fn test_translate_bad_type() {
    let ctx = TestCtx::simple(0, 0xFFFFF);
    let info = AsidEntry { ptb: 0, fields: AsidEntryFields(0xFF_FF_FF_FF) };
    let input = Translation::default_for_va(0);
    let result = translate(&ctx, input, info);
    assert!(result.is_bad());
}

#[test]
fn page_fault_cause_codes() {
    assert_eq!(PageFaultCause::TlbMissX.code(), 0x20);
    assert_eq!(PageFaultCause::from_raw(0x20), Some(PageFaultCause::TlbMissX));
    assert_eq!(PageFaultCause::from_raw(0x7), None);
}

#[test]
fn test_offset_basic_translation() {
    let ctx = TestCtx::simple(0, 0xFFFFF);
    let info = make_offset_info(0x100, 10, 0xF, 7, true, 0);
    let input = Translation::default_for_va(0x0000_1000);
    let result = offset_translate(&ctx, input, info);
    assert!(!result.is_bad());
    assert_eq!(result.pn(), 1 + 0x100);
}

#[test]
fn test_offset_size_clamping() {
    let ctx = TestCtx::simple(0, 0xFFFFF);
    let info = make_offset_info(0, 2, 0xF, 7, true, 0);
    let result = offset_translate(&ctx, Translation::default_for_va(0), info);
    assert!(!result.is_bad());
    assert_eq!(result.size(), 2);
}

#[test]
fn test_offset_permission_masking() {
    let ctx = TestCtx::simple(0, 0xFFFFF);
    let info = make_offset_info(0, 10, 0x2, 7, true, 0);
    let result = offset_translate(&ctx, Translation::default_for_va(0), info);
    assert!(!result.is_bad());
    assert_eq!(result.xwru(), 0x2);
}

#[test]
fn test_offset_cache_override() {
    let ctx = TestCtx::simple(0, 0xFFFFF);
    let info = make_offset_info(0, 10, 0xF, 5, false, 0);
    let input = Translation::default_for_va(0);
    assert!(input.weak_ccc());
    let result = offset_translate(&ctx, input, info);
    assert_eq!(result.cccc(), 5);
    assert!(!result.weak_ccc());
}

#[test]
fn test_offset_fence_check_pass() {
    let ctx = TestCtx::simple(0x100, 0x200);
    let info = make_offset_info(0x100, 0, 0xF, 7, true, 0);
    let result = offset_translate(&ctx, Translation::default_for_va(0), info);
    assert!(!result.is_bad());
    assert_eq!(result.pn(), 0x100);
}

#[test]
fn test_offset_fence_check_fail_low() {
    let ctx = TestCtx::simple(0x200, 0x300);
    let info = make_offset_info(0, 0, 0xF, 7, true, 0);
    let result = offset_translate(&ctx, Translation::default_for_va(0x0010_0000), info);
    assert!(result.is_bad());
}

#[test]
fn test_offset_fence_check_fail_high() {
    let ctx = TestCtx::simple(0, 0x100);
    let info = make_offset_info(0x200, 0, 0xF, 7, true, 0);
    let result = offset_translate(&ctx, Translation::default_for_va(0), info);
    assert!(result.is_bad());
}

#[test]
fn test_offset_tcm_bypass() {
    let mut ctx = TestCtx::simple(0, 0);
    ctx.tcm_base = 0x100;
    ctx.tcm_size = 0x10;
    let info = make_offset_info(0x1000, 10, 0xF, 7, true, 0);
    let result = offset_translate(&ctx, Translation::default_for_va(0x108 << 12), info);
    assert!(!result.is_bad());
    assert_eq!(result.pn(), 0x108);
}

#[test]
fn offset_apply_adds_pages() {
    let offset = OffsetConfig::new(3, 4, false, 0x6, 0x40);
    let out = offset_apply(Translation::default_for_va(0x5000), offset);
    assert_eq!(out.pn(), 0x45);
    assert_eq!(out.size(), 3);
    assert_eq!(out.xwru(), 0x6);
    assert_eq!(out.cccc(), 4);
    assert!(!out.weak_ccc());
}

fn descriptor(vpn: u32, ppn: u32, size: u8, xwru: u8, cccc: u8, weak: bool) -> LinearFmt {
    LinearFmt(0)
        .with_vpn(vpn)
        .with_ppn(ppn)
        .with_size(size)
        .with_xwru(xwru)
        .with_cccc(cccc)
        .with_weak_ccc(weak)
        .with_shared(false)
        .with_chain(false)
}

#[test]
fn test_linear_empty_list() {
    let ctx = TestCtx::simple(0, 0xFFFFF);
    let info = make_linear_info(0, 0);
    let result = linear_translate(&ctx, Translation::default_for_va(0x1000), info);
    assert!(result.is_bad());
}

#[test]
fn test_linear_single_entry_match() {
    let mut ctx = TestCtx::simple(0, 0xFFFFF);
    ctx.write_dword(0x100, descriptor(0x10, 0x20, 0, 0xF, 7, true).0);
    let info = make_linear_info(0x100, 0);
    let result = linear_translate(&ctx, Translation::default_for_va(0x10 << 12), info);
    assert!(!result.is_bad());
    assert_eq!(result.pn(), 0x20);
    assert_eq!(result.xwru(), 0xF);
}

#[test]
fn test_linear_no_match() {
    let mut ctx = TestCtx::simple(0, 0xFFFFF);
    ctx.write_dword(0x100, descriptor(0x10, 0x20, 0, 0xF, 7, true).0);
    ctx.write_dword(0x108, 0);
    let info = make_linear_info(0x100, 0);
    let result = linear_translate(&ctx, Translation::default_for_va(0x30 << 12), info);
    assert!(result.is_bad());
}

#[test]
fn test_linear_multiple_entries() {
    let mut ctx = TestCtx::simple(0, 0xFFFFF);
    ctx.write_dword(0x100, descriptor(0x10, 0x20, 0, 0xF, 7, true).0);
    ctx.write_dword(0x108, descriptor(0x30, 0x40, 0, 0xA, 5, false).0);
    ctx.write_dword(0x110, 0);
    let info = make_linear_info(0x100, 0);
    let result = linear_translate(&ctx, Translation::default_for_va(0x30 << 12), info);
    assert!(!result.is_bad());
    assert_eq!(result.pn(), 0x40);
    assert_eq!(result.xwru(), 0xA);
}

#[test]
fn test_linear_large_page_match() {
    let mut ctx = TestCtx::simple(0, 0xFFFFF);
    ctx.write_dword(0x100, descriptor(0x10, 0x20, 1, 0xF, 7, true).0);
    ctx.write_dword(0x108, 0);
    let info = make_linear_info(0x100, 0);
    let result = linear_translate(&ctx, Translation::default_for_va(0x12 << 12), info);
    assert!(!result.is_bad());
    assert_eq!(result.pn(), 0x20);
    assert_eq!(result.size(), 1);
}

#[test]
fn test_linear_permission_masking() {
    let mut ctx = TestCtx::simple(0, 0xFFFFF);
    ctx.write_dword(0x100, descriptor(0x10, 0x20, 0, 0x3, 7, true).0);
    let info = make_linear_info(0x100, 0);
    let result = linear_translate(&ctx, Translation::default_for_va(0x10 << 12), info);
    assert!(!result.is_bad());
    assert_eq!(result.xwru(), 0x3);
}

#[test]
fn linear_follows_chain_descriptors() {
    let mut ctx = TestCtx::simple(0, 0xFFFFF);
    let chain = LinearFmt(0x200).with_chain(true);
    ctx.write_dword(0x100, chain.0);
    ctx.write_dword(0x200, descriptor(0x10, 0x33, 0, 0xF, 7, true).0);
    let info = make_linear_info(0x100, 0);
    let result = linear_translate(&ctx, Translation::default_for_va(0x10 << 12), info);
    assert!(!result.is_bad());
    assert_eq!(result.pn(), 0x33);
}

#[test]
fn linear_update_and_match() {
    let d = descriptor(0x10, 0x20, 1, 0x6, 3, false);
    assert!(linear_entry_matches(d, 0x13));
    assert!(!linear_entry_matches(d, 0x14));
    let out = linear_translate_update(Translation::default_for_va(0x13 << 12), d);
    assert_eq!(out.pn(), 0x20);
    assert_eq!(out.size(), 1);
    assert_eq!(out.xwru(), 0x6);
    assert_eq!(out.cccc(), 3);
    assert!(!out.weak_ccc());
}

#[test]
fn linear_descriptor_fields_read_back() {
    let d = descriptor(0xABCDE, 0x123_4567, 5, 0x9, 0xC, true).with_shared(true);
    assert_eq!(d.vpn(), 0xABCDE);
    assert_eq!(d.ppn(), 0x123_4567);
    assert_eq!(d.size(), 5);
    assert_eq!(d.xwru(), 0x9);
    assert_eq!(d.cccc(), 0xC);
    assert!(d.weak_ccc());
    assert!(d.shared());
    assert!(!d.chain());
    assert!(!d.is_null());
}

#[test]
fn linear_step_decisions() {
    assert_eq!(linear_step(0x100, LinearFmt(0), 5), LinearStep::End);
    let chain = LinearFmt(0x20F).with_chain(true);
    assert_eq!(linear_step(0x100, chain, 5), LinearStep::Chain(0x208));
    let d = descriptor(0x10, 0x20, 0, 0xF, 7, true);
    assert_eq!(linear_step(0x100, d, 0x10), LinearStep::Hit);
    assert_eq!(linear_step(0x100, d, 0x11), LinearStep::Next(0x108));
    assert_eq!(linear_step(u32::MAX - 3, d, 0x11), LinearStep::Next(4));
}
