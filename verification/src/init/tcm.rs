//! TCM: whether the kernel fits into the tightly coupled memory, and how
//! it is mapped after being copied there.

use vstd::prelude::*;
use crate::mem::asid::bit_width;

verus! {

/// Most bytes copied out of TCM for a crash dump (512 KB).
pub const CRASH_TCM_MAX_COPY: u32 = 512 * 1024;

/// Page size encoding that covers `tcm_size` 4 KB pages: half the bit
/// width of the size.
pub fn tcm_page_size(tcm_size: u32) -> (r: u32)
    ensures
        r == bit_width(tcm_size) / 2,
{
    if tcm_size == 0 {
        return 0;
    }
    let bits = crate::mem::asid::log2_greater(tcm_size);
    proof {
        crate::bits::lemma_u32_facts(bits, 0, 0, 0);
    }
    bits >> 1u32
}

/// Whether a TCM of `tcm_size` pages holds `kernel_npages` kernel pages
/// of `kernel_pagesize` pages each, with room to spare.
pub fn tcm_can_hold_kernel(tcm_size: u32, kernel_npages: u32, kernel_pagesize: u32) -> (r: bool)
    requires
        kernel_npages * kernel_pagesize <= u32::MAX,
    ensures
        r == (tcm_size > kernel_npages * kernel_pagesize),
{
    tcm_size > kernel_npages * kernel_pagesize
}

/// Physical offset of the kernel once it runs from the TCM at page
/// `tcm_base`: the link address less the TCM address, both as signed
/// 32-bit values (the TCM address taken modulo 2^32).
pub open spec fn spec_tcm_phys_offset(link_addr: u32, tcm_base: u32) -> int {
    (link_addr as i32) - ((tcm_base << 12u32) as i32)
}

pub fn tcm_phys_offset(link_addr: u32, tcm_base: u32) -> (r: i32)
    requires
        i32::MIN <= spec_tcm_phys_offset(link_addr, tcm_base) <= i32::MAX,
    ensures
        r == spec_tcm_phys_offset(link_addr, tcm_base),
{
    let shifted = tcm_base << 12u32;
    link_addr as i32 - (shifted as i32)
}

/// How the kernel is copied into TCM.
#[derive(Clone, Copy, Debug)]
pub struct TcmCopyConfig {
    pub tcm_base: u32,
    pub tcm_size: u32,
    pub tcm_pgsize: u32,
    pub new_phys_offset: i32,
}

/// Plan the copy of the kernel into the TCM: none without a TCM or when
/// it is too small; otherwise its base and size, the page size that maps
/// it and the new physical offset.
pub fn plan_tcm_copy(tcm_base: u32, tcm_size: u32, kernel_npages: u32, kernel_pagesize: u32, link_addr: u32) -> (r: Option<
    TcmCopyConfig,
>)
    requires
        kernel_npages * kernel_pagesize <= u32::MAX,
        i32::MIN <= spec_tcm_phys_offset(link_addr, tcm_base) <= i32::MAX,
    ensures
        (tcm_size == 0 || tcm_size <= kernel_npages * kernel_pagesize) <==> r is None,
        r matches Some(c) ==> c.tcm_base == tcm_base && c.tcm_size == tcm_size && c.tcm_pgsize == bit_width(tcm_size) / 2
            && c.new_phys_offset == spec_tcm_phys_offset(link_addr, tcm_base),
{
    if tcm_size == 0 {
        return None;
    }
    if !tcm_can_hold_kernel(tcm_size, kernel_npages, kernel_pagesize) {
        return None;
    }
    Some(
        TcmCopyConfig {
            tcm_base,
            tcm_size,
            tcm_pgsize: tcm_page_size(tcm_size),
            new_phys_offset: tcm_phys_offset(link_addr, tcm_base),
        },
    )
}

} // verus!
