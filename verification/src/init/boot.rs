//! Boot sequence: the order in which subsystems come up, and the memory
//! layout after the kernel image.

use vstd::prelude::*;
use crate::types::ops::CacheAttr;

verus! {

/// Cache policy of the boot thread (L1 write-back, L2 cached).
pub const BOOT_CACHE_POLICY: CacheAttr = CacheAttr::L1WB_L2C;

/// Initial GP of the boot thread.
pub const BOOT_THREAD_GPUGP: u32 = 0;

/// Initial USR of the boot thread (prefetch enables).
pub const BOOT_THREAD_USR: u32 = 0x0005_7c00;

/// Initial CCR of the boot thread.
pub const BOOT_THREAD_CCR: u32 = 0x0017_0000;

/// Offset from the public to the private subsystem registers, in bytes.
pub const QDSP6SS_PUB_PRIV_OFFSET: u32 = 0x0008_0000;

/// Page (4 KB) of the device registers at `ssbase`.
pub fn device_page_offset(ssbase: u32) -> (r: u32)
    ensures
        r == ssbase / 4096,
{
    proof {
        vstd::bits::lemma_u32_shr_is_div(ssbase, 12);
        vstd::arithmetic::power2::lemma2_to64();
    }
    ssbase >> 12u32
}

/// Page of the private device registers of the subsystem at `ssbase`.
pub fn private_device_offset(ssbase: u32) -> (r: u32)
    requires
        ssbase + QDSP6SS_PUB_PRIV_OFFSET <= u32::MAX,
    ensures
        r == (ssbase + QDSP6SS_PUB_PRIV_OFFSET) / 4096,
{
    device_page_offset(ssbase + QDSP6SS_PUB_PRIV_OFFSET)
}

/// Initialisation phases, in order.
#[derive(Clone, Copy, Debug, PartialEq, Eq)]
pub enum InitPhase {
    KernelGlobals,
    TmpMap,
    L2Cache,
    TcmCopy,
    Trace,
    RunList,
    ReadyList,
    LowPrio,
    Futex,
    IntConfig,
    Thread,
    AsidTable,
    Timer,
    Hvx,
    MemAlloc,
    Semihosting,
    Complete,
}

/// Number of phases.
pub const NUM_INIT_PHASES: usize = 17;

/// The phases in the order they run: globals first, completion last.
pub open spec fn spec_init_phases() -> Seq<InitPhase> {
    seq![
        InitPhase::KernelGlobals,
        InitPhase::TmpMap,
        InitPhase::L2Cache,
        InitPhase::TcmCopy,
        InitPhase::Trace,
        InitPhase::RunList,
        InitPhase::ReadyList,
        InitPhase::LowPrio,
        InitPhase::Futex,
        InitPhase::IntConfig,
        InitPhase::Thread,
        InitPhase::AsidTable,
        InitPhase::Timer,
        InitPhase::Hvx,
        InitPhase::MemAlloc,
        InitPhase::Semihosting,
        InitPhase::Complete,
    ]
}

/// The initialisation phases in order.
pub fn init_phases() -> (r: Vec<InitPhase>)
    ensures
        r@ == spec_init_phases(),
        r@.len() == NUM_INIT_PHASES,
{
    let r = vec![
        InitPhase::KernelGlobals,
        InitPhase::TmpMap,
        InitPhase::L2Cache,
        InitPhase::TcmCopy,
        InitPhase::Trace,
        InitPhase::RunList,
        InitPhase::ReadyList,
        InitPhase::LowPrio,
        InitPhase::Futex,
        InitPhase::IntConfig,
        InitPhase::Thread,
        InitPhase::AsidTable,
        InitPhase::Timer,
        InitPhase::Hvx,
        InitPhase::MemAlloc,
        InitPhase::Semihosting,
        InitPhase::Complete,
    ];
    proof {
        assert(r@ =~= spec_init_phases());
    }
    r
}

/// Parameters handed from the boot assembly.
#[derive(Clone, Copy, Debug)]
pub struct BootParams {
    pub multicore_shift: u32,
    pub ssbase: u32,
    pub last_tlb_index: u32,
    pub tlb_size: u32,
    pub tcm_offset: u32,
}

/// Placement of the heap, the stack and the allocator heap after the
/// kernel image.
#[derive(Clone, Copy, Debug)]
pub struct MemoryLayout {
    pub heap_start: u32,
    pub heap_size: u32,
    pub stack_top: u32,
    pub stack_size: u32,
    pub alloc_heap_start: u32,
    pub alloc_heap_size: u32,
}

/// `x` rounded up to a multiple of 16.
pub open spec fn align16(x: int) -> int {
    (x + 15) - (x + 15) % 16
}

/// Lay out, each 16-byte aligned, the heap after the kernel image, the
/// stack after the heap and the allocator heap after the stack.
pub fn compute_memory_layout(kernel_end: u32, heap_size: u32, stack_size: u32, alloc_heap_size: u32) -> (r: MemoryLayout)
    requires
        kernel_end + 15 <= u32::MAX,
        align16(kernel_end as int) + heap_size + 15 <= u32::MAX,
        align16(align16(kernel_end as int) + heap_size) + stack_size + 15 <= u32::MAX,
    ensures
        r.heap_start == align16(kernel_end as int),
        r.heap_size == heap_size,
        r.stack_top == align16(r.heap_start + heap_size),
        r.stack_size == stack_size,
        r.alloc_heap_start == align16(r.stack_top + stack_size),
        r.alloc_heap_size == alloc_heap_size,
{
    let a = kernel_end + 15;
    proof {
        crate::bits::lemma_u32_facts(a, 0, 0, 0);
    }
    let heap_start = a & !15u32;
    let b = heap_start + heap_size + 15;
    proof {
        crate::bits::lemma_u32_facts(b, 0, 0, 0);
    }
    let stack_top = b & !15u32;
    let c = stack_top + stack_size + 15;
    proof {
        crate::bits::lemma_u32_facts(c, 0, 0, 0);
    }
    let alloc_start = c & !15u32;
    MemoryLayout { heap_start, heap_size, stack_top, stack_size, alloc_heap_start: alloc_start, alloc_heap_size }
}

/// The regions of the layout follow one another without overlap, each
/// starting on a 16-byte boundary: the heap after the kernel image, the
/// stack after the heap, the allocator heap after the stack.
pub proof fn law_layout_disjoint(kernel_end: u32, l: MemoryLayout)
    requires
        l.heap_start == align16(kernel_end as int),
        l.stack_top == align16(l.heap_start + l.heap_size),
        l.alloc_heap_start == align16(l.stack_top + l.stack_size),
    ensures
        kernel_end <= l.heap_start,
        l.heap_start + l.heap_size <= l.stack_top,
        l.stack_top + l.stack_size <= l.alloc_heap_start,
        l.heap_start % 16 == 0,
        l.stack_top % 16 == 0,
        l.alloc_heap_start % 16 == 0,
{
    assert(forall|x: int| x >= 0 ==> #[trigger] align16(x) >= x && align16(x) % 16 == 0) by {
        assert forall|x: int| x >= 0 implies #[trigger] align16(x) >= x && align16(x) % 16 == 0 by {
            vstd::arithmetic::div_mod::lemma_fundamental_div_mod(x + 15, 16);
        }
    }
}

} // verus!
