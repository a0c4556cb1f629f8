//! Kernel global state, reached through the GP register on hardware.

use vstd::prelude::*;
use crate::power::hvx::HvxState;
use crate::types::ops::ArchVersion;

verus! {

/// Hardware threads at most.
pub const MAX_HTHREADS: usize = 6;

/// Virtual machines at most.
pub const MAX_VMS: usize = 64;

/// Physical interrupts (L1 and L2) at most.
pub const MAX_INTERRUPTS: usize = 320;

/// Entries of the ASID table.
pub const MAX_ASIDS: usize = 128;

/// Buckets of the futex table.
pub const FUTEX_HASHSIZE: usize = 64;

/// Virtual address the kernel is linked at.
pub const KERNEL_LINK_ADDR: u32 = 0xFF00_0000;

/// Default size of the allocator heap (1 MB).
pub const DEFAULT_ALLOC_HEAP_SIZE: u32 = 0x10_0000;

/// Default stack size (1 MB).
pub const DEFAULT_STACK_SIZE: u32 = 0x10_0000;

/// Core revision: architecture, microarchitecture and L2 array size.
#[derive(Clone, Copy, Debug)]
pub struct CoreRev {
    pub arch: u8,
    pub uarch: u8,
    pub l2arr: u8,
}

impl Default for CoreRev {
    fn default() -> (r: Self)
        ensures
            r.arch == 0 && r.uarch == 0 && r.l2arr == 0,
    {
        CoreRev { arch: 0, uarch: 0, l2arr: 0 }
    }
}

impl CoreRev {
    /// The architecture version named by the revision byte, if known.
    pub fn arch_version(&self) -> (r: Option<ArchVersion>)
        ensures
            r == ArchVersion::spec_from_rev(self.arch),
    {
        ArchVersion::from_rev(self.arch)
    }
}

/// A registered interrupt handler: its address (0: none) and parameter.
#[derive(Clone, Copy, Debug)]
pub struct IntHandler {
    pub handler: u32,
    pub param: u32,
}

impl Default for IntHandler {
    fn default() -> (r: Self)
        ensures
            r.handler == 0 && r.param == 0,
    {
        IntHandler { handler: 0, param: 0 }
    }
}

/// Coprocessor state.
#[derive(Clone, Copy, Debug)]
pub struct CoprocState {
    pub hvx_state: HvxState,
    pub hvx_vlength: u32,
    pub coproc_contexts: u32,
    pub _reserved2: [u32; 2],
}

impl Default for CoprocState {
    fn default() -> (r: Self)
        ensures
            r.hvx_state == HvxState::Off,
            r.hvx_vlength == 0,
            r.coproc_contexts == 0,
            r._reserved2@ == seq![0u32, 0u32],
    {
        CoprocState { hvx_state: HvxState::Off, hvx_vlength: 0, coproc_contexts: 0, _reserved2: [0u32; 2] }
    }
}

/// Flags recorded at boot: bit 0 the vector unit is present, bit 1 the
/// kernel runs from TCM.
#[derive(Clone, Copy, Debug, PartialEq, Eq, Structural)]
pub struct BootFlags(pub u8);

impl BootFlags {
    /// The vector unit is present.
    pub fn have_hvx() -> (r: Self)
        ensures
            r.0 == 0x01,
    {
        BootFlags(0x01)
    }

    /// The kernel runs from TCM.
    pub fn use_tcm() -> (r: Self)
        ensures
            r.0 == 0x02,
    {
        BootFlags(0x02)
    }

    /// No flag.
    pub fn empty() -> (r: Self)
        ensures
            r.0 == 0,
    {
        BootFlags(0)
    }

    /// The flags as a byte.
    pub fn bits(&self) -> (r: u8)
        ensures
            r == self.0,
    {
        self.0
    }

    /// Whether no flag is set.
    pub fn is_empty(&self) -> (r: bool)
        ensures
            r == (self.0 == 0),
    {
        self.0 == 0
    }

    /// Whether every flag of `other` is set.
    pub fn contains(&self, other: BootFlags) -> (r: bool)
        ensures
            r == (self.0 & other.0 == other.0),
    {
        self.0 & other.0 == other.0
    }

    /// The flags of both.
    pub fn union(self, other: BootFlags) -> (r: Self)
        ensures
            r.0 == self.0 | other.0,
    {
        BootFlags(self.0 | other.0)
    }
}

impl Default for BootFlags {
    fn default() -> (r: Self)
        ensures
            r.0 == 0,
    {
        BootFlags(0)
    }
}

/// Kernel global state.
pub struct KernelGlobals {
    pub core_rev: CoreRev,
    pub hthreads: u32,
    pub hthreads_mask: u32,
    pub core_id: u32,
    pub core_count: u32,
    pub multicore_shift: u32,
    pub phys_offset: i32,
    pub tcm_base: u32,
    pub tcm_size: u32,
    pub vtcm_base: u32,
    pub vtcm_size: u32,
    pub l2size: u32,
    pub l2tags: u32,
    pub tlb_size: u32,
    pub tlb_index: u32,
    pub last_tlb_index: u32,
    pub pinned_tlb_mask: u64,
    pub inthandlers: [IntHandler; 320],
    pub timer_intnum: u32,
    pub noc_mbase: u32,
    pub noc_sbase: u32,
    pub alloc_heap_size: u32,
    pub coproc: CoprocState,
    pub boot_flags: BootFlags,
    pub build_id: u32,
}

impl KernelGlobals {
    /// Everything zero but the default allocator heap size; no handler,
    /// vector unit off, no boot flag.
    pub fn new() -> (r: Self)
        ensures
            r.core_rev.arch == 0 && r.core_rev.uarch == 0 && r.core_rev.l2arr == 0,
            r.hthreads == 0 && r.hthreads_mask == 0 && r.core_id == 0 && r.core_count == 0 && r.multicore_shift == 0,
            r.phys_offset == 0,
            r.tcm_base == 0 && r.tcm_size == 0 && r.vtcm_base == 0 && r.vtcm_size == 0,
            r.l2size == 0 && r.l2tags == 0,
            r.tlb_size == 0 && r.tlb_index == 0 && r.last_tlb_index == 0 && r.pinned_tlb_mask == 0,
            forall|i: int| 0 <= i < MAX_INTERRUPTS ==> (#[trigger] r.inthandlers@[i]).handler == 0 && r.inthandlers@[i].param == 0,
            r.timer_intnum == 0 && r.noc_mbase == 0 && r.noc_sbase == 0,
            r.alloc_heap_size == DEFAULT_ALLOC_HEAP_SIZE,
            r.coproc.hvx_state == HvxState::Off && r.coproc.hvx_vlength == 0 && r.coproc.coproc_contexts == 0,
            r.coproc._reserved2@ == seq![0u32, 0u32],
            r.boot_flags.0 == 0,
            r.build_id == 0,
    {
        KernelGlobals {
            core_rev: CoreRev::default(),
            hthreads: 0,
            hthreads_mask: 0,
            core_id: 0,
            core_count: 0,
            multicore_shift: 0,
            phys_offset: 0,
            tcm_base: 0,
            tcm_size: 0,
            vtcm_base: 0,
            vtcm_size: 0,
            l2size: 0,
            l2tags: 0,
            tlb_size: 0,
            tlb_index: 0,
            last_tlb_index: 0,
            pinned_tlb_mask: 0,
            inthandlers: [IntHandler { handler: 0, param: 0 }; 320],
            timer_intnum: 0,
            noc_mbase: 0,
            noc_sbase: 0,
            alloc_heap_size: DEFAULT_ALLOC_HEAP_SIZE,
            coproc: CoprocState::default(),
            boot_flags: BootFlags::default(),
            build_id: 0,
        }
    }

    /// Record the boot parameters: physical offset, multicore shift, TLB
    /// size, core number and core count; nothing else changes.
    pub fn init(&mut self, phys_offset: i32, multicore_shift: u32, tlb_size: u32, core_id: u32, core_count: u32)
        ensures
            *final(self) == (KernelGlobals {
                phys_offset,
                multicore_shift,
                tlb_size,
                core_id,
                core_count,
                ..*old(self)
            }),
    {
        self.phys_offset = phys_offset;
        self.multicore_shift = multicore_shift;
        self.tlb_size = tlb_size;
        self.core_id = core_id;
        self.core_count = core_count;
    }

    /// The architecture version of the core, if known.
    pub fn arch_version(&self) -> (r: Option<ArchVersion>)
        ensures
            r == ArchVersion::spec_from_rev(self.core_rev.arch),
    {
        self.core_rev.arch_version()
    }
}

impl Default for KernelGlobals {
    fn default() -> (r: Self)
        ensures
            r.alloc_heap_size == DEFAULT_ALLOC_HEAP_SIZE,
            r.hthreads == 0,
    {
        Self::new()
    }
}

} // verus!
