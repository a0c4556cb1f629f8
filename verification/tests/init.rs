use minivm::init::boot::{
    compute_memory_layout, device_page_offset, init_phases, private_device_offset, InitPhase,
    BOOT_CACHE_POLICY, BOOT_THREAD_CCR, BOOT_THREAD_GPUGP, BOOT_THREAD_USR, NUM_INIT_PHASES,
    QDSP6SS_PUB_PRIV_OFFSET,
};
use minivm::init::globals::{BootFlags, CoreRev, KernelGlobals, DEFAULT_ALLOC_HEAP_SIZE};
use minivm::init::l2cache::{
    l2_size_from_array, l2_size_from_config_kb, tag_size_to_syscfg, L2CacheConfig, L2TagSize,
    SYSCFG_L2CFG_MAX,
};
use minivm::init::tcm::{plan_tcm_copy, tcm_can_hold_kernel, tcm_page_size, tcm_phys_offset};
use minivm::power::hvx::HvxState;
use minivm::types::ops::{ArchVersion, CacheAttr};

#[test]
fn test_device_page_offset() {
    assert_eq!(device_page_offset(0x0B00_0000), 0x0B000);
}

#[test]
fn test_private_device_offset() {
    let ssbase = 0x0B00_0000;
    assert_eq!(
        private_device_offset(ssbase),
        device_page_offset(ssbase + QDSP6SS_PUB_PRIV_OFFSET)
    );
}

#[test]
fn test_init_phase_order() {
    let phases = init_phases();
    assert_eq!(phases.len(), NUM_INIT_PHASES);
    assert_eq!(phases[0], InitPhase::KernelGlobals);
    assert_eq!(phases[NUM_INIT_PHASES - 1], InitPhase::Complete);
}

#[test]
fn test_memory_layout() {
    let layout = compute_memory_layout(0xFF01_0000, 0x1000, 0x1000, 0x1000);
    assert_eq!(layout.heap_start, 0xFF01_0000);
    assert_eq!(layout.heap_size, 0x1000);
    assert_eq!(layout.stack_top, 0xFF01_1000);
    assert_eq!(layout.stack_size, 0x1000);
    assert_eq!(layout.alloc_heap_start, 0xFF01_2000);
    assert_eq!(layout.alloc_heap_size, 0x1000);
}

#[test]
fn test_memory_layout_alignment() {
    let layout = compute_memory_layout(0xFF01_0001, 0x1000, 0x1000, 0x1000);
    assert_eq!(layout.heap_start, 0xFF01_0010);
}

#[test]
fn test_boot_constants() {
    assert_eq!(BOOT_CACHE_POLICY, CacheAttr::L1WB_L2C);
    assert_eq!(BOOT_THREAD_GPUGP, 0);
    assert_eq!(BOOT_THREAD_CCR, 0x0017_0000);
    assert_eq!(BOOT_THREAD_USR, 0x0005_7c00);
}

#[test]
fn memory_layout_regions_do_not_overlap() {
    let layout = compute_memory_layout(0x1003, 0x21, 0x7, 0x40);
    assert_eq!(layout.heap_start, 0x1010);
    assert_eq!(layout.stack_top, 0x1040);
    assert_eq!(layout.alloc_heap_start, 0x1050);
    assert!(layout.heap_start + layout.heap_size <= layout.stack_top);
    assert!(layout.stack_top + layout.stack_size <= layout.alloc_heap_start);
}

#[test]
fn init_phases_are_distinct() {
    let phases = init_phases();
    for i in 0..phases.len() {
        for j in (i + 1)..phases.len() {
            assert_ne!(phases[i], phases[j]);
        }
    }
}

#[test]
fn test_globals_new() {
    let kg = KernelGlobals::new();
    assert_eq!(kg.hthreads, 0);
    assert_eq!(kg.core_id, 0);
    assert_eq!(kg.tlb_size, 0);
    assert_eq!(kg.alloc_heap_size, DEFAULT_ALLOC_HEAP_SIZE);
    assert_eq!(kg.coproc.hvx_state, HvxState::Off);
}

#[test]
fn test_globals_init() {
    let mut kg = KernelGlobals::new();
    kg.init(-0x1000, 0, 128, 0, 1);
    assert_eq!(kg.phys_offset, -0x1000);
    assert_eq!(kg.tlb_size, 128);
    assert_eq!(kg.core_count, 1);
}

#[test]
fn test_core_rev() {
    let rev = CoreRev {
        arch: 0x68,
        ..CoreRev::default()
    };
    assert_eq!(rev.arch_version(), Some(ArchVersion::V68));
}

#[test]
fn test_core_rev_unknown() {
    let rev = CoreRev::default();
    assert_eq!(rev.arch_version(), None);
}

#[test]
fn test_boot_flags_default() {
    let flags = BootFlags::default();
    assert!(flags.is_empty());
    assert!(!flags.contains(BootFlags::have_hvx()));
    assert!(!flags.contains(BootFlags::use_tcm()));
}

#[test]
fn test_boot_flags_bitflags() {
    let flags = BootFlags::have_hvx().union(BootFlags::use_tcm());
    assert!(flags.contains(BootFlags::have_hvx()));
    assert!(flags.contains(BootFlags::use_tcm()));
}

#[test]
fn boot_flags_bits() {
    assert_eq!(BootFlags::have_hvx().bits(), 0x01);
    assert_eq!(BootFlags::use_tcm().bits(), 0x02);
    assert_eq!(BootFlags::empty().bits(), 0);
    assert!(!BootFlags::have_hvx().contains(BootFlags::use_tcm()));
}

#[test]
fn globals_arch_version_follows_core_rev() {
    let mut kg = KernelGlobals::new();
    assert_eq!(kg.arch_version(), None);
    kg.core_rev.arch = 0x73;
    assert_eq!(kg.arch_version(), Some(ArchVersion::V73));
}

#[test]
fn test_l2_size_small() {
    assert_eq!(l2_size_from_array(0), 0);
    assert_eq!(l2_size_from_array(1), 32 * 1024);
    assert_eq!(l2_size_from_array(8), 256 * 1024);
    assert_eq!(l2_size_from_array(16), 512 * 1024);
    assert_eq!(l2_size_from_array(32), 1024 * 1024);
}

#[test]
fn test_l2_size_large() {
    assert_eq!(l2_size_from_array(33), 1024 * 1024 + 64 * 1024);
    assert_eq!(l2_size_from_array(48), 2 * 1024 * 1024);
}

#[test]
fn test_l2_size_from_config() {
    assert_eq!(l2_size_from_config_kb(512), 512 * 1024);
    assert_eq!(l2_size_from_config_kb(1024), 1024 * 1024);
}

#[test]
fn test_tag_size_to_syscfg() {
    assert_eq!(tag_size_to_syscfg(1536), SYSCFG_L2CFG_MAX);
    assert_eq!(tag_size_to_syscfg(0), 0);
    assert_eq!(tag_size_to_syscfg(64), 1);
    assert_eq!(tag_size_to_syscfg(128), 2);
    assert_eq!(tag_size_to_syscfg(256), 3);
    assert_eq!(tag_size_to_syscfg(512), 4);
    assert_eq!(tag_size_to_syscfg(1024), 5);
}

#[test]
fn test_l2_cache_config() {
    let cfg = L2CacheConfig {
        l2size: 1024 * 1024,
        l2tags: 5,
    };
    assert_eq!(cfg.l2size, 1024 * 1024);
    assert_eq!(cfg.l2tags, 5);
}

#[test]
fn l2_tag_size_codes() {
    assert_eq!(L2TagSize::S0.code(), 0);
    assert_eq!(L2TagSize::S1024.code(), 5);
    assert_eq!(L2TagSize::Reserved.code(), 7);
}

#[test]
fn test_tcm_page_size() {
    assert_eq!(tcm_page_size(0), 0);
    assert_eq!(tcm_page_size(1), 0);
    assert_eq!(tcm_page_size(4), 1);
    assert_eq!(tcm_page_size(16), 2);
    assert_eq!(tcm_page_size(64), 3);
    assert_eq!(tcm_page_size(256), 4);
}

#[test]
fn test_tcm_can_hold_kernel() {
    assert!(tcm_can_hold_kernel(256, 4, 1));
    assert!(!tcm_can_hold_kernel(4, 4, 1));
    assert!(!tcm_can_hold_kernel(0, 4, 1));
}

#[test]
fn test_tcm_phys_offset() {
    let offset = tcm_phys_offset(0xFF00_0000, 0x100);
    assert_eq!(offset, 0xFF00_0000u32 as i32 - 0x0010_0000);
}

#[test]
fn test_plan_tcm_copy_no_tcm() {
    assert!(plan_tcm_copy(0, 0, 4, 1, 0xFF00_0000).is_none());
}

#[test]
fn test_plan_tcm_copy_too_small() {
    assert!(plan_tcm_copy(0x100, 2, 4, 1, 0xFF00_0000).is_none());
}

#[test]
fn test_plan_tcm_copy_ok() {
    let cfg = plan_tcm_copy(0x100, 256, 4, 1, 0xFF00_0000).unwrap();
    assert_eq!(cfg.tcm_base, 0x100);
    assert_eq!(cfg.tcm_size, 256);
    assert_eq!(cfg.tcm_pgsize, 4);
    assert_eq!(cfg.new_phys_offset, tcm_phys_offset(0xFF00_0000, 0x100));
}
