use minivm::arch::thread_hw::{modectl_enabled, modectl_started, modectl_stopped};
use minivm::arch::tlb::TlbEntry;
use minivm::arch::CoprocType;
use minivm::types::asid::{AsidEntry, AsidEntryFields, TranslationType};
use minivm::types::config::OffsetConfig;
use minivm::types::ops::{ArchVersion, CacheAttr};
use minivm::types::regs::{set_bit, Ssr, Syscfg};
use minivm::types::translate::Translation;
use minivm::types::vm::{ThreadStatus, VmId};

#[test]
fn tlb_entry_build_and_read() {
    let e = TlbEntry::build(0x12345, 0x55, 0xABCDEF, 0, 0x7, 0x3, true);
    assert!(e.is_valid());
    assert!(e.is_global());
    assert_eq!(e.asid(), 0x55);
    assert_eq!(e.ppn(), 0xABCDEF);
    assert_eq!(e.perm(), 0x7);
    assert_eq!(e.size(), 0);
    assert_eq!((e.ppd() >> 24) & 0xF, 0x3);
    assert_eq!(e.hi() & 0x000F_FFFF, 0x12345);
    assert_eq!(e.base_pa(), 0xABCDEFu64 * 4096);
}

#[test]
fn tlb_entry_fields_read_back_as_built() {
    let e = TlbEntry::build(0x10, 3, 0x40, 1, 2, 2, false);
    assert_eq!(e.size(), 1);
    assert_eq!(e.perm(), 2);
    assert_eq!((e.ppd() >> 24) & 0xF, 2);
    assert_eq!(e.ppn(), 0x40);
    assert!(!e.is_global());
    let big = TlbEntry::build(0, 0, 0x3FF_FFF0, 4, 0xF, 0, false);
    assert_eq!(big.size(), 4);
    assert_eq!(big.perm(), 0xF);
    assert_eq!(big.ppn(), 0x3FF_FFF0);
    assert_eq!(big.base_pa(), 0x3FF_FFF0u64 * 4096);
    let cut = TlbEntry::build(0, 0, 0x47, 2, 1, 0, false);
    assert_eq!(cut.size(), 2);
    assert_eq!(cut.ppn(), 0x44);
}

#[test]
fn tlb_entry_invalid() {
    let e = TlbEntry::invalid();
    assert!(!e.is_valid());
    assert!(!e.is_global());
    assert_eq!(e.ppd(), 0);
    assert_eq!(TlbEntry::VALID_BIT, 63);
    assert_eq!(TlbEntry::GLOBAL_BIT, 62);
}

#[test]
fn modectl_start_stop() {
    let m = modectl_started(0b1000, 1);
    assert_eq!(m, 0b1010);
    assert!(modectl_enabled(m, 1));
    assert!(modectl_enabled(m, 3));
    assert!(!modectl_enabled(m, 0));
    let m = modectl_stopped(m, 3);
    assert_eq!(m, 0b0010);
    assert!(!modectl_enabled(m, 3));
}

#[test]
fn coproc_hvx_bit() {
    assert!(CoprocType(CoprocType::HVX_MASK).has_hvx());
    assert!(!CoprocType(0x2).has_hvx());
}

#[test]
fn register_bits() {
    assert_eq!(set_bit(0, 18, true), 1 << 18);
    assert_eq!(set_bit(u32::MAX, 0, false), u32::MAX - 1);
    let ssr = Ssr(0).with_ie(true);
    assert!(ssr.ie());
    assert!(!ssr.with_ie(false).ie());
    let cfg = Syscfg(0).with_mmu(true).with_guest(true).with_dmt(true);
    assert!(cfg.mmu());
    assert_eq!(cfg.0, 1 | (1 << 9) | (1 << 15));
    assert!(!cfg.with_mmu(false).mmu());
}

#[test]
fn vm_id_fields() {
    let id = VmId::new(0x12, 0x3456, 0x78);
    assert_eq!(id.0, 0x7812_3456);
    assert_eq!(id.vmidx(), 0x12);
    assert_eq!(id.cpuidx(), 0x3456);
    assert_eq!(id.vint(), 0x78);
    assert_eq!(ThreadStatus::Dead.code(), 0);
    assert_eq!(ThreadStatus::VmWait.code(), 5);
}

#[test]
fn arch_versions_and_cache_codes() {
    assert_eq!(ArchVersion::from_rev(0x65), Some(ArchVersion::V65));
    assert_eq!(ArchVersion::from_rev(0x81), Some(ArchVersion::V81));
    assert_eq!(ArchVersion::from_rev(0x70), None);
    assert_eq!(CacheAttr::L1WB_L2C.cccc(), 7);
    assert_eq!(CacheAttr::Device.cccc(), 4);
}

#[test]
fn translation_setters_keep_other_fields() {
    let t = Translation::default_for_va(0x0123_4000);
    assert_eq!(t.pn(), 0x01234);
    assert_eq!(t.size(), 10);
    assert_eq!(t.xwru(), 0xF);
    assert_eq!(t.cccc(), 7);
    assert!(t.weak_ccc());
    assert!(!t.shared());
    assert!(!t.is_bad());
    let u = t.with_pn(0x3FF_FFFF).with_shared(true);
    assert_eq!(u.pn(), 0x3FF_FFFF);
    assert!(u.shared());
    assert_eq!(u.size(), 10);
    assert_eq!(u.cccc(), 7);
    assert!(Translation::bad().is_bad());
    assert_eq!(Translation::bad().xwru(), 0);
}

#[test]
fn offset_config_fields() {
    let c = OffsetConfig::new(5, 0x1F, true, 0x13, 0xFFFFF);
    assert_eq!(c.size(), 5);
    assert_eq!(c.cccc(), 0xF);
    assert!(c.weak_ccc());
    assert_eq!(c.xwru(), 0x3);
    assert_eq!(c.pages(), 0x7FFFF);
}

#[test]
fn asid_entry_fields() {
    let f = AsidEntryFields(0)
        .with_type(TranslationType::Linear)
        .with_vmid(9)
        .with_count(0xFFF)
        .with_extra(2)
        .with_log_maxhops(3);
    assert_eq!(f.trans_type(), TranslationType::Linear.raw());
    assert_eq!(f.vmid(), 9);
    assert_eq!(f.count(), 0xFFF);
    assert_eq!(f.extra(), 2);
    assert_eq!(f.log_maxhops(), 3);
    let e = AsidEntry { ptb: 1, fields: f };
    assert!(!e.is_empty());
    assert_eq!(e.vmid(), 9);
    assert!(AsidEntry::empty().is_empty());
    assert_eq!(TranslationType::from_raw(2), Some(TranslationType::Offset));
    assert_eq!(TranslationType::from_raw(4), None);
}
