use minivm::mem::asid::{asid_hash, log2_greater, AsidTable};
use minivm::mem::heap::{AllocTag, Allocator};
use minivm::types::asid::TranslationType;
use minivm::types::consts::{ALLOC_UNIT, MAX_ASIDS};

#[test]
fn test_asid_hash_deterministic() {
    let h1 = asid_hash(0x12345678);
    let h2 = asid_hash(0x12345678);
    assert_eq!(h1, h2);
    assert!(h1 < MAX_ASIDS);
}

#[test]
fn test_asid_hash_range() {
    for ptb in [0u32, 1, 0xFFFFFFFF, 0x80000000, 0xDEADBEEF] {
        let h = asid_hash(ptb);
        assert!(h < MAX_ASIDS, "hash {} out of range for ptb {:#x}", h, ptb);
    }
}

#[test]
fn test_log2_greater() {
    assert_eq!(log2_greater(0), 0);
    assert_eq!(log2_greater(1), 1);
    assert_eq!(log2_greater(2), 2);
    assert_eq!(log2_greater(3), 2);
    assert_eq!(log2_greater(4), 3);
    assert_eq!(log2_greater(127), 7);
    assert_eq!(log2_greater(128), 8);
}

#[test]
fn log2_greater_top_bit() {
    assert_eq!(log2_greater(0x8000_0000), 32);
    assert_eq!(log2_greater(u32::MAX), 32);
}

#[test]
fn test_table_init() {
    let table = AsidTable::new();
    for entry in &table.entries {
        assert!(entry.is_empty());
    }
}

#[test]
fn test_inc_allocates_new_entry() {
    let mut table = AsidTable::new();
    let mut invalidated = Vec::new();
    let asid = table.inc(0x1000_0000, TranslationType::Offset, false, 0, 1, &mut invalidated);
    assert!(asid >= 0);
    assert!(!invalidated.is_empty());
    let entry = table.get(asid as u32);
    assert_eq!(entry.ptb, 0x1000_0000);
    assert_eq!(entry.fields.count(), 1);
    assert_eq!(entry.fields.vmid(), 1);
    assert_eq!(entry.fields.trans_type(), TranslationType::Offset.raw());
}

#[test]
fn test_inc_increments_existing() {
    let mut table = AsidTable::new();
    let mut sink = Vec::new();
    let asid1 = table.inc(0x2000, TranslationType::Linear, false, 0, 2, &mut sink);
    let asid2 = table.inc(0x2000, TranslationType::Linear, false, 0, 2, &mut sink);
    assert_eq!(asid1, asid2);
    assert_eq!(table.get(asid1 as u32).fields.count(), 2);
}

#[test]
fn test_dec() {
    let mut table = AsidTable::new();
    let mut sink = Vec::new();
    let asid = table.inc(0x3000, TranslationType::Table, false, 0, 3, &mut sink);
    assert_eq!(table.get(asid as u32).fields.count(), 1);
    table.dec(asid as u32);
    assert_eq!(table.get(asid as u32).fields.count(), 0);
    table.dec(asid as u32);
    assert_eq!(table.get(asid as u32).fields.count(), 0);
}

#[test]
fn test_search_not_found() {
    let table = AsidTable::new();
    assert!(table.search(0x9999, 1, 0).is_none());
}

#[test]
fn test_search_after_inc() {
    let mut table = AsidTable::new();
    let mut sink = Vec::new();
    table.inc(0x4000, TranslationType::Offset, false, 0, 5, &mut sink);
    assert!(table.search(0x4000, 5, TranslationType::Offset.raw()).is_some());
    assert!(table.search(0x4000, 5, TranslationType::Linear.raw()).is_none());
    assert!(table.search(0x4000, 6, TranslationType::Offset.raw()).is_none());
}

#[test]
fn test_invalidate_flag() {
    let mut table = AsidTable::new();
    let mut first = Vec::new();
    table.inc(0x5000, TranslationType::Offset, false, 0, 1, &mut first);
    assert_eq!(first.len(), 1);
    let mut second = Vec::new();
    table.inc(0x5000, TranslationType::Offset, false, 0, 1, &mut second);
    assert_eq!(second.len(), 0);
    let mut third = Vec::new();
    table.inc(0x5000, TranslationType::Offset, true, 0, 1, &mut third);
    assert_eq!(third.len(), 1);
    assert_eq!(first[0], third[0]);
}

#[test]
fn inc_names_the_entry_it_counts() {
    let mut table = AsidTable::new();
    let mut sink = Vec::new();
    let a = table.inc(0x7000, TranslationType::Linear, false, 9, 4, &mut sink);
    assert_eq!(sink, vec![a as u32]);
    assert_eq!(table.search(0x7000, 4, TranslationType::Linear.raw()), Some(a as u32));
    let b = table.inc(0x7000, TranslationType::Table, false, 0, 4, &mut sink);
    assert_ne!(a, b);
    assert_eq!(sink.len(), 2);
}

#[test]
fn test_alloc_tag_fields() {
    let tag = AllocTag(0).with_free(true).with_released(true).with_size(0x1234);
    assert!(tag.free());
    assert!(tag.released());
    assert_eq!(tag.size(), 0x1234);
}

#[test]
fn alloc_tag_setters_keep_other_fields() {
    let tag = AllocTag(0).with_size(7).with_free(true);
    assert_eq!(tag.0, (7 << 2) | 1);
    let tag = tag.with_free(false);
    assert_eq!(tag.size(), 7);
    assert!(!tag.released());
}

#[test]
fn test_alloc_init() {
    let alloc = Allocator::init(vec![AllocTag(0); 64]);
    let first_tag = alloc.heap[ALLOC_UNIT as usize - 1];
    assert_eq!(first_tag.size(), 64 - ALLOC_UNIT);
    assert!(!first_tag.free());
    let end_tag = alloc.heap[63];
    assert_eq!(end_tag.size(), 0);
    assert!(end_tag.free());
}

#[test]
fn test_alloc_single() {
    let mut alloc = Allocator::init(vec![AllocTag(0); 128]);
    let block = alloc.allocate(16).expect("allocation should succeed");
    assert!(block.size >= 16);
    assert!(block.offset > 0);
}

#[test]
fn test_alloc_multiple() {
    let mut alloc = Allocator::init(vec![AllocTag(0); 256]);
    let b1 = alloc.allocate(8).expect("first alloc");
    let b2 = alloc.allocate(8).expect("second alloc");
    assert_ne!(b1.offset, b2.offset);
}

#[test]
fn test_alloc_free_reuse() {
    let mut alloc = Allocator::init(vec![AllocTag(0); 128]);
    let b1 = alloc.allocate(8).expect("first alloc");
    alloc.free(b1.offset);
    let b2 = alloc.allocate(8).expect("reuse after free");
    assert_eq!(b1.offset, b2.offset);
}

#[test]
fn test_alloc_exhaustion() {
    let mut alloc = Allocator::init(vec![AllocTag(0); 32]);
    let result = alloc.allocate(1024);
    assert!(result.is_none());
}

#[test]
fn test_alloc_coalesce() {
    let mut alloc = Allocator::init(vec![AllocTag(0); 256]);
    let b1 = alloc.allocate(8).expect("first");
    let b2 = alloc.allocate(8).expect("second");
    let b3 = alloc.allocate(8).expect("third");
    alloc.free(b2.offset);
    alloc.free(b1.offset);
    alloc.free(b3.offset);
    let big = alloc.allocate(b1.size as u32 + b2.size as u32 + b3.size as u32);
    assert!(big.is_some());
}

#[test]
fn test_alloc_release_deferred() {
    let mut alloc = Allocator::init(vec![AllocTag(0); 128]);
    let b1 = alloc.allocate(8).expect("first alloc");
    alloc.release(b1.offset);
    let b2 = alloc.allocate(8).expect("reuse after release");
    assert_eq!(b1.offset, b2.offset);
}

#[test]
fn alloc_blocks_are_disjoint() {
    let mut alloc = Allocator::init(vec![AllocTag(0); 256]);
    let b1 = alloc.allocate(20).unwrap();
    let b2 = alloc.allocate(4).unwrap();
    assert!(b1.offset + b1.size / 4 <= b2.offset || b2.offset + b2.size / 4 <= b1.offset);
    assert!(b1.size >= 20);
    assert!(b2.size >= 4);
}

#[test]
fn live_blocks_survive_other_frees_and_allocations() {
    let mut alloc = Allocator::init(vec![AllocTag(0); 256]);
    let b1 = alloc.allocate(12).unwrap();
    let b2 = alloc.allocate(12).unwrap();
    let b3 = alloc.allocate(12).unwrap();
    alloc.heap[b2.offset] = AllocTag(0xABCD);
    alloc.free(b1.offset);
    alloc.release(b3.offset);
    let b4 = alloc.allocate(40).unwrap();
    assert_eq!(alloc.heap[b2.offset], AllocTag(0xABCD));
    assert!(b4.offset + b4.size / 4 <= b2.offset || b2.offset + b2.size / 4 <= b4.offset);
}

#[test]
fn free_coalesces_back_to_initial_heap() {
    let n = 128usize;
    let mut alloc = Allocator::init(vec![AllocTag(0); n]);
    let b1 = alloc.allocate(8).expect("first alloc");
    alloc.free(b1.offset);
    let first = (ALLOC_UNIT - 1) as usize;
    assert_eq!(alloc.heap[first].size() as usize, n - ALLOC_UNIT as usize);
    assert!(!alloc.heap[first].free());
    assert_eq!(alloc.heap[n - 1].size(), 0);
    assert!(alloc.heap[n - 1].free());
    let b2 = alloc.allocate(8).expect("second alloc");
    assert_eq!(b2.offset, b1.offset);
    assert_eq!(alloc.heap[first].size(), 8);
}

#[test]
fn init_accepts_minimum_heap() {
    let n = ALLOC_UNIT as usize + 1;
    let alloc = Allocator::init(vec![AllocTag(0); n]);
    let first = (ALLOC_UNIT - 1) as usize;
    assert_eq!(alloc.heap[first].size(), 1);
    assert_eq!(alloc.heap[n - 1].size(), 0);
    assert!(alloc.heap[n - 1].free());
}
