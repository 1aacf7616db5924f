//! Page-table entries and the four-level radix tree.

use kernel_core::FRAME_SIZE;
use kernel_core::paging::PageTable;
use kernel_core::paging::PageTableEntry;
use kernel_core::phys::PhysicalAllocator;

#[test]
fn entry_bits_round_trip() {
    let mut e = PageTableEntry::new();
    assert!(!e.is_present());
    e.set_present(true);
    assert!(e.is_present());
    e.set_writeable(true);
    assert!(e.is_writeable());
    e.set_user(true);
    assert!(e.is_user());
    e.set_global(true);
    assert!(e.is_global());
    e.set_execute(true);
    assert!(e.is_execute());
    // every flag survives the others being set
    assert!(e.is_present() && e.is_writeable() && e.is_user());
    e.set_present(false);
    assert!(!e.is_present());
    assert!(e.is_writeable() && e.is_user() && e.is_global() && e.is_execute());
}

#[test]
fn entry_addr_is_masked_and_preserves_flags() {
    let mut e = PageTableEntry::new();
    e.set_present(true);
    e.set_addr(0x1234567);
    // the low 12 bits of the address never reach the entry
    assert_eq!(e.get_addr(), 0x1234000);
    assert!(e.is_present());
    e.set_addr(0xABCD000);
    assert_eq!(e.get_addr(), 0xABCD000);
}

#[test]
fn entry_from_data_keeps_bits() {
    let e = PageTableEntry::from_data(0x8000_0000_0000_0103);
    assert!(e.is_present());
    assert!(e.is_writeable());
    assert!(!e.is_user());
    assert!(e.is_global());
    assert!(e.is_execute());
    assert_eq!(e.data(), 0x8000_0000_0000_0103);
}

#[test]
fn map_then_lookup_returns_physical() {
    let mut pa = PhysicalAllocator::new(8);
    let mut pt = PageTable::new();
    assert_eq!(pt.get_physical_addr(0x4000_0000), None);
    assert!(pt.map_page(0x4000_0000, 0x1234000, &mut pa));
    assert_eq!(pt.get_physical_addr(0x4000_0000), Some(0x1234000));
}

#[test]
fn unmap_then_lookup_returns_none() {
    let mut pa = PhysicalAllocator::new(8);
    let mut pt = PageTable::new();
    assert!(pt.map_page(0x4000_0000, 0x1234000, &mut pa));
    pt.unmap_page(0x4000_0000);
    assert_eq!(pt.get_physical_addr(0x4000_0000), None);
}

#[test]
fn unmap_of_never_mapped_page_is_harmless() {
    let mut pt = PageTable::new();
    pt.unmap_page(0x1234_5000);
    assert_eq!(pt.get_physical_addr(0x1234_5000), None);
}

#[test]
fn mappings_are_independent() {
    let mut pa = PhysicalAllocator::new(8);
    let mut pt = PageTable::new();
    assert!(pt.map_page(0x4000_0000, 0x1000, &mut pa));
    assert!(pt.map_page(0x4000_1000, 0x2000, &mut pa));
    assert!(pt.map_page(0x8000_0000, 0x3000, &mut pa));
    pt.unmap_page(0x4000_1000);
    assert_eq!(pt.get_physical_addr(0x4000_0000), Some(0x1000));
    assert_eq!(pt.get_physical_addr(0x4000_1000), None);
    assert_eq!(pt.get_physical_addr(0x8000_0000), Some(0x3000));
}

#[test]
fn remap_silently_replaces() {
    let mut pa = PhysicalAllocator::new(8);
    let mut pt = PageTable::new();
    assert!(pt.map_page(0x4000_0000, 0x1000, &mut pa));
    assert!(pt.map_page(0x4000_0000, 0x5000, &mut pa));
    assert_eq!(pt.get_physical_addr(0x4000_0000), Some(0x5000));
}

#[test]
fn map_page_consumes_frames_for_missing_levels() {
    let mut pa = PhysicalAllocator::new(8);
    let mut pt = PageTable::new();
    let before = pa.get_free();
    // a fresh tree needs three intermediate tables for the first mapping
    assert!(pt.map_page(0x4000_0000, 0x1000, &mut pa));
    assert_eq!(pa.get_free(), before - 3 * FRAME_SIZE);
    // the second mapping in the same region reuses them all
    assert!(pt.map_page(0x4000_1000, 0x2000, &mut pa));
    assert_eq!(pa.get_free(), before - 3 * FRAME_SIZE);
}

#[test]
fn map_page_fails_when_allocator_is_empty() {
    let mut pa = PhysicalAllocator::new(1);
    pa.set_range_used(0..8 * FRAME_SIZE);
    let mut pt = PageTable::new();
    assert!(!pt.map_page(0x4000_0000, 0x1000, &mut pa));
    assert_eq!(pt.get_physical_addr(0x4000_0000), None);
}
