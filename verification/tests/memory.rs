//! Physical-frame allocator and buddy allocator behaviour.

use kernel_core::FRAME_SIZE;
use kernel_core::buddy::GRANULE_SIZE;
use kernel_core::buddy::VirtualAllocator;
use kernel_core::phys::PhysicalAllocator;

#[test]
fn phys_new_all_free() {
    let pa = PhysicalAllocator::new(8);
    assert_eq!(pa.get_free(), 64 * FRAME_SIZE);
    assert_eq!(pa.get_free_actual(), 64 * FRAME_SIZE);
}

#[test]
fn phys_alloc_scans_first_free() {
    // 8-byte bitmap = 64 frames; frames 0-9 reserved in bulk.
    let mut pa = PhysicalAllocator::new(8);
    pa.set_range_used(0..10 * FRAME_SIZE);
    assert_eq!(pa.allocate(), Some(10));
    assert_eq!(pa.allocate(), Some(11));
}

#[test]
fn phys_set_range_marks_only_the_range() {
    let mut pa = PhysicalAllocator::new(2);
    pa.set_range_used(3 * FRAME_SIZE..5 * FRAME_SIZE);
    assert_eq!(pa.allocate(), Some(0));
    assert_eq!(pa.allocate(), Some(1));
    assert_eq!(pa.allocate(), Some(2));
    assert_eq!(pa.allocate(), Some(5));
    assert_eq!(pa.get_free(), pa.get_free_actual());
}

#[test]
fn phys_set_range_crosses_byte_boundaries() {
    let mut pa = PhysicalAllocator::new(4);
    pa.set_range_used(6 * FRAME_SIZE..19 * FRAME_SIZE);
    for expected in [0, 1, 2, 3, 4, 5, 19, 20] {
        assert_eq!(pa.allocate(), Some(expected));
    }
    assert_eq!(pa.get_free(), pa.get_free_actual());
}

#[test]
fn phys_set_range_partial_frame_rounds_out() {
    // A range that covers only part of a frame still reserves that frame.
    let mut pa = PhysicalAllocator::new(1);
    pa.set_range_used(100..FRAME_SIZE + 1);
    assert_eq!(pa.allocate(), Some(2));
}

#[test]
fn phys_free_returns_frame() {
    let mut pa = PhysicalAllocator::new(1);
    let f = pa.allocate().unwrap();
    assert_eq!(f, 0);
    let before = pa.get_free();
    pa.free(f);
    assert_eq!(pa.get_free(), before + FRAME_SIZE);
    assert_eq!(pa.allocate(), Some(0));
}

#[test]
fn phys_double_free_is_ignored() {
    let mut pa = PhysicalAllocator::new(1);
    let f = pa.allocate().unwrap();
    pa.free(f);
    let count = pa.get_free();
    pa.free(f);
    assert_eq!(pa.get_free(), count);
    assert_eq!(pa.get_free(), pa.get_free_actual());
}

#[test]
fn phys_exhaustion_returns_none() {
    let mut pa = PhysicalAllocator::new(1);
    for _ in 0..8 {
        assert!(pa.allocate().is_some());
    }
    assert_eq!(pa.allocate(), None);
    assert_eq!(pa.get_free(), 0);
}

#[test]
fn buddy_new_consumes_two_frames() {
    let mut pa = PhysicalAllocator::new(1);
    let before = pa.get_free();
    let va = VirtualAllocator::new(0x100000, 4 * GRANULE_SIZE, &mut pa);
    assert!(va.is_some());
    assert_eq!(pa.get_free(), before - 2 * FRAME_SIZE);
}

#[test]
fn buddy_alloc_first_fit_and_split() {
    let mut pa = PhysicalAllocator::new(1);
    let base = 0x100000;
    let mut va = VirtualAllocator::new(base, 4 * GRANULE_SIZE, &mut pa).unwrap();
    // first granule comes from the front of the range
    assert_eq!(va.allocate(GRANULE_SIZE, &mut pa), Some(base));
    // second granule is the buddy right behind it
    assert_eq!(va.allocate(GRANULE_SIZE, &mut pa), Some(base + GRANULE_SIZE));
    // a two-granule block must skip the used front half
    assert_eq!(va.allocate(2 * GRANULE_SIZE, &mut pa), Some(base + 2 * GRANULE_SIZE));
    // nothing is left
    assert_eq!(va.allocate(1, &mut pa), None);
}

#[test]
fn buddy_free_merges_back_to_one_block() {
    // Range of exactly 4 minimum granules; three allocations, freed in
    // reverse order, must re-merge into one block spanning the whole range.
    let mut pa = PhysicalAllocator::new(1);
    let base = 0x100000;
    let mut va = VirtualAllocator::new(base, 4 * GRANULE_SIZE, &mut pa).unwrap();
    let a1 = va.allocate(GRANULE_SIZE, &mut pa).unwrap();
    let a2 = va.allocate(GRANULE_SIZE, &mut pa).unwrap();
    let a3 = va.allocate(GRANULE_SIZE, &mut pa).unwrap();
    assert_eq!(a1, base);
    assert_eq!(a2, base + GRANULE_SIZE);
    assert_eq!(a3, base + 2 * GRANULE_SIZE);
    va.free(a3, &mut pa);
    va.free(a2, &mut pa);
    va.free(a1, &mut pa);
    // only a single free node covering everything can serve this request
    assert_eq!(va.allocate(4 * GRANULE_SIZE, &mut pa), Some(base));
}

#[test]
fn buddy_alloc_free_round_trip_restores_counts() {
    let mut pa = PhysicalAllocator::new(1);
    let base = 0x200000;
    let mut va = VirtualAllocator::new(base, 64 * GRANULE_SIZE, &mut pa).unwrap();
    let free_before = pa.get_free();
    let a = va.allocate(3 * GRANULE_SIZE, &mut pa).unwrap();
    assert_eq!(a, base);
    va.free(a, &mut pa);
    assert_eq!(pa.get_free(), free_before);
    // the whole range is one block again
    assert_eq!(va.allocate(64 * GRANULE_SIZE, &mut pa), Some(base));
}

#[test]
fn buddy_request_rounds_to_power_of_two() {
    let mut pa = PhysicalAllocator::new(1);
    let base = 0x100000;
    let mut va = VirtualAllocator::new(base, 8 * GRANULE_SIZE, &mut pa).unwrap();
    // 3 granules round up to 4: the next block starts 4 granules in
    let a = va.allocate(3 * GRANULE_SIZE, &mut pa).unwrap();
    assert_eq!(a, base);
    let b = va.allocate(1, &mut pa).unwrap();
    assert_eq!(b, base + 4 * GRANULE_SIZE);
}

#[test]
fn buddy_refuses_oversized_request() {
    let mut pa = PhysicalAllocator::new(1);
    let base = 0x100000;
    let mut va = VirtualAllocator::new(base, 2 * GRANULE_SIZE, &mut pa).unwrap();
    assert_eq!(va.allocate(4 * GRANULE_SIZE, &mut pa), None);
    assert_eq!(va.allocate(2 * GRANULE_SIZE, &mut pa), Some(base));
}

#[test]
fn buddy_grows_and_releases_node_slabs() {
    // Enough granule allocations to outgrow the first node slab; freeing
    // everything merges the range back and hands the extra slab frames to
    // the physical allocator again.
    let mut pa = PhysicalAllocator::new(8);
    let base = 0x40_0000;
    let mut va = VirtualAllocator::new(base, 256 * GRANULE_SIZE, &mut pa).unwrap();
    let free_after_new = pa.get_free();
    let mut blocks = Vec::new();
    for _ in 0..120 {
        blocks.push(va.allocate(GRANULE_SIZE, &mut pa).unwrap());
    }
    // the node arena needed at least one more backing frame
    assert!(pa.get_free() < free_after_new);
    while let Some(addr) = blocks.pop() {
        va.free(addr, &mut pa);
    }
    assert_eq!(pa.get_free(), free_after_new);
    assert_eq!(va.allocate(256 * GRANULE_SIZE, &mut pa), Some(base));
}

#[test]
fn phys_empty_range_reserves_nothing() {
    // An empty, unaligned span must not touch the frame it points into.
    let mut pa = PhysicalAllocator::new(1);
    pa.set_range_used(100..100);
    assert_eq!(pa.get_free(), 8 * FRAME_SIZE);
    assert_eq!(pa.allocate(), Some(0));
}

#[test]
fn phys_set_span_matches_set_range() {
    let mut a = PhysicalAllocator::new(2);
    let mut b = PhysicalAllocator::new(2);
    a.set_range_used(3 * FRAME_SIZE..5 * FRAME_SIZE);
    b.set_span_used(3 * FRAME_SIZE, 5 * FRAME_SIZE);
    assert_eq!(a.get_free(), b.get_free());
    assert_eq!(a.allocate(), b.allocate());
}
