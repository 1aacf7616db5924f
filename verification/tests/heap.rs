//! The composed heap, the CPU abstraction and the task types.

use kernel_core::FRAME_SIZE;
use kernel_core::buddy::GRANULE_SIZE;
use kernel_core::cpu::Cpu;
use kernel_core::cpu::CpuInfo;
use kernel_core::cpu::Util;
use kernel_core::heap::Heap;
use kernel_core::heap::MemoryRegion;
use kernel_core::interrupts::InterruptTable;
use kernel_core::paging::PageTable;
use kernel_core::phys::PhysicalAllocator;
use kernel_core::task::Awaitable;
use kernel_core::task::Scheduler;
use kernel_core::task::Task;
use kernel_core::task::TaskId;
use kernel_core::task::TaskStatus;

// 64 frames of physical memory with the first 16 reserved for firmware.
fn boot_map() -> Vec<MemoryRegion> {
    vec![
        MemoryRegion { base: 0, len: 16 * FRAME_SIZE, usable: false },
        MemoryRegion { base: 16 * FRAME_SIZE, len: 48 * FRAME_SIZE, usable: true },
    ]
}

const HHDM: usize = 0x1_0000_0000;

#[test]
fn heap_construction_reserves_firmware_frames() {
    let heap = Heap::new(&boot_map(), HHDM).unwrap();
    // the reserved region and the buddy allocator's two bookkeeping frames
    // are gone; everything else is allocatable
    assert_eq!(heap.physical_allocator.get_free(), (48 - 2) * FRAME_SIZE);
    assert_eq!(
        heap.physical_allocator.get_free(),
        heap.physical_allocator.get_free_actual()
    );
}

#[test]
fn heap_rejects_map_without_room_for_the_bitmap() {
    let map = vec![MemoryRegion { base: 0, len: 64 * FRAME_SIZE, usable: false }];
    assert!(Heap::new(&map, HHDM).is_none());
}

#[test]
fn heap_alloc_rounds_and_maps() {
    let mut heap = Heap::new(&boot_map(), HHDM).unwrap();
    let (addr, size) = heap.allocate(1).unwrap();
    // the virtual range starts right above the direct map of all memory
    assert_eq!(addr, HHDM + 64 * FRAME_SIZE);
    assert_eq!(size, GRANULE_SIZE);
    // both pages of the granule are mapped
    assert!(heap.page_table.get_physical_addr(addr).is_some());
    assert!(heap.page_table.get_physical_addr(addr + FRAME_SIZE).is_some());
}

#[test]
fn heap_alloc_size_is_smallest_fitting_power_of_two() {
    let mut heap = Heap::new(&boot_map(), HHDM).unwrap();
    assert_eq!(heap.allocate(1).unwrap().1, GRANULE_SIZE);
    assert_eq!(heap.allocate(GRANULE_SIZE).unwrap().1, GRANULE_SIZE);
    assert_eq!(heap.allocate(GRANULE_SIZE + 1).unwrap().1, 2 * GRANULE_SIZE);
}

#[test]
fn heap_free_unmaps_and_recycles() {
    let mut heap = Heap::new(&boot_map(), HHDM).unwrap();
    let frames_before = heap.physical_allocator.get_free();
    let (addr, size) = heap.allocate(size_hint()).unwrap();
    heap.free(addr, size_hint());
    assert_eq!(heap.page_table.get_physical_addr(addr), None);
    assert_eq!(heap.page_table.get_physical_addr(addr + FRAME_SIZE), None);
    // all granule frames return; only the page table's intermediate levels
    // stay allocated, as accepted debt
    assert_eq!(
        heap.physical_allocator.get_free(),
        frames_before - 3 * FRAME_SIZE
    );
    // the virtual range is whole again: the same address comes back
    let (again, s) = heap.allocate(size_hint()).unwrap();
    assert_eq!(again, addr);
    assert_eq!(s, size);
}

fn size_hint() -> usize {
    GRANULE_SIZE
}

#[test]
fn heap_exhaustion_propagates_none() {
    let mut heap = Heap::new(&boot_map(), HHDM).unwrap();
    // more pages than physical memory holds
    assert!(heap.allocate(128 * FRAME_SIZE).is_none());
}

#[test]
fn cpu_binds_its_tables() {
    let mut pa = PhysicalAllocator::new(8);
    let mut stub_addrs = Vec::new();
    for i in 0..256 {
        stub_addrs.push(0x20_0000 + i * 16);
    }
    let idt: InterruptTable<usize> = InterruptTable::new(&stub_addrs, &mut pa).unwrap();
    let pt = PageTable::new();
    let mut cpu = Cpu::new(CpuInfo { userspace: false, cpu_id: 0 }, pt, idt);
    assert_eq!(cpu.info().cpu_id, 0);
    assert!(!cpu.info().userspace);
    assert_eq!(cpu.page_table().get_physical_addr(0x1000), None);
    assert_eq!(cpu.interrupt_table().handler_for(14), None);
    let idt2: InterruptTable<usize> = InterruptTable::new(&stub_addrs, &mut pa).unwrap();
    cpu.set_interrupt_table(idt2);
    cpu.set_page_table(PageTable::new());
    assert_eq!(cpu.page_table().get_physical_addr(0x1000), None);
}

#[test]
fn gdt_has_the_eleven_boot_descriptors() {
    let gdt = Util::gdt_entries();
    assert_eq!(gdt.len(), 11);
    assert_eq!(gdt[0], 0);
    assert_eq!(gdt[5], 0x00af9b000000ffff); // 64-bit kernel code at 0x28
    assert_eq!(gdt[6], 0x00af93000000ffff); // 64-bit kernel data at 0x30
    assert_eq!(Util::gdtr_value(0x7000), 0x50 | (0x7000u128 << 16));
}

#[test]
fn task_id_packs_into_one_word() {
    let id = TaskId { core_id: 0x42, reserved: 0x123456, index: 0x7777 };
    let word = usize::from(id);
    assert_eq!(word, 0x42 | (0x123456 << 16) | (0x7777 << 48));
    let back = TaskId::from(word);
    assert_eq!(back, id);
}

struct Done;

impl Awaitable for Done {
    fn finished(&self) -> bool {
        true
    }
}

#[test]
fn scheduler_holds_tasks() {
    let mut s = Scheduler::new();
    assert_eq!(s.processes.len(), 0);
    s.processes.push(Task {
        id: TaskId { core_id: 0, reserved: 0, index: 1 },
        status: TaskStatus::Running,
    });
    s.processes.push(Task {
        id: TaskId { core_id: 0, reserved: 0, index: 2 },
        status: TaskStatus::Waiting(Box::new(Done)),
    });
    assert_eq!(s.processes.len(), 2);
    match &s.processes[1].status {
        TaskStatus::Waiting(a) => assert!(a.finished()),
        TaskStatus::Running => panic!("second task should wait"),
    }
}

#[test]
fn heap_zero_length_region_reserves_nothing() {
    // A zero-length non-usable entry covers no frame, aligned or not.
    let map = vec![
        MemoryRegion { base: 100, len: 0, usable: false },
        MemoryRegion { base: 0, len: 64 * FRAME_SIZE, usable: true },
    ];
    let heap = Heap::new(&map, HHDM).unwrap();
    // only the buddy allocator's two bookkeeping frames are gone
    assert_eq!(heap.physical_allocator.get_free(), (64 - 2) * FRAME_SIZE);
}
