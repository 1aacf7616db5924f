//! Heap: composes the physical frame allocator, the buddy virtual
//! allocator and the page table into a general-purpose allocator.
//!
//! Construction consumes the boot loader's memory map as plain values: the
//! bitmap is sized from the highest reported address, every frame of a
//! non-usable region is reserved, and the buddy allocator takes the virtual
//! range above the direct map.  `alloc` carves virtual space, backs it with
//! frames and installs present+writable mappings; `free` tears the mappings
//! down, releases the frames and returns the range.

use vstd::prelude::*;

verus! {

use crate::FRAME_SIZE;
use crate::buddy::BuddyNode;
use crate::buddy::GRANULE_SIZE;
use crate::buddy::MAX_SLABS;
use crate::buddy::VirtualAllocator;
use crate::buddy::alloc_possible;
use crate::buddy::alloc_result;
use crate::buddy::find_base;
use crate::buddy::first_fit;
use crate::buddy::free_result;
use crate::buddy::good_size;
use crate::buddy::is_pow2;
use crate::buddy::merged;
use crate::buddy::round_request;
use crate::buddy::round_size;
use crate::paging::MAX_TABLES;
use crate::paging::PageTable;
use crate::paging::same_page;
use crate::phys::PhysicalAllocator;
use crate::phys::count_free;

/// One entry of the boot loader's memory map, as plain values.
#[derive(Clone, Copy, Debug, PartialEq, Eq, Structural)]
pub struct MemoryRegion {
    pub base: usize,
    pub len: usize,
    pub usable: bool,
}

/// Whether frame `f` overlaps the (non-empty, non-usable) region `r`.
pub open spec fn region_covers(r: MemoryRegion, f: int) -> bool {
    &&& !r.usable
    &&& r.len > 0
    &&& r.base as int / FRAME_SIZE as int <= f
    &&& f * FRAME_SIZE < r.base + r.len
}

/// Whether frame `f` overlaps some non-usable region of the map; a region
/// of length zero covers no frame.
pub open spec fn frame_reserved(memory_map: Seq<MemoryRegion>, f: int) -> bool {
    exists|i: int| 0 <= i < memory_map.len() && region_covers(#[trigger] memory_map[i], f)
}

/// The bitmap a fresh heap starts from: one bit per frame, set exactly for
/// the frames some non-usable region overlaps.
pub open spec fn reserved_map(memory_map: Seq<MemoryRegion>, frames: int) -> Seq<bool> {
    Seq::new(frames as nat, |f: int| frame_reserved(memory_map, f))
}

/// The largest size the four-level page table can keep distinct: two
/// in-range page addresses never share all four table indices.
pub open spec fn mappable_size(s: int) -> bool {
    s <= 0x1_0000_0000_0000
}

/// Two page-aligned addresses less than the mappable span apart select
/// different slots somewhere in the tree.
proof fn lemma_distinct_pages(a: u64, b: u64)
    by (bit_vector)
    requires
        a < b,
        b - a < 0x1_0000_0000_0000,
        (b - a) % 4096 == 0,
    ensures
        !((a >> 39) & 0x1ff == (b >> 39) & 0x1ff && (a >> 30) & 0x1ff == (b >> 30) & 0x1ff && (a
            >> 21) & 0x1ff == (b >> 21) & 0x1ff && (a >> 12) & 0x1ff == (b >> 12) & 0x1ff),
{
}

/// Builds the boot bitmap: every frame is free except those that some
/// non-usable region of the map overlaps.
#[verifier::loop_isolation(false)]
#[verifier::spinoff_prover]
#[verifier::rlimit(100)]
fn reserve_regions(memory_map: &Vec<MemoryRegion>, pa_len: usize) -> (pa: PhysicalAllocator)
    requires
        pa_len * 8 * FRAME_SIZE <= usize::MAX,
        forall|i: int|
            0 <= i < memory_map@.len() ==> (#[trigger] memory_map@[i]).base + memory_map@[i].len
                <= usize::MAX,
    ensures
        pa.wf(),
        pa.num_frames() == pa_len * 8,
        pa@ == reserved_map(memory_map@, pa_len as int * 8),
{
    let mut physical_allocator = PhysicalAllocator::new(pa_len);
    let limit = pa_len * 8 * FRAME_SIZE;
    proof {
        assert(limit == physical_allocator.num_frames() * FRAME_SIZE) by (nonlinear_arith)
            requires
                limit == pa_len * 8 * FRAME_SIZE,
                physical_allocator.num_frames() == pa_len * 8,
                FRAME_SIZE == 4096,
        ;
    }
        // reserve every frame of a non-usable region
        let mut i: usize = 0;
        while i < memory_map.len()
            invariant
                i <= memory_map@.len(),
                physical_allocator.wf(),
                physical_allocator.num_frames() == pa_len * 8,
                limit == physical_allocator.num_frames() * FRAME_SIZE,
                limit <= usize::MAX,
                forall|f: int|
                    0 <= f < physical_allocator.num_frames() ==> physical_allocator@[f]
                        == frame_reserved(memory_map@.take(i as int), f),
            decreases memory_map@.len() - i,
        {
            let entry = memory_map[i];
            let ghost pre = physical_allocator@;
            if !entry.usable {
                let start = if entry.base < limit {
                    entry.base
                } else {
                    limit
                };
                let end_raw = entry.base + entry.len;
                let end = if end_raw < limit {
                    end_raw
                } else {
                    limit
                };
                let start2 = if start < end {
                    start
                } else {
                    end
                };
                physical_allocator.set_range_used(start2..end);
                proof {
                    assert forall|f: int|
                        0 <= f < physical_allocator.num_frames() implies physical_allocator@[f]
                        == frame_reserved(memory_map@.take(i as int + 1), f) by {
                        assert(physical_allocator@[f] == (pre[f] || (start2 < end && start2 as int
                            / FRAME_SIZE as int <= f && f * FRAME_SIZE < end)));
                        assert((start2 < end && start2 as int / FRAME_SIZE as int <= f && f
                            * FRAME_SIZE < end) == region_covers(entry, f)) by {
                            assert(f * FRAME_SIZE < limit) by (nonlinear_arith)
                                requires
                                    0 <= f < pa_len * 8,
                                    limit == pa_len * 8 * FRAME_SIZE,
                                    FRAME_SIZE == 4096,
                            ;
                            if entry.base >= limit {
                                assert(entry.base as int / FRAME_SIZE as int >= pa_len * 8)
                                    by (nonlinear_arith)
                                    requires
                                        entry.base >= limit,
                                        limit == pa_len * 8 * FRAME_SIZE,
                                        FRAME_SIZE == 4096,
                                ;
                            } else if entry.base + entry.len >= limit {
                                assert(start2 == entry.base && end == limit);
                            }
                        }
                        if physical_allocator@[f] {
                            if pre[f] {
                                let ghost w = choose|k: int|
                                    0 <= k < memory_map@.take(i as int).len() && region_covers(
                                        #[trigger] memory_map@.take(i as int)[k],
                                        f,
                                    );
                                assert(memory_map@.take(i as int + 1)[w] == memory_map@.take(
                                    i as int,
                                )[w]);
                                assert(frame_reserved(memory_map@.take(i as int + 1), f));
                            } else {
                                assert(memory_map@.take(i as int + 1)[i as int] == entry);
                                assert(frame_reserved(memory_map@.take(i as int + 1), f));
                            }
                        } else {
                            assert forall|k: int|
                                0 <= k < memory_map@.take(i as int + 1).len() implies !region_covers(
                                #[trigger] memory_map@.take(i as int + 1)[k],
                                f,
                            ) by {
                                if k < i as int {
                                    assert(memory_map@.take(i as int)[k] == memory_map@.take(
                                        i as int + 1,
                                    )[k]);
                                    assert(!frame_reserved(memory_map@.take(i as int), f));
                                }
                            }
                        }
                    }
                }
            } else {
                proof {
                    assert forall|f: int|
                        0 <= f < physical_allocator.num_frames() implies physical_allocator@[f]
                        == frame_reserved(memory_map@.take(i as int + 1), f) by {
                        if frame_reserved(memory_map@.take(i as int + 1), f) {
                            let ghost w = choose|k: int|
                                0 <= k < memory_map@.take(i as int + 1).len() && region_covers(
                                    #[trigger] memory_map@.take(i as int + 1)[k],
                                    f,
                                );
                            assert(w != i as int);
                            assert(memory_map@.take(i as int)[w] == memory_map@.take(
                                i as int + 1,
                            )[w]);
                            assert(frame_reserved(memory_map@.take(i as int), f));
                        } else {
                            if frame_reserved(memory_map@.take(i as int), f) {
                                let ghost w = choose|k: int|
                                    0 <= k < memory_map@.take(i as int).len() && region_covers(
                                        #[trigger] memory_map@.take(i as int)[k],
                                        f,
                                    );
                                assert(memory_map@.take(i as int + 1)[w] == memory_map@.take(
                                    i as int,
                                )[w]);
                                assert(frame_reserved(memory_map@.take(i as int + 1), f));
                            }
                        }
                    }
                }
            }
            i += 1;
        }
        proof {
            assert(memory_map@.take(memory_map@.len() as int) =~= memory_map@);
        }
    proof {
        assert(physical_allocator@ =~= reserved_map(memory_map@, pa_len as int * 8));
    }
    physical_allocator
}

/// What a successful allocation leaves behind for one page: a present,
/// writable leaf whose 4 KiB-aligned physical address names an in-range
/// frame that was free before the call and is marked used after it.
pub open spec fn page_backed(pre: Heap, post: Heap, page: int) -> bool {
    let e = post.page_table.lookup_entry(page as u64)->Some_0;
    &&& post.page_table.lookup_entry(page as u64) is Some
    &&& crate::paging::entry_present(e)
    &&& crate::paging::entry_writeable(e)
    &&& crate::paging::entry_addr(e) as int % FRAME_SIZE as int == 0
    &&& (crate::paging::entry_addr(e) as int) < post.physical_allocator.num_frames() * FRAME_SIZE
    &&& !pre.physical_allocator@[crate::paging::entry_addr(e) as int / FRAME_SIZE as int]
    &&& post.physical_allocator@[crate::paging::entry_addr(e) as int / FRAME_SIZE as int]
}

/// The heap value itself; lets loop invariants speak of the evolving heap
/// as one value.
pub open spec fn cur_heap(h: Heap) -> Heap {
    h
}

/// The physical address a mapped page's leaf entry names.
pub open spec fn backing_addr(h: Heap, page: int) -> int {
    crate::paging::entry_addr(h.page_table.lookup_entry(page as u64)->Some_0) as int
}

/// Resources that guarantee an allocation of `size` bytes succeeds: the
/// buddy allocator can serve it, and the bitmap holds enough frames for
/// every page plus its worst-case page-table levels and node slabs, with
/// index space left in the table arena.
pub open spec fn alloc_assured(h: Heap, size: int) -> bool {
    let pages = round_size(size) / FRAME_SIZE as int;
    &&& alloc_possible(h.virtual_allocator@, count_free(h.physical_allocator@), size)
    &&& count_free(h.physical_allocator@) >= 4 * pages + MAX_SLABS
    &&& h.page_table.num_tables() + 3 * pages + 3 <= MAX_TABLES
}

/// The allocator backing all general dynamic allocation: virtual space from
/// the buddy allocator, frames from the bitmap, mappings in the page table.
/// It performs no locking of its own; callers serialize access externally.
pub struct Heap {
    pub physical_allocator: PhysicalAllocator,
    pub virtual_allocator: VirtualAllocator,
    pub page_table: PageTable,
    pub hhdm_start: usize,
    pub bitmap_base: usize,
}

impl Heap {
    /// All three components are structurally sound and agree on the bitmap
    /// size.
    pub open spec fn wf(self) -> bool {
        &&& self.physical_allocator.wf()
        &&& self.physical_allocator.num_frames() * FRAME_SIZE <= 0x10_0000_0000_0000
        &&& self.virtual_allocator.wf()
        &&& self.virtual_allocator.frames_ok(self.physical_allocator.num_frames())
        &&& self.page_table.wf()
    }

    /// Builds the heap from the boot memory map: sizes the frame bitmap
    /// from the highest reported address, reserves every non-usable region,
    /// records a usable region large enough to hold the bitmap itself, and
    /// gives the buddy allocator the largest power-of-two range that fits
    /// above the direct map of physical memory.  Fails when no usable
    /// region can hold the bitmap or the reserved map leaves fewer than the
    /// two frames the buddy allocator's bookkeeping needs.
    #[verifier::loop_isolation(false)]
    #[verifier::rlimit(100)]
    pub fn new(memory_map: &Vec<MemoryRegion>, hhdm_start: usize) -> (r: Option<Heap>)
        requires
            memory_map@.len() >= 1,
            forall|i: int|
                0 <= i < memory_map@.len() ==> (#[trigger] memory_map@[i]).base + memory_map@[i].len
                    <= memory_map@.last().base + memory_map@.last().len,
            memory_map@.last().base + memory_map@.last().len <= 0x10_0000_0000_0000,
            hhdm_start + memory_map@.last().base + memory_map@.last().len + 2 * GRANULE_SIZE
                <= usize::MAX,
        ensures
            r is Some ==> ({
                let h = r->Some_0;
                {
                    &&& h.wf()
                    &&& h.hhdm_start == hhdm_start
                    &&& h.virtual_allocator@.len() == 1
                    &&& !h.virtual_allocator@[0].used
                    &&& h.virtual_allocator@[0].base == hhdm_start + memory_map@.last().base
                        + memory_map@.last().len
                    &&& good_size(h.virtual_allocator@[0].size as int)
                    &&& h.physical_allocator.num_frames() == ((memory_map@.last().base
                        + memory_map@.last().len) as int / (FRAME_SIZE as int * 8)) * 8
                    &&& h.virtual_allocator.slab_frames_view().len() == 1
                    &&& h.virtual_allocator.registry_frame_spec()
                        < h.physical_allocator.num_frames()
                    &&& h.virtual_allocator.slab_frames_view()[0]
                        < h.physical_allocator.num_frames()
                    &&& h.virtual_allocator.registry_frame_spec()
                        != h.virtual_allocator.slab_frames_view()[0]
                    &&& !frame_reserved(memory_map@, h.virtual_allocator.registry_frame_spec() as int)
                    &&& !frame_reserved(memory_map@, h.virtual_allocator.slab_frames_view()[0] as int)
                    &&& h.physical_allocator@ == reserved_map(
                        memory_map@,
                        h.physical_allocator.num_frames(),
                    ).update(h.virtual_allocator.registry_frame_spec() as int, true).update(
                        h.virtual_allocator.slab_frames_view()[0] as int,
                        true,
                    )
                    &&& count_free(h.physical_allocator@) == count_free(
                        reserved_map(memory_map@, h.physical_allocator.num_frames()),
                    ) - 2
                    &&& forall|f: int|
                        0 <= f < h.physical_allocator.num_frames() && frame_reserved(
                            memory_map@,
                            f,
                        ) ==> h.physical_allocator@[f]
                }
            }),
            r is None ==> ({
                let pa_len = (memory_map@.last().base + memory_map@.last().len) as int
                    / FRAME_SIZE as int / 8;
                {
                    ||| forall|i: int|
                        0 <= i < memory_map@.len() ==> !((#[trigger] memory_map@[i]).usable
                            && memory_map@[i].len >= pa_len)
                    ||| count_free(reserved_map(memory_map@, pa_len * 8)) < 2
                }
            }),
    {
        let last = memory_map[memory_map.len() - 1];
        let memory_len = last.base + last.len;
        let pa_len = memory_len / FRAME_SIZE / 8;
        // a usable region large enough to hold the bitmap itself
        let mut pa_start: Option<usize> = None;
        let mut i: usize = 0;
        while i < memory_map.len()
            invariant
                i <= memory_map@.len(),
                pa_start is None ==> forall|k: int|
                    0 <= k < i ==> !((#[trigger] memory_map@[k]).usable && memory_map@[k].len
                        >= pa_len),
            decreases memory_map@.len() - i,
        {
            let entry = memory_map[i];
            if entry.usable && entry.len >= pa_len {
                pa_start = Some(entry.base);
            }
            i += 1;
        }
        let bitmap_base = match pa_start {
            Some(b) => b,
            None => {
                return None;
            },
        };
        let mut physical_allocator = reserve_regions(memory_map, pa_len);
        proof {
            assert(physical_allocator@ == reserved_map(memory_map@, pa_len as int * 8));
            vstd::arithmetic::div_mod::lemma_div_denominator(
                memory_len as int,
                FRAME_SIZE as int,
                8,
            );
        }

        // the buddy allocator manages the range above the direct map
        let va_base = hhdm_start + memory_len;
        let avail = usize::MAX - va_base;
        let mut va_size: usize = GRANULE_SIZE;
        proof {
            reveal_with_fuel(is_pow2, 15);
            assert(is_pow2(GRANULE_SIZE as int));
        }
        while va_size <= avail / 2
            invariant
                good_size(va_size as int),
                va_size <= avail,
            decreases avail - va_size,
        {
            va_size = va_size * 2;
        }
        let virtual_allocator = match VirtualAllocator::new(
            va_base,
            va_size,
            &mut physical_allocator,
        ) {
            Some(va) => va,
            None => {
                return None;
            },
        };
        let page_table = PageTable::new();
        Some(
            Heap {
                physical_allocator,
                virtual_allocator,
                page_table,
                hhdm_start,
                bitmap_base,
            },
        )
    }

    /// Backs every page of `[addr, addr + rounded)` with a fresh frame under
    /// a present+writable mapping.  On failure, pages already mapped stay
    /// mapped, as unreachable debt.
    #[verifier::loop_isolation(false)]
    #[verifier::spinoff_prover]
    #[verifier::rlimit(100)]
    fn back_block(&mut self, addr: usize, rounded: usize) -> (ok: bool)
        requires
            old(self).wf(),
            addr + rounded <= usize::MAX,
            rounded <= 0x1_0000_0000_0000,
        ensures
            final(self).wf(),
            final(self).hhdm_start == old(self).hhdm_start,
            final(self).bitmap_base == old(self).bitmap_base,
            final(self).virtual_allocator == old(self).virtual_allocator,
            final(self).physical_allocator.num_frames() == old(self).physical_allocator.num_frames(),
            forall|i: int|
                0 <= i < old(self).physical_allocator@.len() && old(self).physical_allocator@[i]
                    ==> #[trigger] final(self).physical_allocator@[i],
            !ok ==> !(count_free(old(self).physical_allocator@) >= 4 * (rounded as int
                / FRAME_SIZE as int) && old(self).page_table.num_tables() + 3 * (rounded as int
                / FRAME_SIZE as int) + 3 <= MAX_TABLES),
            ok ==> count_free(final(self).physical_allocator@) == count_free(
                old(self).physical_allocator@,
            ) - rounded as int / FRAME_SIZE as int - (final(self).page_table.num_tables() - old(self).page_table.num_tables()),
            ok ==> forall|p: int|
                0 <= p < rounded as int / FRAME_SIZE as int ==> (#[trigger] final(self).page_table.lookup((addr + p * FRAME_SIZE) as u64)) is Some,
            ok ==> forall|p: int|
                0 <= p < rounded as int / FRAME_SIZE as int ==> #[trigger] page_backed(
                    *old(self),
                    *final(self),
                    addr + p * FRAME_SIZE,
                ),
            ok ==> forall|p1: int, p2: int|
                #![trigger backing_addr(*final(self), addr + p1 * FRAME_SIZE), backing_addr(*final(self), addr + p2 * FRAME_SIZE)]
                0 <= p1 < p2 < rounded as int / FRAME_SIZE as int ==> backing_addr(
                    *final(self),
                    addr + p1 * FRAME_SIZE,
                ) != backing_addr(*final(self), addr + p2 * FRAME_SIZE),
    {
        let pages = rounded / FRAME_SIZE;
        let ghost addr0 = addr as int;
        let ghost count_mid = count_free(self.physical_allocator@);
        let ghost tables_mid = self.page_table.num_tables();
        let ghost roomy = count_mid >= 4 * (pages as int) && tables_mid + 3 * (pages as int) + 3
            <= MAX_TABLES;
        let mut p: usize = 0;
        while p < pages
            invariant
                p <= pages,
                self.wf(),
                self.hhdm_start == old(self).hhdm_start,
                self.bitmap_base == old(self).bitmap_base,
                self.virtual_allocator == old(self).virtual_allocator,
                self.physical_allocator.num_frames() == old(self).physical_allocator.num_frames(),
                forall|i: int|
                    0 <= i < old(self).physical_allocator@.len() && old(self).physical_allocator@[i]
                        ==> #[trigger] self.physical_allocator@[i],
                count_free(self.physical_allocator@) == count_mid - p - (
                self.page_table.num_tables() - tables_mid),
                self.page_table.num_tables() >= tables_mid,
                forall|q: int|
                    0 <= q < p ==> (#[trigger] self.page_table.lookup(
                        (addr0 + q * FRAME_SIZE) as u64,
                    )) is Some,
                forall|q: int|
                    0 <= q < p ==> #[trigger] page_backed(
                        *old(self),
                        cur_heap(*self),
                        addr0 + q * FRAME_SIZE,
                    ),
                forall|q1: int, q2: int|
                    #![trigger backing_addr(cur_heap(*self), addr0 + q1 * FRAME_SIZE), backing_addr(cur_heap(*self), addr0 + q2 * FRAME_SIZE)]
                    0 <= q1 < q2 < p ==> backing_addr(cur_heap(*self), addr0 + q1 * FRAME_SIZE)
                        != backing_addr(cur_heap(*self), addr0 + q2 * FRAME_SIZE),
                roomy ==> count_free(self.physical_allocator@) >= 4 * (pages - p),
                roomy ==> self.page_table.num_tables() <= tables_mid + 3 * p,
            decreases pages - p,
        {
            let ghost top = cur_heap(*self);
            let ghost pa_top = self.physical_allocator@;
            let frame = match self.physical_allocator.allocate() {
                Some(f) => f,
                None => {
                    proof {
                        assert(!roomy);
                    }
                    return false;
                },
            };
            proof {
                self.physical_allocator.lemma_num_frames_bound();
                assert(frame * FRAME_SIZE < self.physical_allocator.num_frames() * FRAME_SIZE
                    && frame * FRAME_SIZE <= usize::MAX && (frame * FRAME_SIZE) as int % (
                FRAME_SIZE as int) == 0) by (nonlinear_arith)
                    requires
                        0 <= frame < self.physical_allocator.num_frames(),
                        self.physical_allocator.num_frames() * FRAME_SIZE <= usize::MAX,
                        FRAME_SIZE == 4096,
                ;
                assert(frame * FRAME_SIZE < 0x10_0000_0000_0000);
                crate::paging::lemma_addr_fits_entry((frame * FRAME_SIZE) as u64);
                assert(p * FRAME_SIZE < rounded) by (nonlinear_arith)
                    requires
                        0 <= p < pages,
                        pages == rounded as int / FRAME_SIZE as int,
                        FRAME_SIZE == 4096,
                ;
            }
            let page_addr = addr + p * FRAME_SIZE;
            let ghost pre_pt = self.page_table;
            let ghost pre_pa = self.physical_allocator@;
            let ok = self.page_table.map_page(
                page_addr,
                frame * FRAME_SIZE,
                &mut self.physical_allocator,
            );
            if !ok {
                proof {
                    pre_pt.lemma_missing_bound(page_addr as u64);
                    if roomy {
                        assert(false);
                    }
                }
                return false;
            }
            proof {
                pre_pt.lemma_missing_bound(page_addr as u64);
                let ghost cur = cur_heap(*self);
                assert(crate::paging::entry_addr(
                    self.page_table.lookup_entry(page_addr as u64)->Some_0,
                ) == (frame * FRAME_SIZE) as u64);
                assert forall|q: int| 0 <= q < p implies ! #[trigger] same_page(
                    (addr0 + q * FRAME_SIZE) as u64,
                    page_addr as u64,
                ) by {
                    let a = (addr0 + q * FRAME_SIZE) as u64;
                    let b = (addr0 + p as int * FRAME_SIZE) as u64;
                    assert(a < b && b - a < 0x1_0000_0000_0000 && (b - a) % 4096 == 0)
                        by (nonlinear_arith)
                        requires
                            0 <= q < p,
                            a == addr0 + q * 4096,
                            b == addr0 + p as int * 4096,
                            addr0 + rounded <= usize::MAX,
                            p < pages,
                            pages == rounded as int / 4096,
                            rounded <= 0x1_0000_0000_0000,
                            FRAME_SIZE == 4096,
                    ;
                    lemma_distinct_pages(a, b);
                }
                assert forall|q: int|
                    0 <= q < p + 1 implies (#[trigger] self.page_table.lookup(
                    (addr0 + q * FRAME_SIZE) as u64,
                )) is Some by {}
                assert forall|q: int|
                    0 <= q < p + 1 implies #[trigger] page_backed(
                    *old(self),
                    cur,
                    addr0 + q * FRAME_SIZE,
                ) by {
                    if q == p {
                        assert(!pa_top[frame as int]);
                        assert(!old(self).physical_allocator@[frame as int]);
                        assert(pre_pa[frame as int]);
                        assert(self.physical_allocator@[frame as int]);
                        assert((frame * FRAME_SIZE) as int / FRAME_SIZE as int == frame as int);
                    } else {
                        assert(page_backed(*old(self), top, addr0 + q * FRAME_SIZE));
                        let page = addr0 + q * FRAME_SIZE;
                        assert(cur.page_table.lookup_entry(page as u64)
                            == top.page_table.lookup_entry(page as u64));
                        let f = crate::paging::entry_addr(
                            top.page_table.lookup_entry(page as u64)->Some_0,
                        ) as int / FRAME_SIZE as int;
                        assert(pa_top[f]);
                        assert(pre_pa[f]);
                        assert(self.physical_allocator@[f]);
                    }
                }
                assert forall|q1: int, q2: int|
                    #![trigger backing_addr(cur, addr0 + q1 * FRAME_SIZE), backing_addr(cur, addr0 + q2 * FRAME_SIZE)]
                    0 <= q1 < q2 < p + 1 implies backing_addr(cur, addr0 + q1 * FRAME_SIZE)
                    != backing_addr(cur, addr0 + q2 * FRAME_SIZE) by {
                    if q2 == p as int {
                        let page1 = addr0 + q1 * FRAME_SIZE;
                        assert(page_backed(*old(self), top, page1));
                        assert(cur.page_table.lookup_entry(page1 as u64)
                            == top.page_table.lookup_entry(page1 as u64));
                        let e1 = cur.page_table.lookup_entry(page1 as u64)->Some_0;
                        let f1 = crate::paging::entry_addr(e1) as int / FRAME_SIZE as int;
                        assert(pa_top[f1]);
                        assert(!pa_top[frame as int]);
                        assert(crate::paging::entry_addr(e1) as int == f1 * FRAME_SIZE)
                            by (nonlinear_arith)
                            requires
                                crate::paging::entry_addr(e1) as int % FRAME_SIZE as int == 0,
                                f1 == crate::paging::entry_addr(e1) as int / FRAME_SIZE as int,
                                FRAME_SIZE == 4096,
                        ;
                    } else {
                        assert(backing_addr(top, addr0 + q1 * FRAME_SIZE) == backing_addr(
                            cur,
                            addr0 + q1 * FRAME_SIZE,
                        ));
                        assert(backing_addr(top, addr0 + q2 * FRAME_SIZE) == backing_addr(
                            cur,
                            addr0 + q2 * FRAME_SIZE,
                        ));
                    }
                }
            }
            p += 1;
        }
        proof {
            assert forall|p: int|
                0 <= p < rounded as int / FRAME_SIZE as int implies #[trigger] page_backed(
                *old(self),
                *self,
                addr + p * FRAME_SIZE,
            ) by {
                assert(page_backed(*old(self), cur_heap(*self), addr0 + p * FRAME_SIZE));
            }
            assert forall|p1: int, p2: int|
                #![trigger backing_addr(*self, addr + p1 * FRAME_SIZE), backing_addr(*self, addr + p2 * FRAME_SIZE)]
                0 <= p1 < p2 < rounded as int / FRAME_SIZE as int implies backing_addr(
                *self,
                addr + p1 * FRAME_SIZE,
            ) != backing_addr(*self, addr + p2 * FRAME_SIZE) by {
                assert(backing_addr(cur_heap(*self), addr0 + p1 * FRAME_SIZE) != backing_addr(
                    cur_heap(*self),
                    addr0 + p2 * FRAME_SIZE,
                ));
            }
        }
        true
    }

    /// Serves a byte-sized request: reserves virtual space (rounded to the
    /// smallest power-of-two block of at least a granule), then backs every
    /// page of it with a fresh, pairwise-distinct frame under a
    /// present+writable mapping.  Returns base address and rounded size; the
    /// caller must free with the same size.  On exhaustion of memory partway
    /// through, already-mapped pages of the failed request stay mapped, as
    /// unreachable debt.
    #[verifier::loop_isolation(false)]
    #[verifier::spinoff_prover]
    #[verifier::rlimit(100)]
    pub fn allocate(&mut self, size: usize) -> (r: Option<(usize, usize)>)
        requires
            old(self).wf(),
            mappable_size(size as int),
        ensures
            final(self).wf(),
            final(self).hhdm_start == old(self).hhdm_start,
            final(self).physical_allocator.num_frames() == old(self).physical_allocator.num_frames(),
            forall|i: int|
                0 <= i < old(self).physical_allocator@.len() && old(self).physical_allocator@[i]
                    ==> #[trigger] final(self).physical_allocator@[i],
            match r {
                Some(block) => {
                    &&& block.1 == round_size(size as int)
                    &&& good_size(block.1 as int)
                    &&& block.1 >= size
                    &&& alloc_possible(
                        old(self).virtual_allocator@,
                        count_free(old(self).physical_allocator@),
                        size as int,
                    )
                    &&& block.0 == old(self).virtual_allocator@[first_fit(
                        old(self).virtual_allocator@,
                        round_size(size as int),
                    )].base
                    &&& final(self).virtual_allocator@ == alloc_result(
                        old(self).virtual_allocator@,
                        round_size(size as int),
                    )
                    &&& forall|p: int|
                        0 <= p < block.1 as int / FRAME_SIZE as int ==> (#[trigger] final(self).page_table.lookup((block.0 + p * FRAME_SIZE) as u64)) is Some
                    &&& forall|p: int|
                        0 <= p < block.1 as int / FRAME_SIZE as int ==> #[trigger] page_backed(
                            *old(self),
                            *final(self),
                            block.0 + p * FRAME_SIZE,
                        )
                    &&& forall|p1: int, p2: int|
                        #![trigger backing_addr(*final(self), block.0 + p1 * FRAME_SIZE), backing_addr(*final(self), block.0 + p2 * FRAME_SIZE)]
                        0 <= p1 < p2 < block.1 as int / FRAME_SIZE as int ==> backing_addr(
                            *final(self),
                            block.0 + p1 * FRAME_SIZE,
                        ) != backing_addr(*final(self), block.0 + p2 * FRAME_SIZE)
                    &&& count_free(final(self).physical_allocator@) == count_free(
                        old(self).physical_allocator@,
                    ) - block.1 as int / FRAME_SIZE as int - (final(self).virtual_allocator.slab_frames_view().len() - old(self).virtual_allocator.slab_frames_view().len()) - (final(self).page_table.num_tables() - old(self).page_table.num_tables())
                },
                None => !alloc_assured(*old(self), size as int),
            },
    {
        let ghost assured = alloc_assured(*old(self), size as int);
        let addr = match self.virtual_allocator.allocate(size, &mut self.physical_allocator) {
            Some(a) => a,
            None => {
                return None;
            },
        };
        let rounded = match round_request(size) {
            Some(p) => p,
            None => {
                proof {
                    assert(false);
                }
                return None;
            },
        };
        proof {
            let ghost va1 = self.virtual_allocator@;
            let ghost jf = first_fit(old(self).virtual_allocator@, round_size(size as int));
            crate::buddy::lemma_first_fit_props(
                old(self).virtual_allocator@,
                round_size(size as int),
            );
            crate::buddy::lemma_alloc_result_wf(
                old(self).virtual_allocator@,
                round_size(size as int),
            );
            if usize::MAX as int >= 0x1_0000_0000_0000 {
                crate::buddy::reveal_pow48();
                crate::buddy::lemma_round_size_smallest(size as int, 0x1_0000_0000_0000);
            }
            assert(rounded <= 0x1_0000_0000_0000);
            assert(va1[jf] == (BuddyNode { base: addr, size: rounded, used: true }));
            crate::buddy::lemma_nodes_extent(va1, jf);
            assert(addr + rounded <= usize::MAX);
            if assured {
                old(self).virtual_allocator.lemma_slab_accounting();
                self.virtual_allocator.lemma_slab_accounting();
                crate::buddy::lemma_slabs_bounds(old(self).virtual_allocator@.len() as int);
                crate::buddy::lemma_slabs_bounds(self.virtual_allocator@.len() as int);
            }
        }
        let ghost mid = cur_heap(*self);
        let backed = self.back_block(addr, rounded);
        if !backed {
            proof {
                assert(!assured);
            }
            return None;
        }
        proof {
            let pages = rounded as int / FRAME_SIZE as int;
            assert forall|p: int| 0 <= p < pages implies #[trigger] page_backed(
                *old(self),
                *self,
                addr as int + p * FRAME_SIZE,
            ) by {
                assert(page_backed(mid, *self, addr as int + p * FRAME_SIZE));
            }
        }
        Some((addr, rounded))
    }

    /// Releases a block returned by `alloc`: for every page, reads the
    /// backing frame, tears the mapping down and only then frees the frame;
    /// finally returns the virtual range to the buddy allocator, which
    /// merges it with its free neighbours.
    #[verifier::loop_isolation(false)]
    #[verifier::spinoff_prover]
    #[verifier::rlimit(100)]
    pub fn free(&mut self, addr: usize, size: usize)
        requires
            old(self).wf(),
            mappable_size(size as int),
            round_size(size as int) >= 0,
            find_base(old(self).virtual_allocator@, addr as int) >= 0,
            old(self).virtual_allocator@[find_base(old(self).virtual_allocator@, addr as int)].used,
            old(self).virtual_allocator@[find_base(old(self).virtual_allocator@, addr as int)].size
                == round_size(size as int),
            addr + round_size(size as int) <= usize::MAX,
            forall|p: int|
                0 <= p < round_size(size as int) / FRAME_SIZE as int ==> (#[trigger] old(self).page_table.lookup((addr + p * FRAME_SIZE) as u64)) is Some && (old(self).page_table.lookup((addr + p * FRAME_SIZE) as u64)->Some_0 as int)
                    < old(self).physical_allocator.num_frames() * FRAME_SIZE,
        ensures
            final(self).wf(),
            final(self).hhdm_start == old(self).hhdm_start,
            final(self).virtual_allocator@ == free_result(
                old(self).virtual_allocator@,
                find_base(old(self).virtual_allocator@, addr as int),
            ),
            merged(old(self).virtual_allocator@) ==> merged(final(self).virtual_allocator@),
            final(self).physical_allocator.num_frames() == old(self).physical_allocator.num_frames(),
            count_free(final(self).physical_allocator@) >= count_free(
                old(self).physical_allocator@,
            ),
            forall|i: int|
                0 <= i < old(self).physical_allocator@.len() && #[trigger] final(self).physical_allocator@[i] ==> old(self).physical_allocator@[i],
            forall|p: int|
                0 <= p < round_size(size as int) / FRAME_SIZE as int ==> ({
                    let phys = (#[trigger] old(self).page_table.lookup(
                        (addr + p * FRAME_SIZE) as u64,
                    ))->Some_0 as int;
                    !final(self).physical_allocator@[phys / FRAME_SIZE as int]
                }),
            forall|p: int|
                0 <= p < round_size(size as int) / FRAME_SIZE as int ==> (#[trigger] final(self).page_table.lookup((addr + p * FRAME_SIZE) as u64)) is None,
    {
        let rounded = match round_request(size) {
            Some(p) => p,
            None => {
                proof {
                    assert(false);
                }
                return ;
            },
        };
        proof {
            if usize::MAX as int >= 0x1_0000_0000_0000 {
                crate::buddy::reveal_pow48();
                crate::buddy::lemma_round_size_smallest(size as int, 0x1_0000_0000_0000);
            }
            assert(rounded <= 0x1_0000_0000_0000);
            crate::buddy::lemma_find_base_props(old(self).virtual_allocator@, addr as int);
        }
        let pages = rounded / FRAME_SIZE;
        let ghost addr0 = addr as int;
        let ghost pages0 = pages as int;
        let mut p: usize = 0;
        while p < pages
            invariant
                p <= pages,
                self.wf(),
                self.hhdm_start == old(self).hhdm_start,
                self.virtual_allocator == old(self).virtual_allocator,
                self.physical_allocator.num_frames() == old(self).physical_allocator.num_frames(),
                count_free(self.physical_allocator@) >= count_free(old(self).physical_allocator@),
                forall|q: int|
                    p <= q < pages0 ==> (#[trigger] self.page_table.lookup(
                        (addr0 + q * FRAME_SIZE) as u64,
                    )) == old(self).page_table.lookup((addr0 + q * FRAME_SIZE) as u64),
                forall|q: int|
                    0 <= q < p ==> (#[trigger] self.page_table.lookup(
                        (addr0 + q * FRAME_SIZE) as u64,
                    )) is None,
                forall|i: int|
                    0 <= i < old(self).physical_allocator@.len() && #[trigger] self.physical_allocator@[i]
                        ==> old(self).physical_allocator@[i],
                forall|q: int|
                    0 <= q < p ==> ({
                        let phys = (#[trigger] old(self).page_table.lookup(
                            (addr0 + q * FRAME_SIZE) as u64,
                        ))->Some_0 as int;
                        !self.physical_allocator@[phys / FRAME_SIZE as int]
                    }),
            decreases pages - p,
        {
            proof {
                assert(p * FRAME_SIZE < rounded) by (nonlinear_arith)
                    requires
                        0 <= p < pages,
                        pages == rounded as int / FRAME_SIZE as int,
                        FRAME_SIZE == 4096,
                ;
            }
            let page_addr = addr + p * FRAME_SIZE;
            let phys = match self.page_table.get_physical_addr(page_addr) {
                Some(a) => a,
                None => {
                    proof {
                        assert(false);
                    }
                    return ;
                },
            };
            let ghost phys_spec = old(self).page_table.lookup(
                (addr0 + p as int * FRAME_SIZE) as u64,
            )->Some_0 as int;
            proof {
                self.physical_allocator.lemma_num_frames_bound();
                assert(phys as int == phys_spec);
            }
            self.page_table.unmap_page(page_addr);
            proof {
                assert((phys as int) / (FRAME_SIZE as int) < self.physical_allocator.num_frames())
                    by (nonlinear_arith)
                    requires
                        (phys as int) < self.physical_allocator.num_frames() * FRAME_SIZE,
                        FRAME_SIZE == 4096,
                ;
            }
            let ghost pa_pre = self.physical_allocator@;
            self.physical_allocator.free(phys / FRAME_SIZE);
            proof {
                crate::phys::lemma_count_free_update(pa_pre, (phys / FRAME_SIZE) as int, false);
                assert forall|q: int|
                    0 <= q < p + 1 implies ({
                    let ph = (#[trigger] old(self).page_table.lookup(
                        (addr0 + q * FRAME_SIZE) as u64,
                    ))->Some_0 as int;
                    !self.physical_allocator@[ph / FRAME_SIZE as int]
                }) by {
                    if q == p {
                        assert(self.physical_allocator@ == pa_pre.update(
                            (phys / FRAME_SIZE) as int,
                            false,
                        ));
                        assert((phys / FRAME_SIZE) as int == phys_spec / FRAME_SIZE as int);
                    }
                }
                assert forall|q: int|
                    p + 1 <= q < pages0 implies (#[trigger] self.page_table.lookup(
                    (addr0 + q * FRAME_SIZE) as u64,
                )) == old(self).page_table.lookup((addr0 + q * FRAME_SIZE) as u64) by {
                    let a = (addr0 + p as int * FRAME_SIZE) as u64;
                    let b = (addr0 + q * FRAME_SIZE) as u64;
                    assert(a < b && b - a < 0x1_0000_0000_0000 && (b - a) % 4096 == 0)
                        by (nonlinear_arith)
                        requires
                            p < q < pages0,
                            a == addr0 + p as int * 4096,
                            b == addr0 + q * 4096,
                            addr0 + rounded <= usize::MAX,
                            pages0 == rounded as int / 4096,
                            rounded <= 0x1_0000_0000_0000,
                            FRAME_SIZE == 4096,
                    ;
                    lemma_distinct_pages(a, b);
                    assert(!same_page(b, a));
                }
                assert forall|q: int|
                    0 <= q < p + 1 implies (#[trigger] self.page_table.lookup(
                    (addr0 + q * FRAME_SIZE) as u64,
                )) is None by {
                    if q < p {
                        let a = (addr0 + q * FRAME_SIZE) as u64;
                        let b = (addr0 + p as int * FRAME_SIZE) as u64;
                        assert(a < b && b - a < 0x1_0000_0000_0000 && (b - a) % 4096 == 0)
                            by (nonlinear_arith)
                            requires
                                0 <= q < p,
                                a == addr0 + q * 4096,
                                b == addr0 + p as int * 4096,
                                addr0 + rounded <= usize::MAX,
                                p < pages0,
                                pages0 == rounded as int / 4096,
                                rounded <= 0x1_0000_0000_0000,
                                FRAME_SIZE == 4096,
                        ;
                        lemma_distinct_pages(a, b);
                        assert(!same_page(a, b));
                    }
                }
            }
            p += 1;
        }
        let ghost pa_loop = self.physical_allocator@;
        let ghost va_loop = self.virtual_allocator;
        self.virtual_allocator.free(addr, &mut self.physical_allocator);
        proof {
            va_loop.lemma_frames_ok_bounds(old(self).physical_allocator.num_frames() as int);
            let keep = crate::buddy::slabs_needed(self.virtual_allocator@.len() as int);
            assert(keep >= 0);
            crate::buddy::lemma_clear_frames_le(pa_loop, va_loop.slab_frames_view(), keep);
            assert forall|i: int|
                0 <= i < old(self).physical_allocator@.len() && #[trigger] self.physical_allocator@[i]
                implies old(self).physical_allocator@[i] by {
                assert(pa_loop[i]);
            }
            assert forall|p: int|
                0 <= p < round_size(size as int) / FRAME_SIZE as int implies ({
                let phys = (#[trigger] old(self).page_table.lookup(
                    (addr as int + p * FRAME_SIZE) as u64,
                ))->Some_0 as int;
                !self.physical_allocator@[phys / FRAME_SIZE as int]
            }) by {
                let phys = (old(self).page_table.lookup(
                    (addr as int + p * FRAME_SIZE) as u64,
                ))->Some_0 as int;
                assert(!pa_loop[phys / FRAME_SIZE as int]);
            }
        }
    }
}

} // verus!
