//! Four-level hardware page table: a radix tree from virtual page numbers to
//! 4 KiB-aligned physical addresses.
//!
//! Tables live in an arena indexed by small integers; an intermediate entry
//! stores its child's arena index shifted into the hardware address field, so
//! every structural invariant is a statement about plain values.  Leaf
//! entries hold the caller's physical address.  Missing intermediate levels
//! are created on demand from the physical frame allocator.

use vstd::prelude::*;

verus! {

use crate::phys::PhysicalAllocator;
use crate::phys::count_free;

/// The 4 KiB-aligned address bits of a page-table entry.
pub const ENTRY_ADDR_MASK: u64 = 0x000f_ffff_ffff_f000;

/// Upper bound on the table arena: the largest child index whose byte offset
/// still fits the entry address field, plus one.
pub const MAX_TABLES: u64 = 0x10_0000_0000;

/// Present bit of an entry.
pub open spec fn entry_present(e: u64) -> bool {
    e & 1 == 1
}

/// Writable bit of an entry.
pub open spec fn entry_writeable(e: u64) -> bool {
    (e >> 1) & 1 == 1
}

/// User-accessible bit of an entry.
pub open spec fn entry_user(e: u64) -> bool {
    (e >> 2) & 1 == 1
}

/// Global bit of an entry.
pub open spec fn entry_global(e: u64) -> bool {
    (e >> 8) & 1 == 1
}

/// Execute-disable bit of an entry.
pub open spec fn entry_execute(e: u64) -> bool {
    (e >> 63) & 1 == 1
}

/// Address bits of an entry.
pub open spec fn entry_addr(e: u64) -> u64 {
    e & ENTRY_ADDR_MASK
}

/// One 64-bit page-table entry with accessors for each architectural field.
pub struct PageTableEntry {
    data: u64,
}

impl View for PageTableEntry {
    type V = u64;

    closed spec fn view(&self) -> u64 {
        self.data
    }
}

impl PageTableEntry {
    /// An all-clear entry.
    pub fn new() -> (r: PageTableEntry)
        ensures
            r@ == 0u64,
    {
        PageTableEntry { data: 0 }
    }

    /// Wraps raw entry bits.
    pub fn from_data(data: u64) -> (r: PageTableEntry)
        ensures
            r@ == data,
    {
        PageTableEntry { data }
    }

    /// Raw entry bits.
    pub fn data(&self) -> (r: u64)
        ensures
            r == self@,
    {
        self.data
    }

    /// Sets the present bit, leaving every other field alone.
    pub fn set_present(&mut self, present: bool)
        ensures
            final(self)@ == (old(self)@ & !1u64) | (if present {
                1u64
            } else {
                0u64
            }),
            entry_present(final(self)@) == present,
            entry_writeable(final(self)@) == entry_writeable(old(self)@),
            entry_user(final(self)@) == entry_user(old(self)@),
            entry_global(final(self)@) == entry_global(old(self)@),
            entry_execute(final(self)@) == entry_execute(old(self)@),
            entry_addr(final(self)@) == entry_addr(old(self)@),
    {
        let d0 = self.data;
        self.data = (self.data & !1u64) | (if present {
            1u64
        } else {
            0u64
        });
        proof {
            let d1 = self.data;
            let p = present;
            assert(entry_present(d1) == p && entry_writeable(d1) == entry_writeable(d0)
                && entry_user(d1) == entry_user(d0) && entry_global(d1) == entry_global(d0)
                && entry_execute(d1) == entry_execute(d0) && entry_addr(d1) == entry_addr(d0))
                by (bit_vector)
                requires
                    d1 == (d0 & !1u64) | (if p {
                        1u64
                    } else {
                        0u64
                    }),
            ;
        }
    }

    /// Reads the present bit.
    pub fn is_present(&self) -> (r: bool)
        ensures
            r == entry_present(self@),
    {
        self.data & 1 == 1
    }

    /// Sets the writable bit, leaving every other field alone.
    pub fn set_writeable(&mut self, writeable: bool)
        ensures
            final(self)@ == (old(self)@ & !(1u64 << 1)) | ((if writeable {
                1u64
            } else {
                0u64
            }) << 1),
            entry_writeable(final(self)@) == writeable,
            entry_present(final(self)@) == entry_present(old(self)@),
            entry_user(final(self)@) == entry_user(old(self)@),
            entry_global(final(self)@) == entry_global(old(self)@),
            entry_execute(final(self)@) == entry_execute(old(self)@),
            entry_addr(final(self)@) == entry_addr(old(self)@),
    {
        let d0 = self.data;
        self.data = (self.data & !(1u64 << 1)) | ((if writeable {
            1u64
        } else {
            0u64
        }) << 1);
        proof {
            let d1 = self.data;
            let p = writeable;
            assert(entry_writeable(d1) == p && entry_present(d1) == entry_present(d0)
                && entry_user(d1) == entry_user(d0) && entry_global(d1) == entry_global(d0)
                && entry_execute(d1) == entry_execute(d0) && entry_addr(d1) == entry_addr(d0))
                by (bit_vector)
                requires
                    d1 == (d0 & !(1u64 << 1)) | ((if p {
                        1u64
                    } else {
                        0u64
                    }) << 1),
            ;
        }
    }

    /// Reads the writable bit.
    pub fn is_writeable(&self) -> (r: bool)
        ensures
            r == entry_writeable(self@),
    {
        (self.data >> 1) & 1 == 1
    }

    /// Sets the user bit, leaving every other field alone.
    pub fn set_user(&mut self, user: bool)
        ensures
            final(self)@ == (old(self)@ & !(1u64 << 2)) | ((if user {
                1u64
            } else {
                0u64
            }) << 2),
            entry_user(final(self)@) == user,
            entry_present(final(self)@) == entry_present(old(self)@),
            entry_writeable(final(self)@) == entry_writeable(old(self)@),
            entry_global(final(self)@) == entry_global(old(self)@),
            entry_execute(final(self)@) == entry_execute(old(self)@),
            entry_addr(final(self)@) == entry_addr(old(self)@),
    {
        let d0 = self.data;
        self.data = (self.data & !(1u64 << 2)) | ((if user {
            1u64
        } else {
            0u64
        }) << 2);
        proof {
            let d1 = self.data;
            let p = user;
            assert(entry_user(d1) == p && entry_present(d1) == entry_present(d0)
                && entry_writeable(d1) == entry_writeable(d0) && entry_global(d1) == entry_global(
                d0) && entry_execute(d1) == entry_execute(d0) && entry_addr(d1) == entry_addr(d0))
                by (bit_vector)
                requires
                    d1 == (d0 & !(1u64 << 2)) | ((if p {
                        1u64
                    } else {
                        0u64
                    }) << 2),
            ;
        }
    }

    /// Reads the user bit.
    pub fn is_user(&self) -> (r: bool)
        ensures
            r == entry_user(self@),
    {
        (self.data >> 2) & 1 == 1
    }

    /// Installs the 4 KiB-aligned address bits, leaving the flags alone.
    pub fn set_addr(&mut self, addr: usize)
        ensures
            final(self)@ == (old(self)@ & !ENTRY_ADDR_MASK) | ((addr as u64) & ENTRY_ADDR_MASK),
            entry_addr(final(self)@) == (addr as u64) & ENTRY_ADDR_MASK,
            entry_present(final(self)@) == entry_present(old(self)@),
            entry_writeable(final(self)@) == entry_writeable(old(self)@),
            entry_user(final(self)@) == entry_user(old(self)@),
            entry_global(final(self)@) == entry_global(old(self)@),
            entry_execute(final(self)@) == entry_execute(old(self)@),
    {
        let d0 = self.data;
        let a = (addr as u64) & ENTRY_ADDR_MASK;
        self.data = (self.data & !ENTRY_ADDR_MASK) | a;
        proof {
            let d1 = self.data;
            let a0 = addr as u64;
            assert(entry_addr(d1) == (a0 & 0x000f_ffff_ffff_f000u64) && entry_present(d1)
                == entry_present(d0) && entry_writeable(d1) == entry_writeable(d0) && entry_user(d1)
                == entry_user(d0) && entry_global(d1) == entry_global(d0) && entry_execute(d1)
                == entry_execute(d0)) by (bit_vector)
                requires
                    d1 == (d0 & !0x000f_ffff_ffff_f000u64) | (a0 & 0x000f_ffff_ffff_f000u64),
            ;
        }
    }

    /// Reads the address bits.
    pub fn get_addr(&self) -> (r: u64)
        ensures
            r == entry_addr(self@),
    {
        self.data & ENTRY_ADDR_MASK
    }

    /// Sets the global bit, leaving every other field alone.
    pub fn set_global(&mut self, global: bool)
        ensures
            final(self)@ == (old(self)@ & !(1u64 << 8)) | ((if global {
                1u64
            } else {
                0u64
            }) << 8),
            entry_global(final(self)@) == global,
            entry_present(final(self)@) == entry_present(old(self)@),
            entry_writeable(final(self)@) == entry_writeable(old(self)@),
            entry_user(final(self)@) == entry_user(old(self)@),
            entry_execute(final(self)@) == entry_execute(old(self)@),
            entry_addr(final(self)@) == entry_addr(old(self)@),
    {
        let d0 = self.data;
        self.data = (self.data & !(1u64 << 8)) | ((if global {
            1u64
        } else {
            0u64
        }) << 8);
        proof {
            let d1 = self.data;
            let p = global;
            assert(entry_global(d1) == p && entry_present(d1) == entry_present(d0)
                && entry_writeable(d1) == entry_writeable(d0) && entry_user(d1) == entry_user(d0)
                && entry_execute(d1) == entry_execute(d0) && entry_addr(d1) == entry_addr(d0))
                by (bit_vector)
                requires
                    d1 == (d0 & !(1u64 << 8)) | ((if p {
                        1u64
                    } else {
                        0u64
                    }) << 8),
            ;
        }
    }

    /// Reads the global bit.
    pub fn is_global(&self) -> (r: bool)
        ensures
            r == entry_global(self@),
    {
        (self.data >> 8) & 1 == 1
    }

    /// Sets the execute-disable bit, leaving every other field alone.
    pub fn set_execute(&mut self, execute: bool)
        ensures
            final(self)@ == (old(self)@ & !(1u64 << 63)) | ((if execute {
                1u64
            } else {
                0u64
            }) << 63),
            entry_execute(final(self)@) == execute,
            entry_present(final(self)@) == entry_present(old(self)@),
            entry_writeable(final(self)@) == entry_writeable(old(self)@),
            entry_user(final(self)@) == entry_user(old(self)@),
            entry_global(final(self)@) == entry_global(old(self)@),
            entry_addr(final(self)@) == entry_addr(old(self)@),
    {
        let d0 = self.data;
        self.data = (self.data & !(1u64 << 63)) | ((if execute {
            1u64
        } else {
            0u64
        }) << 63);
        proof {
            let d1 = self.data;
            let p = execute;
            assert(entry_execute(d1) == p && entry_present(d1) == entry_present(d0)
                && entry_writeable(d1) == entry_writeable(d0) && entry_user(d1) == entry_user(d0)
                && entry_global(d1) == entry_global(d0) && entry_addr(d1) == entry_addr(d0))
                by (bit_vector)
                requires
                    d1 == (d0 & !(1u64 << 63)) | ((if p {
                        1u64
                    } else {
                        0u64
                    }) << 63),
            ;
        }
    }

    /// Reads the execute-disable bit.
    pub fn is_execute(&self) -> (r: bool)
        ensures
            r == entry_execute(self@),
    {
        (self.data >> 63) & 1 == 1
    }
}

/// Index a virtual address selects at a given level of the tree.
pub open spec fn pt_index(v: u64, level: int) -> int {
    if level == 0 {
        ((v >> 39) & 0x1ff) as int
    } else if level == 1 {
        ((v >> 30) & 0x1ff) as int
    } else if level == 2 {
        ((v >> 21) & 0x1ff) as int
    } else {
        ((v >> 12) & 0x1ff) as int
    }
}

/// Two virtual addresses that select the same slot at every level.
pub open spec fn same_page(a: u64, b: u64) -> bool {
    &&& pt_index(a, 0) == pt_index(b, 0)
    &&& pt_index(a, 1) == pt_index(b, 1)
    &&& pt_index(a, 2) == pt_index(b, 2)
    &&& pt_index(a, 3) == pt_index(b, 3)
}

/// Every level index of a virtual address is below 512.
proof fn lemma_pt_index_bounds(v: u64)
    by (bit_vector)
    ensures
        (v >> 39) & 0x1ff < 512,
        (v >> 30) & 0x1ff < 512,
        (v >> 21) & 0x1ff < 512,
        (v >> 12) & 0x1ff < 512,
{
}

/// A page-aligned address below the architectural physical-address width
/// passes through the entry address field unchanged.
pub proof fn lemma_addr_fits_entry(v: u64)
    by (bit_vector)
    requires
        v % 4096 == 0,
        v < 0x10_0000_0000_0000,
    ensures
        v & ENTRY_ADDR_MASK == v,
{
}

/// The zero entry is absent.
proof fn lemma_zero_entry()
    by (bit_vector)
    ensures
        !entry_present(0u64),
{
}

/// An arena index below `MAX_TABLES` survives the round trip through the
/// entry address field.
proof fn lemma_index_in_addr(c: u64)
    by (bit_vector)
    requires
        c < 0x10_0000_0000u64,
    ensures
        entry_addr((c << 12) | 1u64) == (c << 12),
        entry_present((c << 12) | 1u64),
        (c << 12) == c * 4096,
{
}

/// Whether the entry at `(t, j)` links to a lower-level table.
pub open spec fn is_link(tbls: Seq<Seq<u64>>, levels: Seq<int>, t: int, j: int) -> bool {
    entry_present(tbls[t][j]) && levels[t] < 3
}

/// Arena index an intermediate entry points at.
pub open spec fn child_at(tbls: Seq<Seq<u64>>, t: int, j: int) -> int {
    entry_addr(tbls[t][j]) as int / 4096
}

/// Structural invariant of the arena: the root is table 0 at level 0, every
/// table has 512 entries and a level tag, every present intermediate entry
/// names a deeper table, and no two intermediate entries share a child.
pub open spec fn tables_wf(tbls: Seq<Seq<u64>>, levels: Seq<int>) -> bool {
    &&& 1 <= tbls.len() <= MAX_TABLES
    &&& levels.len() == tbls.len()
    &&& levels[0] == 0
    &&& forall|t: int| 0 <= t < tbls.len() ==> 0 <= #[trigger] levels[t] <= 3
    &&& forall|t: int| 0 <= t < tbls.len() ==> (#[trigger] tbls[t]).len() == 512
    &&& forall|t: int, j: int|
        0 <= t < tbls.len() && 0 <= j < 512 && #[trigger] is_link(tbls, levels, t, j) ==> {
            &&& 1 <= child_at(tbls, t, j) < tbls.len()
            &&& levels[child_at(tbls, t, j)] == levels[t] + 1
            &&& entry_addr(tbls[t][j]) == child_at(tbls, t, j) * 4096
        }
    &&& forall|t1: int, j1: int, t2: int, j2: int|
        0 <= t1 < tbls.len() && 0 <= j1 < 512 && 0 <= t2 < tbls.len() && 0 <= j2 < 512 && is_link(
            tbls,
            levels,
            t1,
            j1,
        ) && is_link(tbls, levels, t2, j2) && #[trigger] child_at(tbls, t1, j1) == #[trigger] child_at(
            tbls,
            t2,
            j2,
        ) ==> t1 == t2 && j1 == j2
}

/// Walks the tree from table `t` at `level`; the raw leaf entry, or `None`
/// where the walk hits an absent entry (an absent leaf included).
pub open spec fn lookup_entry_from(tbls: Seq<Seq<u64>>, t: int, v: u64, level: int) -> Option<u64>
    decreases 3 - level,
{
    let e = tbls[t][pt_index(v, level)];
    if !entry_present(e) {
        None
    } else if level >= 3 {
        Some(e)
    } else {
        lookup_entry_from(tbls, entry_addr(e) as int / 4096, v, level + 1)
    }
}

/// Number of tables the walk for `v` would still have to create, starting at
/// table `t` of `level`.
pub open spec fn missing_from(tbls: Seq<Seq<u64>>, t: int, v: u64, level: int) -> int
    decreases 3 - level,
{
    if level >= 3 {
        0
    } else {
        let e = tbls[t][pt_index(v, level)];
        if entry_present(e) {
            missing_from(tbls, entry_addr(e) as int / 4096, v, level + 1)
        } else {
            3 - level
        }
    }
}

/// The table the walk for `w` from `t0` (at level `l0`) occupies at level
/// `lt`, or -1 if an absent entry stops the walk first.
pub open spec fn path_table(tbls: Seq<Seq<u64>>, t0: int, w: u64, l0: int, lt: int) -> int
    decreases lt - l0,
{
    if lt <= l0 {
        t0
    } else {
        let p = path_table(tbls, t0, w, l0, lt - 1);
        if p == -1 {
            -1
        } else {
            let e = tbls[p][pt_index(w, lt - 1)];
            if entry_present(e) {
                entry_addr(e) as int / 4096
            } else {
                -1
            }
        }
    }
}

/// A table reached at level `lt` is in bounds and carries level tag `lt`.
proof fn lemma_path_levels(tbls: Seq<Seq<u64>>, levels: Seq<int>, t0: int, w: u64, l0: int, lt: int)
    requires
        tables_wf(tbls, levels),
        0 <= t0 < tbls.len(),
        levels[t0] == l0,
        l0 <= lt <= 3,
    ensures
        path_table(tbls, t0, w, l0, lt) == -1 || (0 <= path_table(tbls, t0, w, l0, lt) < tbls.len()
            && levels[path_table(tbls, t0, w, l0, lt)] == lt),
    decreases lt - l0,
{
    if lt > l0 {
        lemma_path_levels(tbls, levels, t0, w, l0, lt - 1);
        let p = path_table(tbls, t0, w, l0, lt - 1);
        if p != -1 {
            let j = pt_index(w, lt - 1);
            lemma_pt_index_bounds(w);
            if entry_present(tbls[p][j]) {
                assert(is_link(tbls, levels, p, j));
            }
        }
    }
}

/// The lookup result is what the leaf entry at the end of the path holds.
proof fn lemma_lookup_via_path(
    tbls: Seq<Seq<u64>>,
    levels: Seq<int>,
    t0: int,
    w: u64,
    l0: int,
)
    requires
        tables_wf(tbls, levels),
        0 <= t0 < tbls.len(),
        levels[t0] == l0,
        0 <= l0 <= 3,
    ensures
        ({
            let p = path_table(tbls, t0, w, l0, 3);
            lookup_entry_from(tbls, t0, w, l0) == if p == -1 {
                None
            } else {
                let e = tbls[p][pt_index(w, 3)];
                if entry_present(e) {
                    Some(e)
                } else {
                    None
                }
            }
        }),
    decreases 3 - l0,
{
    if l0 == 3 {
        assert(path_table(tbls, t0, w, l0, 3) == t0);
    } else {
        let j = pt_index(w, l0);
        lemma_pt_index_bounds(w);
        let e = tbls[t0][j];
        if entry_present(e) {
            assert(is_link(tbls, levels, t0, j));
            let c = entry_addr(e) as int / 4096;
            lemma_lookup_via_path(tbls, levels, c, w, l0 + 1);
            lemma_path_prefix(tbls, t0, c, w, l0, 3);
        } else {
            lemma_path_dead(tbls, t0, w, l0, 3);
        }
    }
}

/// A walk that steps through a present entry continues as the child's walk.
proof fn lemma_path_prefix(tbls: Seq<Seq<u64>>, t0: int, c: int, w: u64, l0: int, lt: int)
    requires
        0 <= t0,
        l0 < lt,
        entry_present(tbls[t0][pt_index(w, l0)]),
        c == entry_addr(tbls[t0][pt_index(w, l0)]) as int / 4096,
        c != -1,
    ensures
        path_table(tbls, t0, w, l0, lt) == path_table(tbls, c, w, l0 + 1, lt),
    decreases lt - l0,
{
    reveal_with_fuel(path_table, 3);
    if lt > l0 + 1 {
        lemma_path_prefix(tbls, t0, c, w, l0, lt - 1);
    }
}

/// A walk stopped by an absent entry stays stopped.
proof fn lemma_path_dead(tbls: Seq<Seq<u64>>, t0: int, w: u64, l0: int, lt: int)
    requires
        l0 < lt,
        !entry_present(tbls[t0][pt_index(w, l0)]),
    ensures
        path_table(tbls, t0, w, l0, lt) == -1,
    decreases lt - l0,
{
    reveal_with_fuel(path_table, 3);
    if lt > l0 + 1 {
        lemma_path_dead(tbls, t0, w, l0, lt - 1);
    }
}

/// Two addresses whose walks land in the same level-3 table agree on every
/// intermediate index: each table has exactly one parent entry.
proof fn lemma_path_unique(tbls: Seq<Seq<u64>>, levels: Seq<int>, w: u64, v: u64, lt: int)
    requires
        tables_wf(tbls, levels),
        0 < lt <= 3,
        path_table(tbls, 0, w, 0, lt) != -1,
        path_table(tbls, 0, w, 0, lt) == path_table(tbls, 0, v, 0, lt),
    ensures
        forall|l: int| 0 <= l < lt ==> pt_index(w, l) == pt_index(v, l),
        forall|l: int| 0 <= l <= lt ==> path_table(tbls, 0, w, 0, l) == path_table(tbls, 0, v, 0, l),
    decreases lt,
{
    lemma_pt_index_bounds(w);
    lemma_pt_index_bounds(v);
    lemma_path_levels(tbls, levels, 0, w, 0, lt - 1);
    lemma_path_levels(tbls, levels, 0, v, 0, lt - 1);
    let pw = path_table(tbls, 0, w, 0, lt - 1);
    let pv = path_table(tbls, 0, v, 0, lt - 1);
    assert(pw != -1);
    assert(pv != -1);
    let jw = pt_index(w, lt - 1);
    let jv = pt_index(v, lt - 1);
    assert(entry_present(tbls[pw][jw]));
    assert(entry_present(tbls[pv][jv]));
    assert(is_link(tbls, levels, pw, jw));
    assert(is_link(tbls, levels, pv, jv));
    assert(child_at(tbls, pw, jw) == path_table(tbls, 0, w, 0, lt));
    assert(child_at(tbls, pv, jv) == path_table(tbls, 0, v, 0, lt));
    assert(pw == pv && jw == jv);
    if lt > 1 {
        lemma_path_unique(tbls, levels, w, v, lt - 1);
    }
}

/// A fresh table of 512 absent entries.
pub open spec fn zero_table() -> Seq<u64> {
    Seq::new(512, |i: int| 0u64)
}

/// Linking a fresh, empty table below a previously absent entry changes no
/// lookup: walks that read the new entry fall into all-absent entries.
proof fn lemma_extend_preserves_lookup(
    tbls1: Seq<Seq<u64>>,
    levels1: Seq<int>,
    tbls2: Seq<Seq<u64>>,
    t: int,
    j: int,
    e: u64,
    w: u64,
    t0: int,
    l0: int,
)
    requires
        tables_wf(tbls1, levels1),
        0 <= t < tbls1.len(),
        0 <= j < 512,
        !entry_present(tbls1[t][j]),
        levels1[t] < 3,
        entry_present(e),
        entry_addr(e) == tbls1.len() * 4096,
        tbls2 == tbls1.update(t, tbls1[t].update(j, e)).push(zero_table()),
        0 <= t0 < tbls1.len(),
        levels1[t0] == l0,
        0 <= l0 <= 3,
    ensures
        lookup_entry_from(tbls2, t0, w, l0) == lookup_entry_from(tbls1, t0, w, l0),
    decreases 3 - l0,
{
    lemma_pt_index_bounds(w);
    lemma_zero_entry();
    let i = pt_index(w, l0);
    let e1 = tbls1[t0][i];
    let e2 = tbls2[t0][i];
    if t0 == t && i == j {
        assert(e2 == e);
        assert(lookup_entry_from(tbls1, t0, w, l0) is None);
        assert(l0 < 3);
        let c = entry_addr(e) as int / 4096;
        assert(c == tbls1.len());
        assert(tbls2[c] == zero_table());
        assert(!entry_present(tbls2[c][pt_index(w, l0 + 1)]));
        assert(lookup_entry_from(tbls2, c, w, l0 + 1) is None);
    } else {
        assert(e2 == e1);
        if entry_present(e1) && l0 < 3 {
            assert(is_link(tbls1, levels1, t0, i));
            let c = entry_addr(e1) as int / 4096;
            lemma_extend_preserves_lookup(tbls1, levels1, tbls2, t, j, e, w, c, l0 + 1);
        }
    }
}

/// Rewriting one slot of a level-3 table touches no walk that does not end
/// in exactly that slot.
proof fn lemma_leaf_write_lookup(
    tbls1: Seq<Seq<u64>>,
    levels1: Seq<int>,
    tbls2: Seq<Seq<u64>>,
    t3: int,
    j3: int,
    e: u64,
    w: u64,
    t0: int,
    l0: int,
)
    requires
        tables_wf(tbls1, levels1),
        0 <= t3 < tbls1.len(),
        0 <= j3 < 512,
        levels1[t3] == 3,
        tbls2 == tbls1.update(t3, tbls1[t3].update(j3, e)),
        0 <= t0 < tbls1.len(),
        levels1[t0] == l0,
        0 <= l0 <= 3,
        !(path_table(tbls1, t0, w, l0, 3) == t3 && pt_index(w, 3) == j3),
    ensures
        lookup_entry_from(tbls2, t0, w, l0) == lookup_entry_from(tbls1, t0, w, l0),
    decreases 3 - l0,
{
    lemma_pt_index_bounds(w);
    let i = pt_index(w, l0);
    let e1 = tbls1[t0][i];
    if l0 == 3 {
        assert(path_table(tbls1, t0, w, l0, 3) == t0);
        if t0 == t3 {
            assert(i != j3);
            assert(tbls2[t0][i] == e1);
        } else {
            assert(tbls2[t0][i] == e1);
        }
    } else {
        let e2 = tbls2[t0][i];
        assert(t0 != t3);
        assert(e2 == e1);
        if entry_present(e1) {
            assert(is_link(tbls1, levels1, t0, i));
            let c = entry_addr(e1) as int / 4096;
            lemma_path_prefix(tbls1, t0, c, w, l0, 3);
            lemma_leaf_write_lookup(tbls1, levels1, tbls2, t3, j3, e, w, c, l0 + 1);
        }
    }
}

/// Rewriting one slot of a level-3 table leaves every walk's path alone:
/// paths only read entries of shallower tables.
proof fn lemma_leaf_write_path(
    tbls1: Seq<Seq<u64>>,
    levels1: Seq<int>,
    tbls2: Seq<Seq<u64>>,
    t3: int,
    j3: int,
    e: u64,
    w: u64,
    t0: int,
    l0: int,
    lt: int,
)
    requires
        tables_wf(tbls1, levels1),
        0 <= t3 < tbls1.len(),
        0 <= j3 < 512,
        levels1[t3] == 3,
        tbls2 == tbls1.update(t3, tbls1[t3].update(j3, e)),
        0 <= t0 < tbls1.len(),
        levels1[t0] == l0,
        0 <= l0 <= lt <= 3,
    ensures
        path_table(tbls2, t0, w, l0, lt) == path_table(tbls1, t0, w, l0, lt),
    decreases lt - l0,
{
    lemma_pt_index_bounds(w);
    if lt > l0 {
        let i = pt_index(w, l0);
        assert(t0 != t3);
        assert(tbls2[t0][i] == tbls1[t0][i]);
        let e1 = tbls1[t0][i];
        if entry_present(e1) {
            assert(is_link(tbls1, levels1, t0, i));
            let c = entry_addr(e1) as int / 4096;
            lemma_path_prefix(tbls1, t0, c, w, l0, lt);
            lemma_path_prefix(tbls2, t0, c, w, l0, lt);
            lemma_leaf_write_path(tbls1, levels1, tbls2, t3, j3, e, w, c, l0 + 1, lt);
        } else {
            lemma_path_dead(tbls1, t0, w, l0, lt);
            lemma_path_dead(tbls2, t0, w, l0, lt);
        }
    }
}

/// A walk never has more tables to create than levels left.
proof fn lemma_missing_bounds(tbls: Seq<Seq<u64>>, t: int, v: u64, l: int)
    requires
        0 <= l <= 3,
    ensures
        0 <= missing_from(tbls, t, v, l) <= 3 - l,
    decreases 3 - l,
{
    if l < 3 {
        let e = tbls[t][pt_index(v, l)];
        if entry_present(e) {
            lemma_missing_bounds(tbls, entry_addr(e) as int / 4096, v, l + 1);
        }
    }
}

/// Changing one slot of a table at level `lt` or deeper (and appending new
/// tables) leaves every path up to `lt` alone: such paths only read entries
/// of shallower tables.
proof fn lemma_update_preserves_path(
    tbls1: Seq<Seq<u64>>,
    levels1: Seq<int>,
    tbls2: Seq<Seq<u64>>,
    t: int,
    j: int,
    w: u64,
    t0: int,
    l0: int,
    lt: int,
)
    requires
        tables_wf(tbls1, levels1),
        0 <= t < tbls1.len(),
        0 <= j < 512,
        tbls1.len() <= tbls2.len(),
        forall|x: int| 0 <= x < tbls1.len() && x != t ==> #[trigger] tbls2[x] == tbls1[x],
        forall|y: int| 0 <= y < 512 && y != j ==> #[trigger] tbls2[t][y] == tbls1[t][y],
        lt <= levels1[t],
        0 <= t0 < tbls1.len(),
        levels1[t0] == l0,
        0 <= l0 <= lt <= 3,
    ensures
        path_table(tbls2, t0, w, l0, lt) == path_table(tbls1, t0, w, l0, lt),
    decreases lt - l0,
{
    reveal_with_fuel(path_table, 3);
    lemma_pt_index_bounds(w);
    if lt > l0 {
        let i = pt_index(w, l0);
        assert(t0 != t);
        assert(tbls2[t0] == tbls1[t0]);
        let e1 = tbls1[t0][i];
        if entry_present(e1) {
            assert(is_link(tbls1, levels1, t0, i));
            let c = entry_addr(e1) as int / 4096;
            lemma_path_prefix(tbls1, t0, c, w, l0, lt);
            lemma_path_prefix(tbls2, t0, c, w, l0, lt);
            lemma_update_preserves_path(tbls1, levels1, tbls2, t, j, w, c, l0 + 1, lt);
        } else {
            lemma_path_dead(tbls1, t0, w, l0, lt);
            lemma_path_dead(tbls2, t0, w, l0, lt);
        }
    }
}

/// Four-level page table over an arena of 512-entry tables.  Table 0 is the
/// root; deeper tables are created on demand, each backed by one frame taken
/// from the physical allocator and never reclaimed.
pub struct PageTable {
    tables: Vec<Vec<u64>>,
    frames: Vec<usize>,
    levels: Ghost<Seq<int>>,
}

impl PageTable {
    /// Structural invariant of the arena.
    pub closed spec fn wf(self) -> bool {
        &&& tables_wf(self.tbls(), self.levels@)
        &&& self.frames@.len() == self.tables@.len()
    }

    /// The arena's tables as sequences.
    pub closed spec fn tbls(self) -> Seq<Seq<u64>> {
        self.tables@.map_values(|t: Vec<u64>| t@)
    }

    /// Number of tables in the arena (root included).
    pub closed spec fn num_tables(self) -> int {
        self.tables@.len() as int
    }

    /// The raw leaf entry the walk for `v` ends at, if any: address bits
    /// and flags as the hardware would read them.
    pub closed spec fn lookup_entry(self, v: u64) -> Option<u64> {
        lookup_entry_from(self.tbls(), 0, v, 0)
    }

    /// The physical address the table maps `v` to, if any.
    pub open spec fn lookup(self, v: u64) -> Option<u64> {
        match self.lookup_entry(v) {
            Some(e) => Some(entry_addr(e)),
            None => None,
        }
    }

    /// Number of intermediate tables a `map_page(v, _)` would have to create.
    pub closed spec fn missing_tables(self, v: u64) -> int {
        missing_from(self.tbls(), 0, v, 0)
    }

    /// A walk never has more tables to create than intermediate levels.
    pub proof fn lemma_missing_bound(&self, v: u64)
        ensures
            0 <= self.missing_tables(v) <= 3,
    {
        lemma_missing_bounds(self.tbls(), 0, v, 0);
    }

    /// An empty page table: just the zeroed root, mapping nothing.
    pub fn new() -> (r: PageTable)
        ensures
            r.wf(),
            r.num_tables() == 1,
            forall|w: u64| r.lookup(w) is None,
    {
        let root: Vec<u64> = vec![0u64; 512];
        let mut tables: Vec<Vec<u64>> = Vec::new();
        tables.push(root);
        let mut frames: Vec<usize> = Vec::new();
        frames.push(0);
        let ghost lv: Seq<int> = seq![0int];
        let r = PageTable { tables, frames, levels: Ghost(lv) };
        proof {
            lemma_zero_entry();
            assert(r.tbls() =~= seq![root@]);
            assert forall|w: u64| r.lookup(w) is None by {
                lemma_pt_index_bounds(w);
                assert(r.tbls()[0][pt_index(w, 0)] == 0u64);
            }
        }
        r
    }

    /// Walks the tree and reports the physical address mapped at `virtual_addr`,
    /// `None` at the first absent level.
    pub fn get_physical_addr(&self, virtual_addr: usize) -> (r: Option<usize>)
        requires
            self.wf(),
        ensures
            match self.lookup(virtual_addr as u64) {
                Some(p) => r == Some(p as usize),
                None => r is None,
            },
    {
        let va = virtual_addr as u64;
        let ghost tb = self.tbls();
        let ghost lv = self.levels@;
        proof {
            lemma_pt_index_bounds(va);
            reveal_with_fuel(lookup_entry_from, 5);
        }
        let idx0 = ((va >> 39) & 0x1ff) as usize;
        let e0 = self.tables[0][idx0];
        if e0 & 1 != 1 {
            return None;
        }
        proof {
            assert(is_link(tb, lv, 0, idx0 as int));
        }
        let t1w = (e0 & ENTRY_ADDR_MASK) / 4096;
        proof {
            assert(t1w as int == child_at(tb, 0, idx0 as int));
            assert(t1w < self.tables.len() as u64);
        }
        let t1 = t1w as usize;
        proof {
            assert(t1 as int == child_at(tb, 0, idx0 as int));
            assert(1 <= (t1 as int) && (t1 as int) < tb.len());
            assert(lv[t1 as int] == 1);
            assert(self.lookup_entry(va) == lookup_entry_from(tb, t1 as int, va, 1));
        }
        let idx1 = ((va >> 30) & 0x1ff) as usize;
        let e1 = self.tables[t1][idx1];
        if e1 & 1 != 1 {
            return None;
        }
        proof {
            assert(is_link(tb, lv, t1 as int, idx1 as int));
        }
        let t2w = (e1 & ENTRY_ADDR_MASK) / 4096;
        proof {
            assert(t2w as int == child_at(tb, t1 as int, idx1 as int));
            assert(t2w < self.tables.len() as u64);
        }
        let t2 = t2w as usize;
        proof {
            assert(t2 as int == child_at(tb, t1 as int, idx1 as int));
            assert(1 <= (t2 as int) && (t2 as int) < tb.len());
            assert(lv[t2 as int] == 2);
            assert(self.lookup_entry(va) == lookup_entry_from(tb, t2 as int, va, 2));
        }
        let idx2 = ((va >> 21) & 0x1ff) as usize;
        let e2 = self.tables[t2][idx2];
        if e2 & 1 != 1 {
            return None;
        }
        proof {
            assert(is_link(tb, lv, t2 as int, idx2 as int));
        }
        let t3w = (e2 & ENTRY_ADDR_MASK) / 4096;
        proof {
            assert(t3w as int == child_at(tb, t2 as int, idx2 as int));
            assert(t3w < self.tables.len() as u64);
        }
        let t3 = t3w as usize;
        proof {
            assert(t3 as int == child_at(tb, t2 as int, idx2 as int));
            assert(1 <= (t3 as int) && (t3 as int) < tb.len());
            assert(lv[t3 as int] == 3);
            assert(self.lookup_entry(va) == lookup_entry_from(tb, t3 as int, va, 3));
        }
        let idx3 = ((va >> 12) & 0x1ff) as usize;
        let e3 = self.tables[t3][idx3];
        if e3 & 1 != 1 {
            return None;
        }
        Some((e3 & ENTRY_ADDR_MASK) as usize)
    }

    /// Installs a present, writable leaf mapping `virtual_addr` to
    /// `physical_addr`, creating (and zero-filling) any missing intermediate
    /// table from a frame of `allocator`.  An existing mapping is silently
    /// replaced.  Fails exactly when the allocator cannot supply the missing
    /// tables or the arena is out of index space, leaving every mapping as it
    /// was.
    #[verifier::loop_isolation(false)]
    pub fn map_page(
        &mut self,
        virtual_addr: usize,
        physical_addr: usize,
        allocator: &mut PhysicalAllocator,
    ) -> (ok: bool)
        requires
            old(self).wf(),
            old(allocator).wf(),
        ensures
            final(self).wf(),
            final(allocator).wf(),
            final(allocator)@.len() == old(allocator)@.len(),
            forall|i: int|
                0 <= i < old(allocator)@.len() && old(allocator)@[i] ==> final(allocator)@[i],
            ok == (old(self).num_tables() + 3 <= MAX_TABLES && old(self).missing_tables(
                virtual_addr as u64,
            ) <= count_free(old(allocator)@)),
            ok ==> final(self).lookup(virtual_addr as u64) == Some(
                (physical_addr as u64) & ENTRY_ADDR_MASK,
            ),
            ok ==> final(self).lookup_entry(virtual_addr as u64) is Some,
            ok ==> entry_present(final(self).lookup_entry(virtual_addr as u64)->Some_0)
                && entry_writeable(final(self).lookup_entry(virtual_addr as u64)->Some_0)
                && entry_addr(final(self).lookup_entry(virtual_addr as u64)->Some_0) == (
            physical_addr as u64) & ENTRY_ADDR_MASK,
            ok ==> count_free(final(allocator)@) == count_free(old(allocator)@) - old(
                self,
            ).missing_tables(virtual_addr as u64),
            ok ==> final(self).num_tables() == old(self).num_tables() + old(self).missing_tables(
                virtual_addr as u64,
            ),
            forall|w: u64|
                !same_page(w, virtual_addr as u64) ==> final(self).lookup_entry(w) == old(
                    self,
                ).lookup_entry(w) && final(self).lookup(w) == old(self).lookup(w),
            !ok ==> forall|w: u64|
                final(self).lookup_entry(w) == old(self).lookup_entry(w) && final(self).lookup(w)
                    == old(self).lookup(w),
            !ok ==> count_free(final(allocator)@) >= count_free(old(allocator)@) - old(
                self,
            ).missing_tables(virtual_addr as u64),
    {
        let va = virtual_addr as u64;
        proof {
            lemma_pt_index_bounds(va);
            lemma_missing_bounds(self.tbls(), 0, va, 0);
        }
        if self.tables.len() as u64 > MAX_TABLES - 3 {
            return false;
        }
        let ghost free0 = count_free(allocator@);
        let ghost miss0 = old(self).missing_tables(va);
        let mut t: usize = 0;
        let mut level: usize = 0;
        while level < 3
            invariant
                self.wf(),
                allocator.wf(),
                allocator@.len() == old(allocator)@.len(),
                forall|i: int|
                    0 <= i < old(allocator)@.len() && old(allocator)@[i] ==> #[trigger] allocator@[i],
                free0 == count_free(old(allocator)@),
                miss0 == old(self).missing_tables(va),
                0 <= level <= 3,
                (t as int) < self.tables@.len(),
                self.levels@[t as int] == level as int,
                path_table(self.tbls(), 0, va, 0, level as int) == t as int,
                forall|w: u64|
                    #[trigger] lookup_entry_from(self.tbls(), 0, w, 0) == old(self).lookup_entry(
                        w,
                    ),
                count_free(allocator@) <= free0,
                missing_from(self.tbls(), t as int, va, level as int) == miss0 - (free0
                    - count_free(allocator@)),
                self.tables@.len() == old(self).tables@.len() + (free0 - count_free(allocator@)),
                old(self).tables@.len() + 3 <= MAX_TABLES,
            decreases 3 - level,
        {
            let ghost tb = self.tbls();
            let ghost lv = self.levels@;
            let shift: u64 = if level == 0 {
                39
            } else if level == 1 {
                30
            } else {
                21
            };
            let idx = ((va >> shift) & 0x1ff) as usize;
            proof {
                assert(idx as int == pt_index(va, level as int));
            }
            let e = self.tables[t][idx];
            if e & 1 == 1 {
                proof {
                    assert(is_link(tb, lv, t as int, idx as int));
                }
                let tw = (e & ENTRY_ADDR_MASK) / 4096;
                proof {
                    assert(tw as int == child_at(tb, t as int, idx as int));
                    assert(tw < self.tables.len() as u64);
                    assert(path_table(tb, 0, va, 0, level as int + 1) == tw as int);
                    assert(missing_from(tb, t as int, va, level as int) == missing_from(
                        tb,
                        tw as int,
                        va,
                        level as int + 1,
                    ));
                }
                t = tw as usize;
            } else {
                match allocator.allocate() {
                    None => {
                        proof {
                            assert(missing_from(tb, t as int, va, level as int) == 3 - level);
                            assert(count_free(allocator@) == 0);
                            assert(miss0 > free0);
                        }
                        return false;
                    },
                    Some(frame) => {
                        let c = self.tables.len();
                        proof {
                            assert((c as u64) < MAX_TABLES);
                        }
                        let new_table: Vec<u64> = vec![0u64; 512];
                        let ghost pre = *self;
                        self.tables.push(new_table);
                        self.frames.push(frame);
                        self.levels = Ghost(self.levels@.push(level as int + 1));
                        let eword = ((c as u64) << 12) | 1u64;
                        self.tables[t][idx] = eword;
                        proof {
                            lemma_index_in_addr(c as u64);
                            let tb1 = pre.tbls();
                            let lv1 = pre.levels@;
                            let tb2 = self.tbls();
                            let lv2 = self.levels@;
                            assert(new_table@ =~= zero_table());
                            assert(tb2 =~= tb1.update(
                                t as int,
                                tb1[t as int].update(idx as int, eword),
                            ).push(zero_table()));
                            assert(lv2 =~= lv1.push(level as int + 1));
                            // the arena invariant survives the new link
                            assert forall|x: int, y: int|
                                0 <= x < tb2.len() && 0 <= y < 512 && #[trigger] is_link(
                                    tb2,
                                    lv2,
                                    x,
                                    y,
                                ) implies {
                                &&& 1 <= child_at(tb2, x, y) < tb2.len()
                                &&& lv2[child_at(tb2, x, y)] == lv2[x] + 1
                                &&& entry_addr(tb2[x][y]) == child_at(tb2, x, y) * 4096
                            } by {
                                if x == c as int {
                                    lemma_zero_entry();
                                    assert(!entry_present(tb2[x][y]));
                                } else if x == t as int && y == idx as int {
                                    assert(entry_addr(eword) == (c as u64) << 12);
                                    assert(((c as u64) << 12) as int == c as int * 4096);
                                    assert(child_at(tb2, x, y) == c as int);
                                } else {
                                    assert(tb2[x][y] == tb1[x][y]);
                                    assert(is_link(tb1, lv1, x, y));
                                }
                            }
                            assert forall|x1: int, y1: int, x2: int, y2: int|
                                0 <= x1 < tb2.len() && 0 <= y1 < 512 && 0 <= x2 < tb2.len() && 0
                                    <= y2 < 512 && is_link(tb2, lv2, x1, y1) && is_link(
                                    tb2,
                                    lv2,
                                    x2,
                                    y2,
                                ) && #[trigger] child_at(tb2, x1, y1) == #[trigger] child_at(
                                    tb2,
                                    x2,
                                    y2,
                                ) implies x1 == x2 && y1 == y2 by {
                                lemma_zero_entry();
                                if x1 == t as int && y1 == idx as int {
                                    if !(x2 == t as int && y2 == idx as int) {
                                        assert(tb2[x2][y2] == tb1[x2][y2]);
                                        assert(is_link(tb1, lv1, x2, y2));
                                        assert(child_at(tb1, x2, y2) < tb1.len());
                                        assert(child_at(tb2, x1, y1) == c as int);
                                        assert(false);
                                    }
                                } else if x2 == t as int && y2 == idx as int {
                                    assert(tb2[x1][y1] == tb1[x1][y1]);
                                    assert(is_link(tb1, lv1, x1, y1));
                                    assert(child_at(tb1, x1, y1) < tb1.len());
                                    assert(child_at(tb2, x2, y2) == c as int);
                                    assert(false);
                                } else {
                                    assert(tb2[x1][y1] == tb1[x1][y1]);
                                    assert(tb2[x2][y2] == tb1[x2][y2]);
                                    assert(is_link(tb1, lv1, x1, y1));
                                    assert(is_link(tb1, lv1, x2, y2));
                                }
                            }
                            assert(tables_wf(tb2, lv2));
                            // no lookup changes
                            assert forall|w: u64|
                                #[trigger] lookup_entry_from(tb2, 0, w, 0) == old(
                                    self,
                                ).lookup_entry(w) by {
                                lemma_extend_preserves_lookup(
                                    tb1,
                                    lv1,
                                    tb2,
                                    t as int,
                                    idx as int,
                                    eword,
                                    w,
                                    0,
                                    0,
                                );
                                assert(lookup_entry_from(tb1, 0, w, 0) == old(self).lookup_entry(
                                    w,
                                ));
                            }
                            // the walk now continues in the fresh table
                            assert forall|x: int|
                                0 <= x < tb1.len() && x != t as int implies #[trigger] tb2[x]
                                == tb1[x] by {}
                            assert forall|y: int|
                                0 <= y < 512 && y != idx as int implies #[trigger] tb2[t as int][y]
                                == tb1[t as int][y] by {}
                            lemma_update_preserves_path(
                                tb1,
                                lv1,
                                tb2,
                                t as int,
                                idx as int,
                                va,
                                0,
                                0,
                                level as int,
                            );
                            assert(path_table(tb2, 0, va, 0, level as int) == t as int);
                            assert(path_table(tb2, 0, va, 0, level as int + 1) == c as int);
                            assert(missing_from(tb1, t as int, va, level as int) == 3 - level);
                            if level as int + 1 < 3 {
                                lemma_zero_entry();
                                assert(missing_from(tb2, c as int, va, level as int + 1) == 3 - (
                                level as int + 1));
                            }
                        }
                        t = c;
                    },
                }
            }
            level += 1;
        }
        proof {
            crate::phys::lemma_zeros_in_bounds(allocator@, 0, allocator@.len() as int);
            assert(miss0 <= free0);
            assert(self.tbls()[t as int] == self.tables@[t as int]@);
            assert(self.tbls()[t as int].len() == 512);
        }
        let idx3 = ((va >> 12) & 0x1ff) as usize;
        let mut entry = PageTableEntry::new();
        entry.set_present(true);
        entry.set_writeable(true);
        entry.set_addr(physical_addr);
        let ew = entry.data();
        let ghost pre = *self;
        self.tables[t][idx3] = ew;
        proof {
            lemma_pt_index_bounds(va);
            let tb1 = pre.tbls();
            let lv1 = pre.levels@;
            let tb2 = self.tbls();
            assert(tb2 =~= tb1.update(t as int, tb1[t as int].update(idx3 as int, ew)));
            assert(idx3 as int == pt_index(va, 3));
            // a level-3 slot is never a link, so the invariant is untouched
            assert forall|x: int, y: int|
                0 <= x < tb2.len() && 0 <= y < 512 && #[trigger] is_link(tb2, lv1, x, y) implies {
                &&& 1 <= child_at(tb2, x, y) < tb2.len()
                &&& lv1[child_at(tb2, x, y)] == lv1[x] + 1
                &&& entry_addr(tb2[x][y]) == child_at(tb2, x, y) * 4096
            } by {
                assert(tb2[x][y] == tb1[x][y]);
                assert(is_link(tb1, lv1, x, y));
            }
            assert forall|x1: int, y1: int, x2: int, y2: int|
                0 <= x1 < tb2.len() && 0 <= y1 < 512 && 0 <= x2 < tb2.len() && 0 <= y2 < 512
                    && is_link(tb2, lv1, x1, y1) && is_link(tb2, lv1, x2, y2) && #[trigger] child_at(
                    tb2,
                    x1,
                    y1,
                ) == #[trigger] child_at(tb2, x2, y2) implies x1 == x2 && y1 == y2 by {
                assert(tb2[x1][y1] == tb1[x1][y1]);
                assert(tb2[x2][y2] == tb1[x2][y2]);
                assert(is_link(tb1, lv1, x1, y1));
                assert(is_link(tb1, lv1, x2, y2));
            }
            assert(tables_wf(tb2, lv1));
            assert forall|x: int|
                0 <= x < tb1.len() && x != t as int implies #[trigger] tb2[x] == tb1[x] by {}
            assert forall|y: int|
                0 <= y < 512 && y != idx3 as int implies #[trigger] tb2[t as int][y] == tb1[t as int][y] by {}
            lemma_update_preserves_path(tb1, lv1, tb2, t as int, idx3 as int, va, 0, 0, 3);
            assert(path_table(tb2, 0, va, 0, 3) == t as int);
            lemma_lookup_via_path(tb2, lv1, 0, va, 0);
            assert(entry_present(ew) && entry_writeable(ew));
            assert(entry_addr(ew) == (physical_addr as u64) & ENTRY_ADDR_MASK);
            assert(lookup_entry_from(tb2, 0, va, 0) == Some(ew));
            assert forall|w: u64| !same_page(w, va) implies #[trigger] lookup_entry_from(tb2, 0, w, 0)
                == lookup_entry_from(tb1, 0, w, 0) by {
                if path_table(tb1, 0, w, 0, 3) == t as int && pt_index(w, 3) == idx3 as int {
                    lemma_path_unique(tb1, lv1, w, va, 3);
                    assert(pt_index(w, 0) == pt_index(va, 0));
                    assert(pt_index(w, 1) == pt_index(va, 1));
                    assert(pt_index(w, 2) == pt_index(va, 2));
                    assert(false);
                } else {
                    lemma_leaf_write_lookup(
                        tb1,
                        lv1,
                        tb2,
                        t as int,
                        idx3 as int,
                        ew,
                        w,
                        0,
                        0,
                    );
                }
            }
            assert(missing_from(tb1, t as int, va, 3) == 0);
        }
        true
    }

    /// Removes the leaf mapping of `virtual_addr`.  Where any level on the
    /// way down is absent the page was never mapped and nothing changes; no
    /// intermediate table is ever reclaimed.
    pub fn unmap_page(&mut self, virtual_addr: usize)
        requires
            old(self).wf(),
        ensures
            final(self).wf(),
            final(self).num_tables() == old(self).num_tables(),
            final(self).lookup(virtual_addr as u64) is None,
            final(self).lookup_entry(virtual_addr as u64) is None,
            forall|w: u64|
                !same_page(w, virtual_addr as u64) ==> final(self).lookup_entry(w) == old(
                    self,
                ).lookup_entry(w) && final(self).lookup(w) == old(self).lookup(w),
    {
        let va = virtual_addr as u64;
        let ghost tb = self.tbls();
        let ghost lv = self.levels@;
        proof {
            lemma_pt_index_bounds(va);
            reveal_with_fuel(lookup_entry_from, 5);
        }
        let idx0 = ((va >> 39) & 0x1ff) as usize;
        let e0 = self.tables[0][idx0];
        if e0 & 1 != 1 {
            return ;
        }
        proof {
            assert(is_link(tb, lv, 0, idx0 as int));
        }
        let t1w = (e0 & ENTRY_ADDR_MASK) / 4096;
        proof {
            assert(t1w as int == child_at(tb, 0, idx0 as int));
            assert(t1w < self.tables.len() as u64);
        }
        let t1 = t1w as usize;
        proof {
            assert(lv[t1 as int] == 1);
            assert(self.lookup_entry(va) == lookup_entry_from(tb, t1 as int, va, 1));
        }
        let idx1 = ((va >> 30) & 0x1ff) as usize;
        let e1 = self.tables[t1][idx1];
        if e1 & 1 != 1 {
            return ;
        }
        proof {
            assert(is_link(tb, lv, t1 as int, idx1 as int));
        }
        let t2w = (e1 & ENTRY_ADDR_MASK) / 4096;
        proof {
            assert(t2w as int == child_at(tb, t1 as int, idx1 as int));
            assert(t2w < self.tables.len() as u64);
        }
        let t2 = t2w as usize;
        proof {
            assert(lv[t2 as int] == 2);
            assert(self.lookup_entry(va) == lookup_entry_from(tb, t2 as int, va, 2));
        }
        let idx2 = ((va >> 21) & 0x1ff) as usize;
        let e2 = self.tables[t2][idx2];
        if e2 & 1 != 1 {
            return ;
        }
        proof {
            assert(is_link(tb, lv, t2 as int, idx2 as int));
        }
        let t3w = (e2 & ENTRY_ADDR_MASK) / 4096;
        proof {
            assert(t3w as int == child_at(tb, t2 as int, idx2 as int));
            assert(t3w < self.tables.len() as u64);
        }
        let t3 = t3w as usize;
        proof {
            assert(lv[t3 as int] == 3);
            assert(self.lookup_entry(va) == lookup_entry_from(tb, t3 as int, va, 3));
        }
        let idx3 = ((va >> 12) & 0x1ff) as usize;
        let ghost pre = *self;
        self.tables[t3][idx3] = 0u64;
        proof {
            lemma_zero_entry();
            let tb2 = self.tbls();
            assert(tb2 =~= tb.update(t3 as int, tb[t3 as int].update(idx3 as int, 0u64)));
            assert forall|x: int, y: int|
                0 <= x < tb2.len() && 0 <= y < 512 && #[trigger] is_link(tb2, lv, x, y) implies {
                &&& 1 <= child_at(tb2, x, y) < tb2.len()
                &&& lv[child_at(tb2, x, y)] == lv[x] + 1
                &&& entry_addr(tb2[x][y]) == child_at(tb2, x, y) * 4096
            } by {
                assert(tb2[x][y] == tb[x][y]);
                assert(is_link(tb, lv, x, y));
            }
            assert forall|x1: int, y1: int, x2: int, y2: int|
                0 <= x1 < tb2.len() && 0 <= y1 < 512 && 0 <= x2 < tb2.len() && 0 <= y2 < 512
                    && is_link(tb2, lv, x1, y1) && is_link(tb2, lv, x2, y2) && #[trigger] child_at(
                    tb2,
                    x1,
                    y1,
                ) == #[trigger] child_at(tb2, x2, y2) implies x1 == x2 && y1 == y2 by {
                assert(tb2[x1][y1] == tb[x1][y1]);
                assert(tb2[x2][y2] == tb[x2][y2]);
                assert(is_link(tb, lv, x1, y1));
                assert(is_link(tb, lv, x2, y2));
            }
            assert(tables_wf(tb2, lv));
            assert forall|x: int|
                0 <= x < tb.len() && x != t3 as int implies #[trigger] tb2[x] == tb[x] by {}
            assert forall|y: int|
                0 <= y < 512 && y != idx3 as int implies #[trigger] tb2[t3 as int][y] == tb[t3 as int][y] by {}
            lemma_update_preserves_path(tb, lv, tb2, t3 as int, idx3 as int, va, 0, 0, 3);
            assert(path_table(tb, 0, va, 0, 3) == t3 as int) by {
                reveal_with_fuel(path_table, 5);
            }
            lemma_lookup_via_path(tb2, lv, 0, va, 0);
            assert(lookup_entry_from(tb2, 0, va, 0) is None);
            assert forall|w: u64| !same_page(w, va) implies #[trigger] lookup_entry_from(tb2, 0, w, 0)
                == lookup_entry_from(tb, 0, w, 0) by {
                if path_table(tb, 0, w, 0, 3) == t3 as int && pt_index(w, 3) == idx3 as int {
                    lemma_path_unique(tb, lv, w, va, 3);
                    assert(false);
                } else {
                    lemma_leaf_write_lookup(tb, lv, tb2, t3 as int, idx3 as int, 0u64, w, 0, 0);
                }
            }
        }
    }
}

} // verus!
