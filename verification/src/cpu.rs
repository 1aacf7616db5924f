//! CPU abstraction: one logical processor bound to its page table and
//! interrupt table, plus the computable pieces of the global descriptor
//! table set-up.
//!
//! Publishing a CPU through the CPU-local register, loading the interrupt
//! table base register and the descriptor-table load itself are hardware
//! instructions and live with the platform glue outside this crate.

use vstd::prelude::*;

verus! {

use crate::interrupts::InterruptTable;
use crate::paging::PageTable;

/// Identity and privilege context of one logical processor.
#[derive(Clone, Copy, Debug, PartialEq, Eq, Structural)]
pub struct CpuInfo {
    pub userspace: bool,
    pub cpu_id: usize,
}

/// One logical processor: its identity, its page table and its interrupt
/// table.  Exactly one `Cpu` is published as current per processor, through
/// a CPU-local register handled outside this crate.
pub struct Cpu<H> {
    pub info: CpuInfo,
    pub page_table: PageTable,
    pub interrupt_table: InterruptTable<H>,
}

impl<H> Cpu<H> {
    /// Binds a processor identity to its two tables.
    pub fn new(info: CpuInfo, page_table: PageTable, interrupt_table: InterruptTable<H>) -> (r:
        Cpu<H>)
        ensures
            r.info == info,
            r.page_table == page_table,
            r.interrupt_table == interrupt_table,
    {
        Cpu { info, page_table, interrupt_table }
    }

    /// The processor's identity.
    pub fn info(&self) -> (r: &CpuInfo)
        ensures
            r == self.info,
    {
        &self.info
    }

    /// The processor's page table.
    pub fn page_table(&self) -> (r: &PageTable)
        ensures
            r == self.page_table,
    {
        &self.page_table
    }

    /// The processor's interrupt table.
    pub fn interrupt_table(&self) -> (r: &InterruptTable<H>)
        ensures
            r == self.interrupt_table,
    {
        &self.interrupt_table
    }

    /// Replaces the processor's page table.
    pub fn set_page_table(&mut self, page_table: PageTable)
        ensures
            final(self).page_table == page_table,
            final(self).info == old(self).info,
            final(self).interrupt_table == old(self).interrupt_table,
    {
        self.page_table = page_table;
    }

    /// Replaces the processor's interrupt table.  The table invariant keeps
    /// every descriptor populated, so the caller may load the hardware
    /// table-base register immediately afterwards.
    pub fn set_interrupt_table(&mut self, interrupt_table: InterruptTable<H>)
        requires
            interrupt_table.wf(),
        ensures
            final(self).interrupt_table == interrupt_table,
            final(self).info == old(self).info,
            final(self).page_table == old(self).page_table,
            final(self).interrupt_table.wf(),
    {
        self.interrupt_table = interrupt_table;
    }
}

/// Number of entries of the boot global descriptor table.
pub const GDT_LEN: usize = 11;

/// The fixed descriptors of the boot global descriptor table, in selector
/// order: null, 16-bit kernel code and data, 32-bit kernel code and data,
/// 64-bit kernel code and data, 32-bit user code and data, 64-bit user code
/// and data.
pub open spec fn gdt_spec() -> Seq<u64> {
    seq![
        0x00u64,
        0x00aff3000000ffffu64,
        0x000093000000ffffu64,
        0x00cf9a000000ffffu64,
        0x00cf93000000ffffu64,
        0x00af9b000000ffffu64,
        0x00af93000000ffffu64,
        0x00cffa000000ffffu64,
        0x00cff3000000ffffu64,
        0x00affb000000ffffu64,
        0x00aff3000000ffffu64,
    ]
}

/// Computable pieces of processor set-up; the register loads themselves are
/// hardware instructions and live outside this crate.
pub struct Util {}

impl Util {
    /// The boot global descriptor table's contents.
    pub fn gdt_entries() -> (r: Vec<u64>)
        ensures
            r@ == gdt_spec(),
    {
        let mut r: Vec<u64> = Vec::new();
        r.push(0x00);  // Null descriptor
        r.push(0x00aff3000000ffff);  // Kernel code 16, 0x08
        r.push(0x000093000000ffff);  // Kernel data 16, 0x10
        r.push(0x00cf9a000000ffff);  // Kernel code 32, 0x18
        r.push(0x00cf93000000ffff);  // Kernel data 32, 0x20
        r.push(0x00af9b000000ffff);  // Kernel code 64, 0x28
        r.push(0x00af93000000ffff);  // Kernel data 64, 0x30
        r.push(0x00cffa000000ffff);  // User code 32, 0x38
        r.push(0x00cff3000000ffff);  // User data 32, 0x40
        r.push(0x00affb000000ffff);  // User code 64, 0x48
        r.push(0x00aff3000000ffff);  // User data 64, 0x50
        proof {
            assert(r@ =~= gdt_spec());
        }
        r
    }

    /// The value loaded into the descriptor-table register: the table limit
    /// 0x50 in the low bits with the table's address above it.
    pub fn gdtr_value(gdt_addr: usize) -> (r: u128)
        ensures
            r == 0x50u128 | ((gdt_addr as u128) << 16),
    {
        0x50u128 | ((gdt_addr as u128) << 16)
    }
}

} // verus!
