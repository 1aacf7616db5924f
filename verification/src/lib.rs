//! Core abstractions of a small operating-system kernel: a physical-frame
//! allocator, a buddy allocator for virtual address space, a heap that joins
//! the two through a page table, and the interrupt/exception layer.
//!
//! Everything that touches hardware (boot hand-off, control registers, port
//! I/O, the trap trampoline) lives outside this crate; the crate holds the
//! decisions and the bookkeeping, with contracts.

pub mod buddy;
pub mod cpu;
pub mod exceptions;
pub mod heap;
pub mod interrupts;
pub mod paging;
pub mod phys;
pub mod task;

use vstd::prelude::*;

verus! {

/// Size in bytes of one physical page frame.
pub const FRAME_SIZE: usize = 4096;

} // verus!
