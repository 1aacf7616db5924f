//! Interrupt and exception architecture layer: the 256-entry descriptor
//! table, typed vector names, structured decoding of hardware error codes,
//! and the CPU-state marshalling that the trap trampoline relies on.
//!
//! The table stores handlers as opaque values of a caller-chosen copyable
//! type, so the hot dispatch path is a table lookup plus plain decoding; the
//! actual indirect call and the `iretq` return stay with the trampoline
//! outside this crate.

use vstd::prelude::*;

verus! {

use crate::FRAME_SIZE;
use crate::phys::PhysicalAllocator;
use crate::phys::count_free;

/// Symbolic names of the hardware vectors this layer knows.
#[derive(Clone, Copy, Debug, PartialEq, Eq, Structural)]
pub enum CpuInterrupt {
    DivideByZero,
    Debug,
    NonMaskableInterrupt,
    Breakpoint,
    Overflow,
    BoundRangeExceeded,
    InvalidOpcode,
    DeviceUnavailable,
    InvalidTss,
    SegmentNotPresent,
    StackSegmentFault,
    GeneralProtectionFault,
    PageFault,
    FloatingPointException,
    AlignmentCheck,
    MachineCheck,
    SimdException,
    VirtualizationException,
    ControlProtectionException,
    HypervisorInjectionException,
    VmmCommunicationException,
    SecurityException,
    Syscall,
}

/// Errors of the architecture layer.
#[derive(Clone, Copy, Debug, PartialEq, Eq, Structural)]
pub enum Error {
    MisAligned,
    Unsupported,
    Uninitialized,
}

/// Raw vector number of a symbolic interrupt.
pub open spec fn interrupt_num_spec(interrupt: CpuInterrupt) -> u64 {
    match interrupt {
        CpuInterrupt::DivideByZero => 0,
        CpuInterrupt::Debug => 1,
        CpuInterrupt::NonMaskableInterrupt => 2,
        CpuInterrupt::Breakpoint => 3,
        CpuInterrupt::Overflow => 4,
        CpuInterrupt::BoundRangeExceeded => 5,
        CpuInterrupt::InvalidOpcode => 6,
        CpuInterrupt::DeviceUnavailable => 7,
        CpuInterrupt::InvalidTss => 10,
        CpuInterrupt::SegmentNotPresent => 11,
        CpuInterrupt::StackSegmentFault => 12,
        CpuInterrupt::GeneralProtectionFault => 13,
        CpuInterrupt::PageFault => 14,
        CpuInterrupt::FloatingPointException => 16,
        CpuInterrupt::AlignmentCheck => 17,
        CpuInterrupt::MachineCheck => 18,
        CpuInterrupt::SimdException => 19,
        CpuInterrupt::VirtualizationException => 20,
        CpuInterrupt::ControlProtectionException => 21,
        CpuInterrupt::HypervisorInjectionException => 28,
        CpuInterrupt::VmmCommunicationException => 29,
        CpuInterrupt::SecurityException => 30,
        CpuInterrupt::Syscall => 128,
    }
}

/// Symbolic interrupt of a raw vector number, where one is defined.
pub open spec fn interrupt_from_num_spec(num: u64) -> Option<CpuInterrupt> {
    if num == 0 {
        Some(CpuInterrupt::DivideByZero)
    } else if num == 1 {
        Some(CpuInterrupt::Debug)
    } else if num == 2 {
        Some(CpuInterrupt::NonMaskableInterrupt)
    } else if num == 3 {
        Some(CpuInterrupt::Breakpoint)
    } else if num == 4 {
        Some(CpuInterrupt::Overflow)
    } else if num == 5 {
        Some(CpuInterrupt::BoundRangeExceeded)
    } else if num == 6 {
        Some(CpuInterrupt::InvalidOpcode)
    } else if num == 7 {
        Some(CpuInterrupt::DeviceUnavailable)
    } else if num == 10 {
        Some(CpuInterrupt::InvalidTss)
    } else if num == 11 {
        Some(CpuInterrupt::SegmentNotPresent)
    } else if num == 12 {
        Some(CpuInterrupt::StackSegmentFault)
    } else if num == 13 {
        Some(CpuInterrupt::GeneralProtectionFault)
    } else if num == 14 {
        Some(CpuInterrupt::PageFault)
    } else if num == 16 {
        Some(CpuInterrupt::FloatingPointException)
    } else if num == 17 {
        Some(CpuInterrupt::AlignmentCheck)
    } else if num == 18 {
        Some(CpuInterrupt::MachineCheck)
    } else if num == 19 {
        Some(CpuInterrupt::SimdException)
    } else if num == 20 {
        Some(CpuInterrupt::VirtualizationException)
    } else if num == 21 {
        Some(CpuInterrupt::ControlProtectionException)
    } else if num == 28 {
        Some(CpuInterrupt::HypervisorInjectionException)
    } else if num == 29 {
        Some(CpuInterrupt::VmmCommunicationException)
    } else if num == 30 {
        Some(CpuInterrupt::SecurityException)
    } else if num == 128 {
        Some(CpuInterrupt::Syscall)
    } else {
        None
    }
}

/// Raw vector number of a symbolic interrupt; every known name has one.
pub fn interrupt_num(interrupt: CpuInterrupt) -> (r: Option<u64>)
    ensures
        r == Some(interrupt_num_spec(interrupt)),
{
    match interrupt {
        CpuInterrupt::DivideByZero => Some(0),
        CpuInterrupt::Debug => Some(1),
        CpuInterrupt::NonMaskableInterrupt => Some(2),
        CpuInterrupt::Breakpoint => Some(3),
        CpuInterrupt::Overflow => Some(4),
        CpuInterrupt::BoundRangeExceeded => Some(5),
        CpuInterrupt::InvalidOpcode => Some(6),
        CpuInterrupt::DeviceUnavailable => Some(7),
        CpuInterrupt::InvalidTss => Some(10),
        CpuInterrupt::SegmentNotPresent => Some(11),
        CpuInterrupt::StackSegmentFault => Some(12),
        CpuInterrupt::GeneralProtectionFault => Some(13),
        CpuInterrupt::PageFault => Some(14),
        CpuInterrupt::FloatingPointException => Some(16),
        CpuInterrupt::AlignmentCheck => Some(17),
        CpuInterrupt::MachineCheck => Some(18),
        CpuInterrupt::SimdException => Some(19),
        CpuInterrupt::VirtualizationException => Some(20),
        CpuInterrupt::ControlProtectionException => Some(21),
        CpuInterrupt::HypervisorInjectionException => Some(28),
        CpuInterrupt::VmmCommunicationException => Some(29),
        CpuInterrupt::SecurityException => Some(30),
        CpuInterrupt::Syscall => Some(128),
    }
}

/// Symbolic interrupt of a raw vector number; unknown numbers are rejected
/// rather than trusted, since they may come from diagnostic paths.
pub fn interrupt_from_num(num: u64) -> (r: Option<CpuInterrupt>)
    ensures
        r == interrupt_from_num_spec(num),
{
    match num {
        0 => Some(CpuInterrupt::DivideByZero),
        1 => Some(CpuInterrupt::Debug),
        2 => Some(CpuInterrupt::NonMaskableInterrupt),
        3 => Some(CpuInterrupt::Breakpoint),
        4 => Some(CpuInterrupt::Overflow),
        5 => Some(CpuInterrupt::BoundRangeExceeded),
        6 => Some(CpuInterrupt::InvalidOpcode),
        7 => Some(CpuInterrupt::DeviceUnavailable),
        10 => Some(CpuInterrupt::InvalidTss),
        11 => Some(CpuInterrupt::SegmentNotPresent),
        12 => Some(CpuInterrupt::StackSegmentFault),
        13 => Some(CpuInterrupt::GeneralProtectionFault),
        14 => Some(CpuInterrupt::PageFault),
        16 => Some(CpuInterrupt::FloatingPointException),
        17 => Some(CpuInterrupt::AlignmentCheck),
        18 => Some(CpuInterrupt::MachineCheck),
        19 => Some(CpuInterrupt::SimdException),
        20 => Some(CpuInterrupt::VirtualizationException),
        21 => Some(CpuInterrupt::ControlProtectionException),
        28 => Some(CpuInterrupt::HypervisorInjectionException),
        29 => Some(CpuInterrupt::VmmCommunicationException),
        30 => Some(CpuInterrupt::SecurityException),
        128 => Some(CpuInterrupt::Syscall),
        _ => None,
    }
}

/// Translating a symbolic interrupt to its vector and back yields the same
/// interrupt: the two tables are inverse on the defined vectors.
pub proof fn lemma_vector_round_trip(interrupt: CpuInterrupt, num: u64)
    ensures
        interrupt_from_num_spec(interrupt_num_spec(interrupt)) == Some(interrupt),
        interrupt_from_num_spec(num) is Some ==> interrupt_num_spec(
            interrupt_from_num_spec(num)->Some_0,
        ) == num,
{
}

/// Whether the architecture pushes an error code for this vector.
pub open spec fn vector_has_error_code(num: u64) -> bool {
    num == 10 || num == 11 || num == 12 || num == 13 || num == 14 || num == 29 || num == 30
}

/// Minimal machine frame that the hardware itself pushes on a trap.
pub struct ExceptionStackFrame {
    pub instruction_pointer: u64,
    pub code_segment: u64,
    pub cpu_flags: u64,
    pub stack_pointer: u64,
    pub stack_segment: u64,
}

/// Decoded selector-error information of segment-related faults.
#[derive(Clone, Copy, Debug, PartialEq, Eq, Structural)]
pub struct SegmentError {
    pub external: bool,
    pub table: u8,
    pub index: u16,
}

/// Field-by-field decoding of a selector error code.
pub open spec fn segment_error_spec(error_code: u64) -> SegmentError {
    SegmentError {
        external: error_code & 0b01 > 0,
        table: ((error_code >> 1) & 0b11) as u8,
        index: ((error_code >> 3) & 0x1FFF) as u16,
    }
}

impl From<u64> for SegmentError {
    /// Decodes the selector error code a segment fault pushes.
    fn from(error_code: u64) -> (r: Self) {
        SegmentError {
            external: error_code & 0b01 > 0,
            table: ((error_code >> 1) & 0b11) as u8,
            index: ((error_code >> 3) & 0x1FFF) as u16,
        }
    }
}

impl vstd::std_specs::convert::FromSpecImpl<u64> for SegmentError {
    open spec fn obeys_from_spec() -> bool {
        true
    }

    open spec fn from_spec(error_code: u64) -> Self {
        segment_error_spec(error_code)
    }
}

/// Structured hardware fault information, decoded per vector.
#[derive(Clone, Copy, Debug, PartialEq, Eq, Structural)]
pub enum ErrorCode {
    InvalidTss(SegmentError),
    SegmentNotPresent(SegmentError),
    StackSegmentFault(SegmentError),
    GeneralProtectionFault(SegmentError),
    PageFault {
        present: bool,
        write: bool,
        user: bool,
        reserved_write: bool,
        instruction_fetch: bool,
        protection_key: bool,
        shadow_stack: bool,
        software_guard_extensions: bool,
        address: usize,
    },
    ControlProtectionException(u8),
    VmmCommunicationException(u8),
    SecurityException(u8),
}

/// Decoding of the raw error code for each vector that carries one.  The
/// faulting address of a page fault is read from a hardware register by the
/// trap path and handed in as a plain value.
pub open spec fn error_code_spec(error_code: u64, interrupt_num: u64, fault_address: usize) -> ErrorCode {
    if interrupt_num == 10 {
        ErrorCode::InvalidTss(segment_error_spec(error_code))
    } else if interrupt_num == 11 {
        ErrorCode::SegmentNotPresent(segment_error_spec(error_code))
    } else if interrupt_num == 12 {
        ErrorCode::StackSegmentFault(segment_error_spec(error_code))
    } else if interrupt_num == 13 {
        ErrorCode::GeneralProtectionFault(segment_error_spec(error_code))
    } else if interrupt_num == 14 {
        ErrorCode::PageFault {
            present: error_code & 0x01 > 0,
            write: error_code & 0x02 > 0,
            user: error_code & 0x04 > 0,
            reserved_write: error_code & 0x08 > 0,
            instruction_fetch: error_code & 0x10 > 0,
            protection_key: error_code & 0x20 > 0,
            shadow_stack: error_code & 0x40 > 0,
            software_guard_extensions: error_code & 0x4000 > 0,
            address: fault_address,
        }
    } else if interrupt_num == 29 {
        ErrorCode::VmmCommunicationException(error_code as u8)
    } else {
        ErrorCode::SecurityException(error_code as u8)
    }
}

impl ErrorCode {
    /// Decodes the error code that vector `interrupt_num` pushed.  Only the
    /// vectors that architecturally carry an error code may be decoded; the
    /// fault address accompanies vector 14 and is ignored elsewhere.
    pub fn from(error_code: u64, interrupt_num: u64, fault_address: usize) -> (r: Self)
        requires
            vector_has_error_code(interrupt_num),
        ensures
            r == error_code_spec(error_code, interrupt_num, fault_address),
    {
        match interrupt_num {
            10 => ErrorCode::InvalidTss(SegmentError::from(error_code)),
            11 => ErrorCode::SegmentNotPresent(SegmentError::from(error_code)),
            12 => ErrorCode::StackSegmentFault(SegmentError::from(error_code)),
            13 => ErrorCode::GeneralProtectionFault(SegmentError::from(error_code)),
            14 => ErrorCode::PageFault {
                present: error_code & 0x01 > 0,
                write: error_code & 0x02 > 0,
                user: error_code & 0x04 > 0,
                reserved_write: error_code & 0x08 > 0,
                instruction_fetch: error_code & 0x10 > 0,
                protection_key: error_code & 0x20 > 0,
                shadow_stack: error_code & 0x40 > 0,
                software_guard_extensions: error_code & 0x4000 > 0,
                address: fault_address,
            },
            29 => ErrorCode::VmmCommunicationException(error_code as u8),
            _ => ErrorCode::SecurityException(error_code as u8),
        }
    }
}

/// Register snapshot a trap handler sees and may edit to redirect the
/// resumed execution.
#[derive(Clone, Copy, Debug, PartialEq, Eq, Structural)]
pub struct CpuState {
    pub ss: u64,
    pub rsp: u64,
    pub rflags: u64,
    pub cs: u64,
    pub rip: u64,
    pub rax: u64,
    pub rbx: u64,
    pub rcx: u64,
    pub rdx: u64,
    pub rsi: u64,
    pub rdi: u64,
    pub rbp: u64,
    pub r8: u64,
    pub r9: u64,
    pub r10: u64,
    pub r11: u64,
    pub r12: u64,
    pub r13: u64,
    pub r14: u64,
    pub r15: u64,
}

/// The register frame the trap trampoline builds on the stack, in push
/// order, together with the vector number and raw error code.
#[derive(Clone, Copy, Debug, PartialEq, Eq, Structural)]
pub struct InterruptParam {
    pub r15: u64,
    pub r14: u64,
    pub r13: u64,
    pub r12: u64,
    pub r11: u64,
    pub r10: u64,
    pub r9: u64,
    pub r8: u64,
    pub rbp: u64,
    pub rdi: u64,
    pub rsi: u64,
    pub rdx: u64,
    pub rcx: u64,
    pub rbx: u64,
    pub rax: u64,
    pub interrupt_number: u64,
    pub error_code: u64,
    pub rip: u64,
    pub cs: u64,
    pub rflags: u64,
    pub rsp: u64,
    pub ss: u64,
}

/// The typed register view over a trampoline frame.
pub open spec fn cpu_state_of(p: InterruptParam) -> CpuState {
    CpuState {
        ss: p.ss,
        rsp: p.rsp,
        rflags: p.rflags,
        cs: p.cs,
        rip: p.rip,
        rax: p.rax,
        rbx: p.rbx,
        rcx: p.rcx,
        rdx: p.rdx,
        rsi: p.rsi,
        rdi: p.rdi,
        rbp: p.rbp,
        r8: p.r8,
        r9: p.r9,
        r10: p.r10,
        r11: p.r11,
        r12: p.r12,
        r13: p.r13,
        r14: p.r14,
        r15: p.r15,
    }
}

impl CpuState {
    /// Builds the typed register view over a trampoline frame.
    pub fn from_param(p: &InterruptParam) -> (r: CpuState)
        ensures
            r == cpu_state_of(*p),
    {
        CpuState {
            ss: p.ss,
            rsp: p.rsp,
            rflags: p.rflags,
            cs: p.cs,
            rip: p.rip,
            rax: p.rax,
            rbx: p.rbx,
            rcx: p.rcx,
            rdx: p.rdx,
            rsi: p.rsi,
            rdi: p.rdi,
            rbp: p.rbp,
            r8: p.r8,
            r9: p.r9,
            r10: p.r10,
            r11: p.r11,
            r12: p.r12,
            r13: p.r13,
            r14: p.r14,
            r15: p.r15,
        }
    }

    /// Copies every register of the (possibly handler-edited) state back
    /// into the trampoline frame, so the restore path observes the edits;
    /// the vector number and error code slots stay as they were.
    pub fn store_param(&self, p: &mut InterruptParam)
        ensures
            cpu_state_of(*final(p)) == *self,
            final(p).interrupt_number == old(p).interrupt_number,
            final(p).error_code == old(p).error_code,
    {
        p.ss = self.ss;
        p.rsp = self.rsp;
        p.rflags = self.rflags;
        p.cs = self.cs;
        p.rip = self.rip;
        p.rax = self.rax;
        p.rbx = self.rbx;
        p.rcx = self.rcx;
        p.rdx = self.rdx;
        p.rsi = self.rsi;
        p.rdi = self.rdi;
        p.rbp = self.rbp;
        p.r8 = self.r8;
        p.r9 = self.r9;
        p.r10 = self.r10;
        p.r11 = self.r11;
        p.r12 = self.r12;
        p.r13 = self.r13;
        p.r14 = self.r14;
        p.r15 = self.r15;
    }

    /// Instruction pointer the trap will resume at.
    pub fn get_ip(&self) -> (r: usize)
        ensures
            r == self.rip as usize,
    {
        self.rip as usize
    }

    /// Redirects the trap's resume point.
    pub fn set_ip(&mut self, ip: usize)
        ensures
            *final(self) == (CpuState { rip: ip as u64, ..*old(self) }),
    {
        self.rip = ip as u64;
    }
}

/// Bit layout of one 128-bit interrupt gate descriptor.
pub open spec fn descriptor_spec(
    handler: usize,
    segment: usize,
    ist: u8,
    gate_type: u8,
    privilege_level: u8,
) -> u128 {
    ((handler as u128) & 0xFFFF) | ((((handler as u128) >> 16) & 0xFFFF) << 48) | (((
    handler as u128) >> 32) << 64) | ((segment as u128) << 16) | (((ist as u128) & 0b111) << 32) | (((
    gate_type as u128) & 0xF) << 40) | (((privilege_level as u128) & 0b11) << 45) | (1u128 << 47)
}

/// One interrupt gate: handler offset, code segment selector, stack-table
/// index, gate type, privilege level and present bit, packed as the
/// hardware reads them.
#[derive(Clone, Copy, Debug, PartialEq, Eq, Structural)]
pub struct InterruptDescriptor {
    data: u128,
}

impl View for InterruptDescriptor {
    type V = u128;

    closed spec fn view(&self) -> u128 {
        self.data
    }
}

impl InterruptDescriptor {
    /// Packs a present interrupt gate for `handler` (given by address).
    pub fn new(handler: usize, segment: usize, ist: u8, gate_type: u8, privilege_level: u8) -> (r:
        InterruptDescriptor)
        ensures
            r@ == descriptor_spec(handler, segment, ist, gate_type, privilege_level),
    {
        let mut data: u128 = 0;
        // Offset
        data |= (handler as u128) & 0xFFFF;
        data |= (((handler as u128) >> 16) & 0xFFFF) << 48;
        data |= ((handler as u128) >> 32) << 64;
        // Segment
        data |= (segment as u128) << 16;
        // Interrupt stack table
        data |= ((ist as u128) & 0b111) << 32;
        // Gate type
        data |= ((gate_type as u128) & 0xF) << 40;
        // Privilege level
        data |= ((privilege_level as u128) & 0b11) << 45;
        // Present
        data |= 1u128 << 47;
        let r = InterruptDescriptor { data };
        proof {
            let h = handler as u128;
            let s = segment as u128;
            let i = ist as u128;
            let g = gate_type as u128;
            let p = privilege_level as u128;
            assert(data == (h & 0xFFFF) | (((h >> 16) & 0xFFFF) << 48) | ((h >> 32) << 64) | (s
                << 16) | ((i & 0b111) << 32) | ((g & 0xF) << 40) | ((p & 0b11) << 45) | (1u128
                << 47)) by (bit_vector)
                requires
                    data == ((((((((0u128 | (h & 0xFFFF)) | (((h >> 16) & 0xFFFF) << 48)) | ((h
                        >> 32) << 64)) | (s << 16)) | ((i & 0b111) << 32)) | ((g & 0xF) << 40)) | ((
                    p & 0b11) << 45)) | (1u128 << 47)),
            ;
        }
        r
    }

    /// The absent descriptor: all bits clear.
    pub fn none() -> (r: InterruptDescriptor)
        ensures
            r@ == 0u128,
    {
        InterruptDescriptor { data: 0 }
    }

    /// Raw descriptor bits.
    pub fn data(&self) -> (r: u128)
        ensures
            r == self@,
    {
        self.data
    }
}

/// Size and location of the descriptor table, as loaded into the hardware
/// table-base register; the address names the physical frame that backs the
/// descriptors.
#[derive(Clone, Copy, Debug, PartialEq, Eq, Structural)]
pub struct InterruptTableDescriptor {
    pub size: u16,
    pub address: usize,
}

/// The 256-entry interrupt table: one packed gate descriptor per vector
/// (stored in a frame taken from the physical allocator) plus one optional
/// handler value per vector.  Handlers are opaque to this layer; only
/// vectors with a symbolic name ever hold one.
pub struct InterruptTable<H> {
    descriptor: InterruptTableDescriptor,
    descriptors: Vec<InterruptDescriptor>,
    handlers: Vec<Option<H>>,
    frame: usize,
}

impl<H> InterruptTable<H> {
    /// The per-vector handler slots.
    pub closed spec fn handler_view(self) -> Seq<Option<H>> {
        self.handlers@
    }

    /// Both per-vector arrays are full-sized and only named vectors carry
    /// handlers.
    pub open spec fn wf(self) -> bool {
        &&& self.descriptor_view().len() == 256
        &&& self.handler_view().len() == 256
        &&& forall|i: int|
            0 <= i < 256 && (#[trigger] self.handler_view()[i]) is Some
                ==> interrupt_from_num_spec(i as u64) is Some
    }

    /// The packed gate descriptors.
    pub closed spec fn descriptor_view(self) -> Seq<u128> {
        self.descriptors@.map_values(|d: InterruptDescriptor| d@)
    }

    /// Size and address of the descriptor storage, as a value.
    pub closed spec fn descriptor_record(self) -> InterruptTableDescriptor {
        self.descriptor
    }

    /// Where the descriptor storage lives.
    pub fn table_descriptor(&self) -> (r: InterruptTableDescriptor)
        ensures
            r == self.descriptor_record(),
    {
        self.descriptor
    }
}

impl<H: Copy> InterruptTable<H> {
    /// Builds a fully populated table: storage for the 256 descriptors is
    /// taken from the physical allocator, and every vector's gate points at
    /// its per-vector trampoline stub (kernel code segment, stack-table
    /// index 0, interrupt gate, privilege 0).  No handler is registered yet.
    /// Fails exactly when the allocator is exhausted.
    pub fn new(stub_addrs: &Vec<usize>, allocator: &mut PhysicalAllocator) -> (r: Option<
        InterruptTable<H>,
    >)
        requires
            stub_addrs@.len() == 256,
            old(allocator).wf(),
        ensures
            final(allocator).wf(),
            final(allocator)@.len() == old(allocator)@.len(),
            match r {
                Some(t) => {
                    &&& t.wf()
                    &&& forall|i: int| 0 <= i < 256 ==> t.handler_view()[i] is None
                    &&& forall|i: int|
                        0 <= i < 256 ==> t.descriptor_view()[i] == descriptor_spec(
                            stub_addrs@[i],
                            0x28,
                            0,
                            0xE,
                            0,
                        )
                    &&& t.descriptor_record().size == 0xFFF
                    &&& count_free(final(allocator)@) == count_free(old(allocator)@) - 1
                    &&& forall|i: int|
                        0 <= i < old(allocator)@.len() && old(allocator)@[i]
                            ==> final(allocator)@[i]
                },
                None => {
                    &&& count_free(old(allocator)@) == 0
                    &&& final(allocator)@ == old(allocator)@
                },
            },
    {
        let frame = match allocator.allocate() {
            Some(f) => f,
            None => {
                return None;
            },
        };
        let mut descriptors: Vec<InterruptDescriptor> = Vec::new();
        let mut i: usize = 0;
        while i < 256
            invariant
                i <= 256,
                stub_addrs@.len() == 256,
                descriptors@.len() == i,
                forall|k: int|
                    0 <= k < i ==> (#[trigger] descriptors@[k])@ == descriptor_spec(
                        stub_addrs@[k],
                        0x28,
                        0,
                        0xE,
                        0,
                    ),
            decreases 256 - i,
        {
            descriptors.push(InterruptDescriptor::new(stub_addrs[i], 0x28, 0, 0xE, 0));
            i += 1;
        }
        let mut handlers: Vec<Option<H>> = Vec::new();
        let mut i: usize = 0;
        while i < 256
            invariant
                i <= 256,
                handlers@.len() == i,
                forall|k: int| 0 <= k < i ==> (#[trigger] handlers@[k]) is None,
            decreases 256 - i,
        {
            handlers.push(None);
            i += 1;
        }
        proof {
            allocator.lemma_num_frames_bound();
            assert(frame * FRAME_SIZE <= usize::MAX) by (nonlinear_arith)
                requires
                    0 <= frame < allocator.num_frames(),
                    allocator.num_frames() * FRAME_SIZE <= usize::MAX,
                    FRAME_SIZE == 4096,
            ;
        }
        let descriptor = InterruptTableDescriptor { size: 0xFFF, address: frame * FRAME_SIZE };
        Some(InterruptTable { descriptor, descriptors, handlers, frame })
    }

    /// Registers `handler` for a symbolic interrupt, replacing any earlier
    /// registration for that vector.
    pub fn set_interrupt_handler(&mut self, interrupt: CpuInterrupt, handler: H) -> (r: Result<
        (),
        Error,
    >)
        requires
            old(self).wf(),
        ensures
            final(self).wf(),
            r == Ok::<(), Error>(()),
            final(self).handler_view() == old(self).handler_view().update(
                interrupt_num_spec(interrupt) as int,
                Some(handler),
            ),
            final(self).descriptor_view() == old(self).descriptor_view(),
            final(self).descriptor_record() == old(self).descriptor_record(),
    {
        proof {
            lemma_vector_round_trip(interrupt, 0);
            assert(interrupt_num_spec(interrupt) < 256);
        }
        match interrupt_num(interrupt) {
            Some(num) => {
                self.handlers[num as usize] = Some(handler);
                Ok(())
            },
            None => Err(Error::Unsupported),
        }
    }

    /// The handler registered for a raw vector, if any; vectors past the
    /// table report none.
    pub fn handler_for(&self, vector: u64) -> (r: Option<H>)
        requires
            self.wf(),
        ensures
            vector < 256 ==> r == self.handler_view()[vector as int],
            vector >= 256 ==> r is None,
    {
        if vector < 256 {
            self.handlers[vector as usize]
        } else {
            None
        }
    }
}

/// What the common trap entry decides to do for one trampoline frame.
pub enum DispatchDecision<H> {
    /// No handler is registered for the vector: the trap is unrecoverable
    /// and the machine must report the vector and halt.
    NoHandler(u64),
    /// Run `handler` with the decoded error code and the typed register
    /// state, then write the state back into the frame.
    Invoke { handler: H, error_code: Option<ErrorCode>, interrupt: CpuInterrupt, state: CpuState },
}

/// The pure part of the common trap entry: looks up the vector's handler,
/// decodes the error code exactly for the vectors that carry one, and
/// builds the typed register state.  The fault address accompanies page
/// faults and is read from the hardware by the caller.
pub fn dispatch_decision<H: Copy>(
    table: &InterruptTable<H>,
    param: &InterruptParam,
    fault_address: usize,
) -> (r: DispatchDecision<H>)
    requires
        table.wf(),
        param.interrupt_number < 256,
    ensures
        ({
            let n = param.interrupt_number;
            match r {
                DispatchDecision::NoHandler(v) => v == n && table.handler_view()[n as int] is None,
                DispatchDecision::Invoke { handler, error_code, interrupt, state } => {
                    &&& table.handler_view()[n as int] == Some(handler)
                    &&& interrupt_from_num_spec(n) == Some(interrupt)
                    &&& error_code == (if vector_has_error_code(n) {
                        Some(error_code_spec(param.error_code, n, fault_address))
                    } else {
                        None::<ErrorCode>
                    })
                    &&& state == cpu_state_of(*param)
                },
            }
        }),
{
    let n = param.interrupt_number;
    match table.handler_for(n) {
        None => DispatchDecision::NoHandler(n),
        Some(handler) => {
            let interrupt = match interrupt_from_num(n) {
                Some(found) => found,
                None => {
                    proof {
                        assert(false);
                    }
                    CpuInterrupt::DivideByZero
                },
            };
            let error_code = if n == 10 || n == 11 || n == 12 || n == 13 || n == 14 || n == 29 || n
                == 30 {
                Some(ErrorCode::from(param.error_code, n, fault_address))
            } else {
                None
            };
            DispatchDecision::Invoke {
                handler,
                error_code,
                interrupt,
                state: CpuState::from_param(param),
            }
        },
    }
}

} // verus!
