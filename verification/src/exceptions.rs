//! Reference exception handlers: every architectural exception is routed to
//! a handler that builds a fatal report; the caller prints it and halts the
//! processor.  The dispatch machinery itself stays policy-neutral.

use vstd::prelude::*;

verus! {

use crate::interrupts::CpuInterrupt;
use crate::interrupts::CpuState;
use crate::interrupts::ErrorCode;
use crate::interrupts::InterruptTable;
use crate::interrupts::interrupt_from_num_spec;

/// An unrecoverable trap: which exception fired, where, and with what
/// hardware-supplied detail.  The processor must not resume.
#[derive(Clone, Copy, Debug, PartialEq, Eq, Structural)]
pub struct Fault {
    pub interrupt: CpuInterrupt,
    pub instruction_pointer: usize,
    pub error_code: Option<ErrorCode>,
}

/// Short human-readable name of each exception, with its architectural
/// mnemonic.
pub open spec fn description_spec(interrupt: CpuInterrupt) -> Seq<char> {
    match interrupt {
        CpuInterrupt::DivideByZero => "Division by zero (#DE)"@,
        CpuInterrupt::Debug => "Debug exception (#DB)"@,
        CpuInterrupt::NonMaskableInterrupt => "Non-maskable interrupt"@,
        CpuInterrupt::Breakpoint => "Breakpoint (#BP)"@,
        CpuInterrupt::Overflow => "Overflow exception (#OF)"@,
        CpuInterrupt::BoundRangeExceeded => "Bound range exceeded exception (#BR)"@,
        CpuInterrupt::InvalidOpcode => "Invalid opcode exception (#UD)"@,
        CpuInterrupt::DeviceUnavailable => "Device unavailable exception (#NM)"@,
        CpuInterrupt::InvalidTss => "Invalid TSS exception (#TS)"@,
        CpuInterrupt::SegmentNotPresent => "Segment not present exception (#NP)"@,
        CpuInterrupt::StackSegmentFault => "Stack segment fault (#SS)"@,
        CpuInterrupt::GeneralProtectionFault => "General protection fault (#GP)"@,
        CpuInterrupt::PageFault => "Page fault (#PF)"@,
        CpuInterrupt::FloatingPointException => "Floating point exception (#MF)"@,
        CpuInterrupt::AlignmentCheck => "Alignment check (#AC)"@,
        CpuInterrupt::MachineCheck => "Machine check (#MC)"@,
        CpuInterrupt::SimdException => "SIMD exception (#XM/#XF)"@,
        CpuInterrupt::VirtualizationException => "Virtualization exception (#VE)"@,
        CpuInterrupt::ControlProtectionException => "Control protection exception (#CP)"@,
        CpuInterrupt::HypervisorInjectionException => "Hypervisor injection exception (#HV)"@,
        CpuInterrupt::VmmCommunicationException => "VMM communication exception (#VC)"@,
        CpuInterrupt::SecurityException => "Security exception (#SX)"@,
        CpuInterrupt::Syscall => "System call"@,
    }
}

/// Short human-readable name of each exception.
pub fn exception_description(interrupt: CpuInterrupt) -> (s: &'static str)
    ensures
        s@ == description_spec(interrupt),
{
    match interrupt {
        CpuInterrupt::DivideByZero => "Division by zero (#DE)",
        CpuInterrupt::Debug => "Debug exception (#DB)",
        CpuInterrupt::NonMaskableInterrupt => "Non-maskable interrupt",
        CpuInterrupt::Breakpoint => "Breakpoint (#BP)",
        CpuInterrupt::Overflow => "Overflow exception (#OF)",
        CpuInterrupt::BoundRangeExceeded => "Bound range exceeded exception (#BR)",
        CpuInterrupt::InvalidOpcode => "Invalid opcode exception (#UD)",
        CpuInterrupt::DeviceUnavailable => "Device unavailable exception (#NM)",
        CpuInterrupt::InvalidTss => "Invalid TSS exception (#TS)",
        CpuInterrupt::SegmentNotPresent => "Segment not present exception (#NP)",
        CpuInterrupt::StackSegmentFault => "Stack segment fault (#SS)",
        CpuInterrupt::GeneralProtectionFault => "General protection fault (#GP)",
        CpuInterrupt::PageFault => "Page fault (#PF)",
        CpuInterrupt::FloatingPointException => "Floating point exception (#MF)",
        CpuInterrupt::AlignmentCheck => "Alignment check (#AC)",
        CpuInterrupt::MachineCheck => "Machine check (#MC)",
        CpuInterrupt::SimdException => "SIMD exception (#XM/#XF)",
        CpuInterrupt::VirtualizationException => "Virtualization exception (#VE)",
        CpuInterrupt::ControlProtectionException => "Control protection exception (#CP)",
        CpuInterrupt::HypervisorInjectionException => "Hypervisor injection exception (#HV)",
        CpuInterrupt::VmmCommunicationException => "VMM communication exception (#VC)",
        CpuInterrupt::SecurityException => "Security exception (#SX)",
        CpuInterrupt::Syscall => "System call",
    }
}

/// Fatal report for a divide-by-zero trap.
pub fn divide_by_zero(error_code: Option<ErrorCode>, _interrupt: CpuInterrupt, state: &CpuState) -> (f:
    Fault)
    ensures
        f == (Fault {
            interrupt: CpuInterrupt::DivideByZero,
            instruction_pointer: state.rip as usize,
            error_code,
        }),
{
    Fault {
        interrupt: CpuInterrupt::DivideByZero,
        instruction_pointer: state.get_ip(),
        error_code,
    }
}

/// Fatal report for a debug trap.
pub fn debug(error_code: Option<ErrorCode>, _interrupt: CpuInterrupt, state: &CpuState) -> (f: Fault)
    ensures
        f == (Fault {
            interrupt: CpuInterrupt::Debug,
            instruction_pointer: state.rip as usize,
            error_code,
        }),
{
    Fault { interrupt: CpuInterrupt::Debug, instruction_pointer: state.get_ip(), error_code }
}

/// Fatal report for a non-maskable interrupt.
pub fn nmi(error_code: Option<ErrorCode>, _interrupt: CpuInterrupt, state: &CpuState) -> (f: Fault)
    ensures
        f == (Fault {
            interrupt: CpuInterrupt::NonMaskableInterrupt,
            instruction_pointer: state.rip as usize,
            error_code,
        }),
{
    Fault {
        interrupt: CpuInterrupt::NonMaskableInterrupt,
        instruction_pointer: state.get_ip(),
        error_code,
    }
}

/// Fatal report for a breakpoint trap.
pub fn breakpoint(error_code: Option<ErrorCode>, _interrupt: CpuInterrupt, state: &CpuState) -> (f:
    Fault)
    ensures
        f == (Fault {
            interrupt: CpuInterrupt::Breakpoint,
            instruction_pointer: state.rip as usize,
            error_code,
        }),
{
    Fault { interrupt: CpuInterrupt::Breakpoint, instruction_pointer: state.get_ip(), error_code }
}

/// Fatal report for an overflow trap.
pub fn overflow(error_code: Option<ErrorCode>, _interrupt: CpuInterrupt, state: &CpuState) -> (f:
    Fault)
    ensures
        f == (Fault {
            interrupt: CpuInterrupt::Overflow,
            instruction_pointer: state.rip as usize,
            error_code,
        }),
{
    Fault { interrupt: CpuInterrupt::Overflow, instruction_pointer: state.get_ip(), error_code }
}

/// Fatal report for a bound-range-exceeded trap.
pub fn bound_range_exceeded(
    error_code: Option<ErrorCode>,
    _interrupt: CpuInterrupt,
    state: &CpuState,
) -> (f: Fault)
    ensures
        f == (Fault {
            interrupt: CpuInterrupt::BoundRangeExceeded,
            instruction_pointer: state.rip as usize,
            error_code,
        }),
{
    Fault {
        interrupt: CpuInterrupt::BoundRangeExceeded,
        instruction_pointer: state.get_ip(),
        error_code,
    }
}

/// Fatal report for an invalid-opcode trap.
pub fn invalid_opcode(error_code: Option<ErrorCode>, _interrupt: CpuInterrupt, state: &CpuState) -> (f:
    Fault)
    ensures
        f == (Fault {
            interrupt: CpuInterrupt::InvalidOpcode,
            instruction_pointer: state.rip as usize,
            error_code,
        }),
{
    Fault {
        interrupt: CpuInterrupt::InvalidOpcode,
        instruction_pointer: state.get_ip(),
        error_code,
    }
}

/// Fatal report for a device-unavailable trap.
pub fn device_unavailable(
    error_code: Option<ErrorCode>,
    _interrupt: CpuInterrupt,
    state: &CpuState,
) -> (f: Fault)
    ensures
        f == (Fault {
            interrupt: CpuInterrupt::DeviceUnavailable,
            instruction_pointer: state.rip as usize,
            error_code,
        }),
{
    Fault {
        interrupt: CpuInterrupt::DeviceUnavailable,
        instruction_pointer: state.get_ip(),
        error_code,
    }
}

/// Fatal report for an invalid-TSS fault.
pub fn invalid_tss(error_code: Option<ErrorCode>, _interrupt: CpuInterrupt, state: &CpuState) -> (f:
    Fault)
    ensures
        f == (Fault {
            interrupt: CpuInterrupt::InvalidTss,
            instruction_pointer: state.rip as usize,
            error_code,
        }),
{
    Fault { interrupt: CpuInterrupt::InvalidTss, instruction_pointer: state.get_ip(), error_code }
}

/// Fatal report for a segment-not-present fault.
pub fn segment_not_present(
    error_code: Option<ErrorCode>,
    _interrupt: CpuInterrupt,
    state: &CpuState,
) -> (f: Fault)
    ensures
        f == (Fault {
            interrupt: CpuInterrupt::SegmentNotPresent,
            instruction_pointer: state.rip as usize,
            error_code,
        }),
{
    Fault {
        interrupt: CpuInterrupt::SegmentNotPresent,
        instruction_pointer: state.get_ip(),
        error_code,
    }
}

/// Fatal report for a stack-segment fault.
pub fn stack_segment_fault(
    error_code: Option<ErrorCode>,
    _interrupt: CpuInterrupt,
    state: &CpuState,
) -> (f: Fault)
    ensures
        f == (Fault {
            interrupt: CpuInterrupt::StackSegmentFault,
            instruction_pointer: state.rip as usize,
            error_code,
        }),
{
    Fault {
        interrupt: CpuInterrupt::StackSegmentFault,
        instruction_pointer: state.get_ip(),
        error_code,
    }
}

/// Fatal report for a general protection fault.
pub fn general_protection_fault(
    error_code: Option<ErrorCode>,
    _interrupt: CpuInterrupt,
    state: &CpuState,
) -> (f: Fault)
    ensures
        f == (Fault {
            interrupt: CpuInterrupt::GeneralProtectionFault,
            instruction_pointer: state.rip as usize,
            error_code,
        }),
{
    Fault {
        interrupt: CpuInterrupt::GeneralProtectionFault,
        instruction_pointer: state.get_ip(),
        error_code,
    }
}

/// Fatal report for a page fault.
pub fn page_fault(error_code: Option<ErrorCode>, _interrupt: CpuInterrupt, state: &CpuState) -> (f:
    Fault)
    ensures
        f == (Fault {
            interrupt: CpuInterrupt::PageFault,
            instruction_pointer: state.rip as usize,
            error_code,
        }),
{
    Fault { interrupt: CpuInterrupt::PageFault, instruction_pointer: state.get_ip(), error_code }
}

/// Fatal report for an x87 floating-point exception.
pub fn fpu_exception(error_code: Option<ErrorCode>, _interrupt: CpuInterrupt, state: &CpuState) -> (f:
    Fault)
    ensures
        f == (Fault {
            interrupt: CpuInterrupt::FloatingPointException,
            instruction_pointer: state.rip as usize,
            error_code,
        }),
{
    Fault {
        interrupt: CpuInterrupt::FloatingPointException,
        instruction_pointer: state.get_ip(),
        error_code,
    }
}

/// Fatal report for an alignment-check fault.
pub fn alignment_check(error_code: Option<ErrorCode>, _interrupt: CpuInterrupt, state: &CpuState) -> (f:
    Fault)
    ensures
        f == (Fault {
            interrupt: CpuInterrupt::AlignmentCheck,
            instruction_pointer: state.rip as usize,
            error_code,
        }),
{
    Fault {
        interrupt: CpuInterrupt::AlignmentCheck,
        instruction_pointer: state.get_ip(),
        error_code,
    }
}

/// Fatal report for a machine-check abort.
pub fn machine_check(error_code: Option<ErrorCode>, _interrupt: CpuInterrupt, state: &CpuState) -> (f:
    Fault)
    ensures
        f == (Fault {
            interrupt: CpuInterrupt::MachineCheck,
            instruction_pointer: state.rip as usize,
            error_code,
        }),
{
    Fault {
        interrupt: CpuInterrupt::MachineCheck,
        instruction_pointer: state.get_ip(),
        error_code,
    }
}

/// Fatal report for a SIMD floating-point exception.
pub fn simd_exception(error_code: Option<ErrorCode>, _interrupt: CpuInterrupt, state: &CpuState) -> (f:
    Fault)
    ensures
        f == (Fault {
            interrupt: CpuInterrupt::SimdException,
            instruction_pointer: state.rip as usize,
            error_code,
        }),
{
    Fault {
        interrupt: CpuInterrupt::SimdException,
        instruction_pointer: state.get_ip(),
        error_code,
    }
}

/// Fatal report for a virtualization exception.
pub fn virtualization_exception(
    error_code: Option<ErrorCode>,
    _interrupt: CpuInterrupt,
    state: &CpuState,
) -> (f: Fault)
    ensures
        f == (Fault {
            interrupt: CpuInterrupt::VirtualizationException,
            instruction_pointer: state.rip as usize,
            error_code,
        }),
{
    Fault {
        interrupt: CpuInterrupt::VirtualizationException,
        instruction_pointer: state.get_ip(),
        error_code,
    }
}

/// Fatal report for a control-protection exception.
pub fn control_protection_exception(
    error_code: Option<ErrorCode>,
    _interrupt: CpuInterrupt,
    state: &CpuState,
) -> (f: Fault)
    ensures
        f == (Fault {
            interrupt: CpuInterrupt::ControlProtectionException,
            instruction_pointer: state.rip as usize,
            error_code,
        }),
{
    Fault {
        interrupt: CpuInterrupt::ControlProtectionException,
        instruction_pointer: state.get_ip(),
        error_code,
    }
}

/// Fatal report for a hypervisor injection exception.
pub fn hypervisor_injection_exception(
    error_code: Option<ErrorCode>,
    _interrupt: CpuInterrupt,
    state: &CpuState,
) -> (f: Fault)
    ensures
        f == (Fault {
            interrupt: CpuInterrupt::HypervisorInjectionException,
            instruction_pointer: state.rip as usize,
            error_code,
        }),
{
    Fault {
        interrupt: CpuInterrupt::HypervisorInjectionException,
        instruction_pointer: state.get_ip(),
        error_code,
    }
}

/// Fatal report for a VMM communication exception.
pub fn vmm_communication_exception(
    error_code: Option<ErrorCode>,
    _interrupt: CpuInterrupt,
    state: &CpuState,
) -> (f: Fault)
    ensures
        f == (Fault {
            interrupt: CpuInterrupt::VmmCommunicationException,
            instruction_pointer: state.rip as usize,
            error_code,
        }),
{
    Fault {
        interrupt: CpuInterrupt::VmmCommunicationException,
        instruction_pointer: state.get_ip(),
        error_code,
    }
}

/// Fatal report for a security exception.
pub fn security_exception(
    error_code: Option<ErrorCode>,
    _interrupt: CpuInterrupt,
    state: &CpuState,
) -> (f: Fault)
    ensures
        f == (Fault {
            interrupt: CpuInterrupt::SecurityException,
            instruction_pointer: state.rip as usize,
            error_code,
        }),
{
    Fault {
        interrupt: CpuInterrupt::SecurityException,
        instruction_pointer: state.get_ip(),
        error_code,
    }
}

/// Routes a trap to its per-vector reference handler and hands back the
/// fatal report: the reference policy treats every exception as
/// unrecoverable.
pub fn handle_exception(
    error_code: Option<ErrorCode>,
    interrupt: CpuInterrupt,
    state: &CpuState,
) -> (f: Fault)
    ensures
        f == (Fault { interrupt, instruction_pointer: state.rip as usize, error_code }),
{
    match interrupt {
        CpuInterrupt::DivideByZero => divide_by_zero(error_code, interrupt, state),
        CpuInterrupt::Debug => debug(error_code, interrupt, state),
        CpuInterrupt::NonMaskableInterrupt => nmi(error_code, interrupt, state),
        CpuInterrupt::Breakpoint => breakpoint(error_code, interrupt, state),
        CpuInterrupt::Overflow => overflow(error_code, interrupt, state),
        CpuInterrupt::BoundRangeExceeded => bound_range_exceeded(error_code, interrupt, state),
        CpuInterrupt::InvalidOpcode => invalid_opcode(error_code, interrupt, state),
        CpuInterrupt::DeviceUnavailable => device_unavailable(error_code, interrupt, state),
        CpuInterrupt::InvalidTss => invalid_tss(error_code, interrupt, state),
        CpuInterrupt::SegmentNotPresent => segment_not_present(error_code, interrupt, state),
        CpuInterrupt::StackSegmentFault => stack_segment_fault(error_code, interrupt, state),
        CpuInterrupt::GeneralProtectionFault => general_protection_fault(
            error_code,
            interrupt,
            state,
        ),
        CpuInterrupt::PageFault => page_fault(error_code, interrupt, state),
        CpuInterrupt::FloatingPointException => fpu_exception(error_code, interrupt, state),
        CpuInterrupt::AlignmentCheck => alignment_check(error_code, interrupt, state),
        CpuInterrupt::MachineCheck => machine_check(error_code, interrupt, state),
        CpuInterrupt::SimdException => simd_exception(error_code, interrupt, state),
        CpuInterrupt::VirtualizationException => virtualization_exception(
            error_code,
            interrupt,
            state,
        ),
        CpuInterrupt::ControlProtectionException => control_protection_exception(
            error_code,
            interrupt,
            state,
        ),
        CpuInterrupt::HypervisorInjectionException => hypervisor_injection_exception(
            error_code,
            interrupt,
            state,
        ),
        CpuInterrupt::VmmCommunicationException => vmm_communication_exception(
            error_code,
            interrupt,
            state,
        ),
        CpuInterrupt::SecurityException => security_exception(error_code, interrupt, state),
        CpuInterrupt::Syscall => Fault {
            interrupt: CpuInterrupt::Syscall,
            instruction_pointer: state.get_ip(),
            error_code,
        },
    }
}

/// Whether a vector belongs to the exceptions the reference policy
/// registers a handler for (every named exception; system calls are not an
/// exception and stay unregistered here).
pub open spec fn is_exception_vector(num: u64) -> bool {
    interrupt_from_num_spec(num) is Some && num != 128
}

/// Registers `handler` for every architectural exception, as the reference
/// kernel does at start-up; system calls are left unregistered.
pub fn set_handlers<H: Copy>(idt: &mut InterruptTable<H>, handler: H)
    requires
        old(idt).wf(),
    ensures
        final(idt).wf(),
        forall|i: int|
            0 <= i < 256 ==> final(idt).handler_view()[i] == (if is_exception_vector(i as u64) {
                Some(handler)
            } else {
                old(idt).handler_view()[i]
            }),
        final(idt).descriptor_view() == old(idt).descriptor_view(),
        final(idt).descriptor_record() == old(idt).descriptor_record(),
{
    let _ = idt.set_interrupt_handler(CpuInterrupt::DivideByZero, handler);
    let _ = idt.set_interrupt_handler(CpuInterrupt::Debug, handler);
    let _ = idt.set_interrupt_handler(CpuInterrupt::NonMaskableInterrupt, handler);
    let _ = idt.set_interrupt_handler(CpuInterrupt::Breakpoint, handler);
    let _ = idt.set_interrupt_handler(CpuInterrupt::Overflow, handler);
    let _ = idt.set_interrupt_handler(CpuInterrupt::BoundRangeExceeded, handler);
    let _ = idt.set_interrupt_handler(CpuInterrupt::InvalidOpcode, handler);
    let _ = idt.set_interrupt_handler(CpuInterrupt::DeviceUnavailable, handler);
    let _ = idt.set_interrupt_handler(CpuInterrupt::InvalidTss, handler);
    let _ = idt.set_interrupt_handler(CpuInterrupt::SegmentNotPresent, handler);
    let _ = idt.set_interrupt_handler(CpuInterrupt::StackSegmentFault, handler);
    let _ = idt.set_interrupt_handler(CpuInterrupt::GeneralProtectionFault, handler);
    let _ = idt.set_interrupt_handler(CpuInterrupt::PageFault, handler);
    let _ = idt.set_interrupt_handler(CpuInterrupt::FloatingPointException, handler);
    let _ = idt.set_interrupt_handler(CpuInterrupt::AlignmentCheck, handler);
    let _ = idt.set_interrupt_handler(CpuInterrupt::MachineCheck, handler);
    let _ = idt.set_interrupt_handler(CpuInterrupt::SimdException, handler);
    let _ = idt.set_interrupt_handler(CpuInterrupt::VirtualizationException, handler);
    let _ = idt.set_interrupt_handler(CpuInterrupt::ControlProtectionException, handler);
    let _ = idt.set_interrupt_handler(CpuInterrupt::HypervisorInjectionException, handler);
    let _ = idt.set_interrupt_handler(CpuInterrupt::VmmCommunicationException, handler);
    let _ = idt.set_interrupt_handler(CpuInterrupt::SecurityException, handler);
    proof {
        assert forall|i: int|
            0 <= i < 256 implies idt.handler_view()[i] == (if is_exception_vector(i as u64) {
            Some(handler)
        } else {
            old(idt).handler_view()[i]
        }) by {}
    }
}

} // verus!
