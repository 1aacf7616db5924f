//! Vector naming, error-code decoding, descriptor packing and dispatch.

use kernel_core::exceptions::Fault;
use kernel_core::exceptions::exception_description;
use kernel_core::exceptions::handle_exception;
use kernel_core::exceptions::page_fault;
use kernel_core::exceptions::set_handlers;
use kernel_core::interrupts::CpuInterrupt;
use kernel_core::interrupts::CpuState;
use kernel_core::interrupts::DispatchDecision;
use kernel_core::interrupts::ErrorCode;
use kernel_core::interrupts::InterruptDescriptor;
use kernel_core::interrupts::InterruptParam;
use kernel_core::interrupts::InterruptTable;
use kernel_core::interrupts::SegmentError;
use kernel_core::interrupts::dispatch_decision;
use kernel_core::interrupts::interrupt_from_num;
use kernel_core::interrupts::interrupt_num;
use kernel_core::phys::PhysicalAllocator;

fn param(vector: u64, error_code: u64) -> InterruptParam {
    InterruptParam {
        r15: 15,
        r14: 14,
        r13: 13,
        r12: 12,
        r11: 11,
        r10: 10,
        r9: 9,
        r8: 8,
        rbp: 7,
        rdi: 6,
        rsi: 5,
        rdx: 4,
        rcx: 3,
        rbx: 2,
        rax: 1,
        interrupt_number: vector,
        error_code,
        rip: 0x1000,
        cs: 0x28,
        rflags: 0x202,
        rsp: 0x2000,
        ss: 0x30,
    }
}

#[test]
fn vector_numbers_round_trip() {
    let all = [
        CpuInterrupt::DivideByZero,
        CpuInterrupt::Debug,
        CpuInterrupt::NonMaskableInterrupt,
        CpuInterrupt::Breakpoint,
        CpuInterrupt::Overflow,
        CpuInterrupt::BoundRangeExceeded,
        CpuInterrupt::InvalidOpcode,
        CpuInterrupt::DeviceUnavailable,
        CpuInterrupt::InvalidTss,
        CpuInterrupt::SegmentNotPresent,
        CpuInterrupt::StackSegmentFault,
        CpuInterrupt::GeneralProtectionFault,
        CpuInterrupt::PageFault,
        CpuInterrupt::FloatingPointException,
        CpuInterrupt::AlignmentCheck,
        CpuInterrupt::MachineCheck,
        CpuInterrupt::SimdException,
        CpuInterrupt::VirtualizationException,
        CpuInterrupt::ControlProtectionException,
        CpuInterrupt::HypervisorInjectionException,
        CpuInterrupt::VmmCommunicationException,
        CpuInterrupt::SecurityException,
        CpuInterrupt::Syscall,
    ];
    for interrupt in all {
        let num = interrupt_num(interrupt).unwrap();
        assert_eq!(interrupt_from_num(num), Some(interrupt));
    }
}

#[test]
fn known_vector_numbers() {
    assert_eq!(interrupt_num(CpuInterrupt::DivideByZero), Some(0));
    assert_eq!(interrupt_num(CpuInterrupt::PageFault), Some(14));
    assert_eq!(interrupt_num(CpuInterrupt::Syscall), Some(128));
    assert_eq!(interrupt_from_num(14), Some(CpuInterrupt::PageFault));
}

#[test]
fn unknown_vectors_are_rejected() {
    assert_eq!(interrupt_from_num(8), None);
    assert_eq!(interrupt_from_num(9), None);
    assert_eq!(interrupt_from_num(15), None);
    assert_eq!(interrupt_from_num(255), None);
    assert_eq!(interrupt_from_num(129), None);
}

#[test]
fn page_fault_code_decodes_bit_for_bit() {
    // present bit set, everything else clear
    match ErrorCode::from(0x1, 14, 0xABC000) {
        ErrorCode::PageFault {
            present,
            write,
            user,
            reserved_write,
            instruction_fetch,
            protection_key,
            shadow_stack,
            software_guard_extensions,
            address,
        } => {
            assert!(present);
            assert!(!write);
            assert!(!user);
            assert!(!reserved_write);
            assert!(!instruction_fetch);
            assert!(!protection_key);
            assert!(!shadow_stack);
            assert!(!software_guard_extensions);
            assert_eq!(address, 0xABC000);
        },
        other => panic!("not a page fault: {:?}", other),
    }
    // write and user set, present clear
    match ErrorCode::from(0x6, 14, 0) {
        ErrorCode::PageFault { present, write, user, software_guard_extensions, .. } => {
            assert!(!present);
            assert!(write);
            assert!(user);
            assert!(!software_guard_extensions);
        },
        other => panic!("not a page fault: {:?}", other),
    }
    // the SGX flag sits at bit 14
    match ErrorCode::from(0x4000, 14, 0) {
        ErrorCode::PageFault { present, software_guard_extensions, .. } => {
            assert!(!present);
            assert!(software_guard_extensions);
        },
        other => panic!("not a page fault: {:?}", other),
    }
}

#[test]
fn selector_error_codes_decode_per_vector() {
    assert_eq!(
        ErrorCode::from(0b1101, 10, 0),
        ErrorCode::InvalidTss(SegmentError { external: true, table: 2, index: 1 })
    );
    assert_eq!(
        ErrorCode::from(0x2B, 11, 0),
        ErrorCode::SegmentNotPresent(SegmentError { external: true, table: 1, index: 5 })
    );
    assert_eq!(
        ErrorCode::from(0, 12, 0),
        ErrorCode::StackSegmentFault(SegmentError { external: false, table: 0, index: 0 })
    );
    assert_eq!(
        ErrorCode::from(0x18, 13, 0),
        ErrorCode::GeneralProtectionFault(SegmentError { external: false, table: 0, index: 3 })
    );
    assert_eq!(ErrorCode::from(0x42, 29, 0), ErrorCode::VmmCommunicationException(0x42));
    assert_eq!(ErrorCode::from(0x7F, 30, 0), ErrorCode::SecurityException(0x7F));
}

#[test]
fn segment_error_from_raw_bits() {
    let e = SegmentError::from(0b1101u64);
    assert!(e.external);
    assert_eq!(e.table, 2);
    assert_eq!(e.index, 1);
}

#[test]
fn descriptor_packs_the_gate_fields() {
    let d = InterruptDescriptor::new(0x1234_5678_9ABC_DEF0, 0x28, 0, 0xE, 0);
    assert_eq!(d.data(), 0x1234_5678_9ABC_8E00_0028_DEF0u128);
    assert_eq!(InterruptDescriptor::none().data(), 0);
}

#[test]
fn descriptor_present_bit_is_always_set() {
    let d = InterruptDescriptor::new(0, 0, 0, 0, 0);
    assert_eq!(d.data() & (1u128 << 47), 1u128 << 47);
}

fn stubs() -> Vec<usize> {
    let mut v = Vec::new();
    for i in 0..256 {
        v.push(0x10_0000 + i * 16);
    }
    v
}

#[test]
fn interrupt_table_registers_handlers() {
    let mut pa = PhysicalAllocator::new(8);
    let mut idt: InterruptTable<usize> = InterruptTable::new(&stubs(), &mut pa).unwrap();
    assert_eq!(idt.handler_for(14), None);
    assert!(idt.set_interrupt_handler(CpuInterrupt::PageFault, 7).is_ok());
    assert_eq!(idt.handler_for(14), Some(7));
    assert_eq!(idt.handler_for(13), None);
    assert_eq!(idt.handler_for(300), None);
    assert_eq!(idt.table_descriptor().size, 0xFFF);
}

#[test]
fn interrupt_table_new_takes_one_frame() {
    let mut pa = PhysicalAllocator::new(8);
    let before = pa.get_free();
    let idt: Option<InterruptTable<usize>> = InterruptTable::new(&stubs(), &mut pa);
    assert!(idt.is_some());
    assert_eq!(pa.get_free(), before - 4096);
}

#[test]
fn set_handlers_covers_every_exception() {
    let mut pa = PhysicalAllocator::new(8);
    let mut idt: InterruptTable<usize> = InterruptTable::new(&stubs(), &mut pa).unwrap();
    set_handlers(&mut idt, 9);
    for v in [0, 1, 2, 3, 4, 5, 6, 7, 10, 11, 12, 13, 14, 16, 17, 18, 19, 20, 21, 28, 29, 30] {
        assert_eq!(idt.handler_for(v), Some(9), "vector {} should be handled", v);
    }
    // system calls are not an exception and stay unregistered
    assert_eq!(idt.handler_for(128), None);
    assert_eq!(idt.handler_for(8), None);
}

#[test]
fn dispatch_without_handler_reports_the_vector() {
    let mut pa = PhysicalAllocator::new(8);
    let idt: InterruptTable<usize> = InterruptTable::new(&stubs(), &mut pa).unwrap();
    match dispatch_decision(&idt, &param(3, 0), 0) {
        DispatchDecision::NoHandler(v) => assert_eq!(v, 3),
        DispatchDecision::Invoke { .. } => panic!("no handler was registered"),
    }
}

#[test]
fn dispatch_with_handler_decodes_and_builds_state() {
    let mut pa = PhysicalAllocator::new(8);
    let mut idt: InterruptTable<usize> = InterruptTable::new(&stubs(), &mut pa).unwrap();
    idt.set_interrupt_handler(CpuInterrupt::PageFault, 42).unwrap();
    match dispatch_decision(&idt, &param(14, 0x6), 0xABC000) {
        DispatchDecision::Invoke { handler, error_code, interrupt, state } => {
            assert_eq!(handler, 42);
            assert_eq!(interrupt, CpuInterrupt::PageFault);
            match error_code {
                Some(ErrorCode::PageFault { present, write, user, address, .. }) => {
                    assert!(!present);
                    assert!(write);
                    assert!(user);
                    assert_eq!(address, 0xABC000);
                },
                other => panic!("wrong error code: {:?}", other),
            }
            assert_eq!(state.rip, 0x1000);
            assert_eq!(state.rax, 1);
            assert_eq!(state.r15, 15);
        },
        DispatchDecision::NoHandler(_) => panic!("handler was registered"),
    }
}

#[test]
fn dispatch_skips_error_code_for_plain_vectors() {
    let mut pa = PhysicalAllocator::new(8);
    let mut idt: InterruptTable<usize> = InterruptTable::new(&stubs(), &mut pa).unwrap();
    idt.set_interrupt_handler(CpuInterrupt::Breakpoint, 1).unwrap();
    match dispatch_decision(&idt, &param(3, 0xFFFF), 0) {
        DispatchDecision::Invoke { error_code, interrupt, .. } => {
            assert_eq!(interrupt, CpuInterrupt::Breakpoint);
            assert!(error_code.is_none());
        },
        DispatchDecision::NoHandler(_) => panic!("handler was registered"),
    }
}

#[test]
fn cpu_state_round_trips_through_the_frame() {
    let p = param(3, 0);
    let mut state = CpuState::from_param(&p);
    assert_eq!(state.get_ip(), 0x1000);
    state.set_ip(0x1002);
    assert_eq!(state.get_ip(), 0x1002);
    state.rax = 0xFF;
    let mut back = param(3, 0);
    state.store_param(&mut back);
    assert_eq!(back.rip, 0x1002);
    assert_eq!(back.rax, 0xFF);
    assert_eq!(back.interrupt_number, 3);
    assert_eq!(back.r15, 15);
}

#[test]
fn reference_handlers_build_fatal_reports() {
    let p = param(14, 0x2);
    let state = CpuState::from_param(&p);
    let code = Some(ErrorCode::from(0x2, 14, 0x5000));
    let f = page_fault(code, CpuInterrupt::PageFault, &state);
    assert_eq!(f.interrupt, CpuInterrupt::PageFault);
    assert_eq!(f.instruction_pointer, 0x1000);
    assert_eq!(f.error_code, code);
    let g = handle_exception(code, CpuInterrupt::PageFault, &state);
    assert_eq!(g, Fault { interrupt: CpuInterrupt::PageFault, instruction_pointer: 0x1000, error_code: code });
}

#[test]
fn exception_descriptions_name_the_mnemonic() {
    assert_eq!(exception_description(CpuInterrupt::DivideByZero), "Division by zero (#DE)");
    assert_eq!(exception_description(CpuInterrupt::PageFault), "Page fault (#PF)");
    assert_eq!(
        exception_description(CpuInterrupt::GeneralProtectionFault),
        "General protection fault (#GP)"
    );
}
