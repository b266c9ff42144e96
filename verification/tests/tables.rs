use lambdaos::gdt::{
    Descriptor, Gdt, GdtError, SegmentSelector, Tss, DOUBLE_FAULT_IST_INDEX, IST_ENTRIES,
};
use lambdaos::interrupts::{
    build_idt, dispatch, DispatchOutcome, Handler, Idt, IdtError, APIC_NMI_END_VECTOR,
    APIC_NMI_FIRST_VECTOR, BREAKPOINT_VECTOR, DOUBLE_FAULT_VECTOR, IDT_ENTRIES, PAGE_FAULT_VECTOR,
    SPURIOUS_VECTOR, TIMER_VECTOR, TIMER_VECTOR_ALT,
};

#[test]
fn idt_every_vector_is_bound() {
    let idt = build_idt();
    for v in 0..IDT_ENTRIES {
        assert!(idt.get_entry(v).is_some(), "vector {} left empty", v);
    }
}

#[test]
fn idt_specific_and_defensive_bindings() {
    let idt = build_idt();
    let bp = idt.get_entry(BREAKPOINT_VECTOR).unwrap();
    assert_eq!(bp.handler, Handler::Breakpoint);
    assert_eq!(bp.ist, None);
    let df = idt.get_entry(DOUBLE_FAULT_VECTOR).unwrap();
    assert_eq!(df.handler, Handler::DoubleFault);
    assert_eq!(df.ist, Some(DOUBLE_FAULT_IST_INDEX as u8));
    let pf = idt.get_entry(PAGE_FAULT_VECTOR).unwrap();
    assert_eq!(pf.handler, Handler::PageFault);
    assert_eq!(idt.get_entry(TIMER_VECTOR).unwrap().handler, Handler::Timer);
    assert_eq!(idt.get_entry(TIMER_VECTOR_ALT).unwrap().handler, Handler::Timer);
    for v in APIC_NMI_FIRST_VECTOR..APIC_NMI_END_VECTOR {
        assert_eq!(idt.get_entry(v).unwrap().handler, Handler::ApicNmi);
    }
    assert_eq!(idt.get_entry(SPURIOUS_VECTOR).unwrap().handler, Handler::Spurious);
    // a vector nothing claims still has its defensive handler
    assert_eq!(idt.get_entry(0x50).unwrap().handler, Handler::Unexpected);
    assert_eq!(idt.get_entry(9).unwrap().handler, Handler::Unexpected);
}

#[test]
fn idt_is_immutable_once_loaded() {
    let mut idt = build_idt();
    assert!(idt.load().is_ok());
    assert_eq!(
        idt.set_handler(0x40, Handler::Timer),
        Err(IdtError::AlreadyLoaded)
    );
    assert_eq!(
        idt.set_handler_with_ist(0x41, Handler::Timer, 1),
        Err(IdtError::AlreadyLoaded)
    );
}

#[test]
fn idt_incomplete_table_cannot_be_loaded() {
    let mut idt = Idt::new();
    assert_eq!(idt.load(), Err(IdtError::IncompleteTable));
    let mut partial = Idt::new();
    assert!(partial.set_handler(BREAKPOINT_VECTOR, Handler::Breakpoint).is_ok());
    assert_eq!(partial.load(), Err(IdtError::IncompleteTable));
}

#[test]
fn breakpoint_returns_to_interrupted_context() {
    let mut idt = build_idt();
    idt.load().unwrap();
    let mut tss = Tss::new();
    tss.set_ist(DOUBLE_FAULT_IST_INDEX, 0x9000);
    let r = dispatch(&idt, &tss, BREAKPOINT_VECTOR, 0x5000, true);
    assert_eq!(r, DispatchOutcome::Returned(0x5000));
}

#[test]
fn double_fault_runs_on_its_dedicated_stack() {
    let mut idt = build_idt();
    idt.load().unwrap();
    let mut tss = Tss::new();
    tss.set_ist(DOUBLE_FAULT_IST_INDEX, 0x9000);
    // the normal stack is bad, yet the handler still runs to completion
    // on the IST-backed stack instead of triple-faulting
    let r = dispatch(&idt, &tss, DOUBLE_FAULT_VECTOR, 0x5000, false);
    assert_eq!(r, DispatchOutcome::Halted(0x9000));
    // a vector without a stack override resets the machine in the same
    // situation: the override is what saves the double fault
    let r2 = dispatch(&idt, &tss, 0, 0x5000, false);
    assert_eq!(r2, DispatchOutcome::TripleFault);
    // and an unrecoverable fault on a good stack halts there
    let r3 = dispatch(&idt, &tss, 13, 0x5000, true);
    assert_eq!(r3, DispatchOutcome::Halted(0x5000));
}

#[test]
fn tss_slots_start_empty_and_hold_what_is_set() {
    let mut tss = Tss::new();
    for i in 0..IST_ENTRIES {
        assert_eq!(tss.get_ist(i), 0);
    }
    tss.set_ist(0, 0xdeadbee0);
    tss.set_ist(6, 0x1234);
    assert_eq!(tss.get_ist(0), 0xdeadbee0);
    assert_eq!(tss.get_ist(6), 0x1234);
    assert_eq!(tss.get_ist(3), 0);
}

#[test]
fn gdt_selectors_follow_slot_order() {
    let mut gdt = Gdt::new();
    let code = gdt.add_entry(Descriptor::kernel_code_segment()).unwrap();
    assert_eq!(code, SegmentSelector(8));
    let tss_sel = gdt.add_entry(Descriptor::tss_segment(0)).unwrap();
    assert_eq!(tss_sel, SegmentSelector(16));
    let next = gdt.add_entry(Descriptor::kernel_code_segment()).unwrap();
    assert_eq!(next, SegmentSelector(32));
}

#[test]
fn gdt_rejects_growth_when_full_or_loaded() {
    let mut gdt = Gdt::new();
    for _ in 0..7 {
        gdt.add_entry(Descriptor::kernel_code_segment()).unwrap();
    }
    assert_eq!(
        gdt.add_entry(Descriptor::kernel_code_segment()),
        Err(GdtError::Full)
    );
    let mut live = Gdt::new();
    live.add_entry(Descriptor::kernel_code_segment()).unwrap();
    live.load();
    assert_eq!(
        live.add_entry(Descriptor::kernel_code_segment()),
        Err(GdtError::AlreadyLoaded)
    );
}

#[test]
fn descriptor_bit_patterns() {
    match Descriptor::kernel_code_segment() {
        Descriptor::UserSegment(v) => assert_eq!(v, 0x0020980000000000),
        _ => panic!("kernel code segment is a user segment"),
    }
    match Descriptor::tss_segment(0x12345678) {
        Descriptor::SystemSegment(lo, hi) => {
            assert_eq!(lo, 0x1200893456780067);
            assert_eq!(hi, 0);
        }
        _ => panic!("tss segment is a system segment"),
    }
    match Descriptor::tss_segment(0xffee_dd00_1122_3344) {
        Descriptor::SystemSegment(lo, hi) => {
            assert_eq!(lo, 0x0000_8900_0000_0067 | (0x223344 << 16) | (0x11u64 << 56));
            assert_eq!(hi, 0xffee_dd00);
        }
        _ => panic!("tss segment is a system segment"),
    }
}
