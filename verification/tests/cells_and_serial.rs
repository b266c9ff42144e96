use lambdaos::cpu::{
    enable_nxe_bit, enable_write_protect_bit, pop_interrupt_disable, push_interrupt_disable, Cpu,
    CR0_WRITE_PROTECT_BIT, EFER_NXE_BIT,
};
use lambdaos::once::OnceCell;
use lambdaos::serial::{write_char, SerialPort};

#[test]
fn once_cell_keeps_its_first_value() {
    let mut cell: OnceCell<u64> = OnceCell::new();
    assert!(!cell.is_completed());
    assert!(cell.get().is_none());
    cell.call_once(7);
    assert!(cell.is_completed());
    assert_eq!(cell.get(), Some(&7));
    // a second initialization attempt never replaces the stored value
    cell.call_once(9);
    assert_eq!(cell.get(), Some(&7));
    cell.call_once(7);
    assert_eq!(cell.get(), Some(&7));
}

#[test]
fn feature_bits_are_set_and_nothing_else_changes() {
    let mut cpu = Cpu::at_boot();
    cpu.efer = 0x500;
    cpu.cr0 = 0x1;
    enable_nxe_bit(&mut cpu);
    assert_eq!(cpu.efer, 0x500 | EFER_NXE_BIT);
    assert_eq!(cpu.cr0, 0x1);
    enable_write_protect_bit(&mut cpu);
    assert_eq!(cpu.cr0, 0x1 | CR0_WRITE_PROTECT_BIT);
    assert_eq!(cpu.efer, 0x500 | EFER_NXE_BIT);
    assert!(!cpu.interrupts_enabled);
}

#[test]
fn interrupt_guard_restores_what_it_found() {
    let mut cpu = Cpu::at_boot();
    cpu.interrupts_enabled = true;
    let g = push_interrupt_disable(&mut cpu);
    assert!(!cpu.interrupts_enabled);
    pop_interrupt_disable(&mut cpu, g);
    assert!(cpu.interrupts_enabled);
    // nested sections restore state pairwise
    let g1 = push_interrupt_disable(&mut cpu);
    let g2 = push_interrupt_disable(&mut cpu);
    assert!(!cpu.interrupts_enabled);
    pop_interrupt_disable(&mut cpu, g2);
    assert!(!cpu.interrupts_enabled);
    pop_interrupt_disable(&mut cpu, g1);
    assert!(cpu.interrupts_enabled);
}

#[test]
fn serial_write_transmits_characters_in_order() {
    let mut port = SerialPort::new();
    assert!(port.contents().is_empty());
    write_char(&mut port, '[');
    lambdaos::serial::write(&mut port, " OK ] init");
    let sent: String = port.contents().iter().collect();
    assert_eq!(sent, "[ OK ] init");
    lambdaos::serial::write(&mut port, "");
    let sent2: String = port.contents().iter().collect();
    assert_eq!(sent2, "[ OK ] init");
}
