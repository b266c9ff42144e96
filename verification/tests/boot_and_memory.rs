use lambdaos::boot::{init, BootError};
use lambdaos::cpu::Cpu;
use lambdaos::gdt::{Gdt, Tss};
use lambdaos::interrupts::{self, Idt, TablesError};
use lambdaos::once::OnceCell;
use lambdaos::cpu::{CR0_WRITE_PROTECT_BIT, EFER_NXE_BIT};
use lambdaos::gdt::DOUBLE_FAULT_IST_INDEX;
use lambdaos::interrupts::{Handler, DOUBLE_FAULT_VECTOR};
use lambdaos::memory::{MemoryArea, MemoryController, MemoryError, STACK_AREA_START_PAGE};
use lambdaos::PAGE_SIZE;

fn usable_region() -> Vec<MemoryArea> {
    vec![MemoryArea { base: 0x100000, len: 16 * 1024 * 1024, usable: true }]
}

#[test]
fn controller_rejects_memory_map_with_nothing_usable() {
    let empty: Vec<MemoryArea> = Vec::new();
    assert!(matches!(
        MemoryController::init(&empty),
        Err(MemoryError::NoUsableMemory)
    ));
    let unusable = vec![
        MemoryArea { base: 0, len: 1 << 30, usable: false },
        MemoryArea { base: 1 << 30, len: 100, usable: true },
    ];
    // the usable region is smaller than one frame
    assert!(matches!(
        MemoryController::init(&unusable),
        Err(MemoryError::NoUsableMemory)
    ));
}

#[test]
fn alloc_stack_scenario_over_a_usable_region() {
    let areas = usable_region();
    let mut mc = MemoryController::init(&areas).unwrap();
    let s = mc.alloc_stack(1).unwrap();
    assert_eq!(s.top - s.bottom, PAGE_SIZE);
    // the stack sits in the stack area, one guard page above its start
    assert_eq!(s.bottom, (STACK_AREA_START_PAGE + 1) * PAGE_SIZE);
    assert_eq!(s.top, (STACK_AREA_START_PAGE + 2) * PAGE_SIZE);
    // a second stack is disjoint, with its own guard page between them
    let s2 = mc.alloc_stack(2).unwrap();
    assert!(s2.bottom >= s.top + PAGE_SIZE);
    assert_eq!(s2.top - s2.bottom, 2 * PAGE_SIZE);
}

#[test]
fn alloc_stack_rejects_zero_pages() {
    let areas = usable_region();
    let mut mc = MemoryController::init(&areas).unwrap();
    assert!(matches!(mc.alloc_stack(0), Err(MemoryError::OutOfMemory)));
}

#[test]
fn alloc_stack_reports_frame_exhaustion() {
    // two usable frames in total
    let areas = vec![MemoryArea { base: 0x100000, len: 2 * 4096, usable: true }];
    let mut mc = MemoryController::init(&areas).unwrap();
    assert!(matches!(mc.alloc_stack(3), Err(MemoryError::OutOfMemory)));
    // the failed attempt consumed nothing
    let s = mc.alloc_stack(2).unwrap();
    assert_eq!(s.top - s.bottom, 2 * PAGE_SIZE);
    assert!(matches!(mc.alloc_stack(1), Err(MemoryError::OutOfMemory)));
}

#[test]
fn boot_scenario_brings_the_kernel_up() {
    let areas = usable_region();
    let k = init(&areas, 0x7000).unwrap();
    assert!(k.cpu.interrupts_enabled);
    assert_eq!(k.cpu.efer & EFER_NXE_BIT, EFER_NXE_BIT);
    assert_eq!(k.cpu.cr0 & CR0_WRITE_PROTECT_BIT, CR0_WRITE_PROTECT_BIT);
    assert_eq!(k.cpu.cs, 8);
    assert_eq!(k.cpu.tr, 16);
    let idt = k.idt.get().unwrap();
    let df = idt.get_entry(DOUBLE_FAULT_VECTOR).unwrap();
    assert_eq!(df.handler, Handler::DoubleFault);
    assert_eq!(df.ist, Some(DOUBLE_FAULT_IST_INDEX as u8));
    // the double-fault stack slot holds the top of the allocated stack
    let tss = k.tss.get().unwrap();
    let ist_top = tss.get_ist(DOUBLE_FAULT_IST_INDEX);
    assert_eq!(ist_top, ((STACK_AREA_START_PAGE + 2) * PAGE_SIZE) as u64);
    // the heap is live over its fixed region
    let mut k = k;
    let p = k.heap.allocate(&mut k.cpu, 4096, 4096).unwrap();
    assert_eq!(p, 0x40000000);
    assert!(k.cpu.interrupts_enabled);
}

#[test]
fn boot_fails_fatally_without_usable_memory() {
    let areas = vec![MemoryArea { base: 0, len: 0, usable: true }];
    assert!(matches!(init(&areas, 0x7000), Err(BootError::NoUsableMemory)));
}

#[test]
fn table_init_reports_stack_exhaustion() {
    // a map with two usable frames: the first stack takes both
    let areas = vec![MemoryArea { base: 0x100000, len: 2 * 4096, usable: true }];
    let mut mc = MemoryController::init(&areas).unwrap();
    mc.alloc_stack(2).unwrap();
    let mut cpu = Cpu::at_boot();
    let mut tss_cell: OnceCell<Tss> = OnceCell::new();
    let mut gdt_cell: OnceCell<Gdt> = OnceCell::new();
    let mut idt_cell: OnceCell<Idt> = OnceCell::new();
    let r = interrupts::init(
        &mut mc,
        &mut cpu,
        0x7000,
        &mut tss_cell,
        &mut gdt_cell,
        &mut idt_cell,
    );
    assert_eq!(r, Err(TablesError::StackExhausted));
    assert!(!tss_cell.is_completed());
    assert!(!gdt_cell.is_completed());
    assert!(!idt_cell.is_completed());
}
