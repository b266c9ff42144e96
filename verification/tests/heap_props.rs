use lambdaos::cpu::Cpu;
use lambdaos::heap::{AllocError, HeapAllocator, HEAP_SIZE, HEAP_START};

#[test]
fn heap_scenario_alloc_free_realloc_same_block() {
    let mut cpu = Cpu::at_boot();
    let mut heap = HeapAllocator::new();
    heap.init(0x40000000, 512000);
    let p = heap.allocate(&mut cpu, 4096, 4096).unwrap();
    assert!(0x40000000 <= p && p + 4096 <= 0x40000000 + 512000);
    assert_eq!(p, 0x40000000);
    heap.deallocate(&mut cpu, p, 4096);
    let q = heap.allocate(&mut cpu, 4096, 4096).unwrap();
    assert_eq!(q, p);
}

#[test]
fn heap_live_allocations_never_overlap() {
    let mut cpu = Cpu::at_boot();
    let mut heap = HeapAllocator::new();
    heap.init(HEAP_START, HEAP_SIZE);
    let sizes: [usize; 5] = [64, 128, 32, 4096, 1];
    let aligns: [usize; 5] = [8, 64, 1, 4096, 1];
    let mut live: Vec<(usize, usize)> = Vec::new();
    for i in 0..5 {
        let a = heap.allocate(&mut cpu, sizes[i], aligns[i]).unwrap();
        assert_eq!(a % aligns[i], 0);
        for &(b, s) in &live {
            assert!(a + sizes[i] <= b || b + s <= a, "ranges overlap");
        }
        live.push((a, sizes[i]));
    }
    // free one in the middle and allocate again: still no overlap
    let (freed_addr, freed_size) = live.remove(1);
    heap.deallocate(&mut cpu, freed_addr, freed_size);
    let a = heap.allocate(&mut cpu, 16, 16).unwrap();
    for &(b, s) in &live {
        assert!(a + 16 <= b || b + s <= a, "ranges overlap after reuse");
    }
}

#[test]
fn heap_freed_block_is_reused() {
    let mut cpu = Cpu::at_boot();
    let mut heap = HeapAllocator::new();
    heap.init(0x1000, 0x1000);
    let a = heap.allocate(&mut cpu, 0x1000, 1).unwrap();
    assert_eq!(a, 0x1000);
    assert_eq!(
        heap.allocate(&mut cpu, 1, 1),
        Err(AllocError::Exhausted)
    );
    heap.deallocate(&mut cpu, a, 0x1000);
    // a smaller request fits into the freed block
    let b = heap.allocate(&mut cpu, 0x800, 1).unwrap();
    assert_eq!(b, 0x1000);
}

#[test]
fn heap_coalesces_adjacent_free_blocks() {
    let mut cpu = Cpu::at_boot();
    let mut heap = HeapAllocator::new();
    heap.init(0x10000, 0x3000);
    let a = heap.allocate(&mut cpu, 0x1000, 1).unwrap();
    let b = heap.allocate(&mut cpu, 0x1000, 1).unwrap();
    let c = heap.allocate(&mut cpu, 0x1000, 1).unwrap();
    assert_eq!((a, b, c), (0x10000, 0x11000, 0x12000));
    // heap is exhausted now
    assert_eq!(heap.allocate(&mut cpu, 1, 1), Err(AllocError::Exhausted));
    // free the first two: they merge, so one request of their summed
    // size succeeds
    heap.deallocate(&mut cpu, a, 0x1000);
    heap.deallocate(&mut cpu, b, 0x1000);
    let d = heap.allocate(&mut cpu, 0x2000, 1).unwrap();
    assert_eq!(d, 0x10000);
}

#[test]
fn heap_exhaustion_is_an_error_not_an_abort() {
    let mut cpu = Cpu::at_boot();
    let mut heap = HeapAllocator::new();
    heap.init(0x1000, 4096);
    assert_eq!(
        heap.allocate(&mut cpu, 8192, 1),
        Err(AllocError::Exhausted)
    );
    // the failed attempt changed nothing: a fitting request still works
    assert_eq!(heap.allocate(&mut cpu, 4096, 1), Ok(0x1000));
}

#[test]
fn heap_extend_grows_the_region() {
    let mut cpu = Cpu::at_boot();
    let mut heap = HeapAllocator::new();
    heap.init(0x8000, 4096);
    let a = heap.allocate(&mut cpu, 4096, 1).unwrap();
    assert_eq!(a, 0x8000);
    assert_eq!(heap.allocate(&mut cpu, 1, 1), Err(AllocError::Exhausted));
    heap.extend(4096);
    let b = heap.allocate(&mut cpu, 4096, 1).unwrap();
    assert_eq!(b, 0x9000);
}

#[test]
fn critical_sections_restore_prior_interrupt_state() {
    // enter with interrupts already disabled: they must stay disabled
    let mut cpu = Cpu::at_boot();
    assert!(!cpu.interrupts_enabled);
    let mut heap = HeapAllocator::new();
    heap.init(0x1000, 0x2000);
    let a = heap.allocate(&mut cpu, 64, 8).unwrap();
    assert!(!cpu.interrupts_enabled);
    heap.deallocate(&mut cpu, a, 64);
    assert!(!cpu.interrupts_enabled);
    // and with interrupts enabled they come back enabled
    cpu.interrupts_enabled = true;
    let b = heap.allocate(&mut cpu, 64, 8).unwrap();
    assert!(cpu.interrupts_enabled);
    heap.deallocate(&mut cpu, b, 64);
    assert!(cpu.interrupts_enabled);
    // an allocation that fails restores the state too
    let r = heap.allocate(&mut cpu, 0x4000, 1);
    assert!(r.is_err());
    assert!(cpu.interrupts_enabled);
}
