use vstd::prelude::*;
use crate::PAGE_SIZE;
use crate::cpu::{Cpu, enable_nxe_bit, enable_write_protect_bit};
use crate::gdt::{Gdt, Tss};
use crate::heap::{HeapAllocator, HEAP_START, HEAP_SIZE};
use crate::interrupts::{self, Idt, enable_interrupts, tables_installed};
use crate::memory::{MemoryController, MemoryArea, usable_frames};
use crate::once::OnceCell;

verus! {

/// A failure before interrupts are enabled: fatal, since no recovery
/// infrastructure exists yet.
#[derive(Clone, Copy, PartialEq, Eq, Structural, Debug)]
pub enum BootError {
    /// The boot memory map offers not a single usable frame.
    NoUsableMemory,
}

/// Everything the boot sequence hands over to steady-state operation.
pub struct Kernel {
    /// The per-core control state after bring-up.
    pub cpu: Cpu,
    /// The memory controller over the live mapping.
    pub mem: MemoryController,
    /// The one-time cell holding the task-state segment.
    pub tss: OnceCell<Tss>,
    /// The one-time cell holding the live descriptor table.
    pub gdt: OnceCell<Gdt>,
    /// The one-time cell holding the live dispatch table.
    pub idt: OnceCell<Idt>,
    /// The kernel heap.
    pub heap: HeapAllocator,
}

/// The one-time ordered boot sequence: set the no-execute and
/// write-protect feature bits, bring up the memory controller from the
/// boot memory map, install the descriptor and dispatch tables — the
/// double-fault entry resting on a freshly allocated dedicated stack
/// with its guard page — initialize the heap, and only then enable
/// interrupts. Fails exactly when the memory map is unusable; every
/// step after that is shown to succeed.
pub fn init(areas: &Vec<MemoryArea>, tss_base: u64) -> (r: Result<Kernel, BootError>)
    ensures
        match r {
            Ok(k) => {
                &&& usable_frames(areas@) >= 1
                &&& k.cpu.interrupts_enabled
                &&& k.cpu.nxe_enabled()
                &&& k.cpu.write_protect_enabled()
                &&& k.mem.wf()
                &&& k.mem.stacks().len() == 1
                &&& (match (k.tss.stored(), k.gdt.stored(), k.idt.stored()) {
                    (Some(t), Some(g), Some(i)) => tables_installed(
                        k.mem,
                        k.cpu,
                        t,
                        g,
                        i,
                        tss_base,
                    ),
                    _ => false,
                })
                &&& (forall|b: int|
                    k.mem.stacks().last().bottom <= b < k.mem.stacks().last().top
                        ==> k.mem.byte_mapped_rw(b))
                &&& (forall|b: int|
                    k.mem.stacks().last().bottom - PAGE_SIZE <= b < k.mem.stacks().last().bottom
                        ==> !k.mem.byte_mapped(b))
                &&& k.heap.wf()
                &&& k.heap.initialized()
                &&& k.heap.base() == HEAP_START
                &&& k.heap.size() == HEAP_SIZE
                &&& k.heap.live_set() == Set::<(int, int)>::empty()
            },
            Err(e) => {
                &&& e == BootError::NoUsableMemory
                &&& usable_frames(areas@) == 0
            },
        },
{
    let mut cpu = Cpu::at_boot();
    enable_nxe_bit(&mut cpu);
    enable_write_protect_bit(&mut cpu);
    let mut mem = match MemoryController::init(areas) {
        Ok(m) => m,
        Err(_) => {
            return Err(BootError::NoUsableMemory);
        },
    };
    let mut tss_cell: OnceCell<Tss> = OnceCell::new();
    let mut gdt_cell: OnceCell<Gdt> = OnceCell::new();
    let mut idt_cell: OnceCell<Idt> = OnceCell::new();
    match interrupts::init(&mut mem, &mut cpu, tss_base, &mut tss_cell, &mut gdt_cell,
        &mut idt_cell) {
        Ok(_) => {},
        Err(_) => {
            proof {
                assert(false);
            }
            return Err(BootError::NoUsableMemory);
        },
    }
    let mut heap = HeapAllocator::new();
    heap.init(HEAP_START, HEAP_SIZE);
    match idt_cell.get() {
        Some(idt) => {
            enable_interrupts(&mut cpu, idt);
        },
        None => {
            proof {
                assert(false);
            }
        },
    }
    proof {
        crate::memory::lemma_stack_guarded(mem, mem.stacks().len() - 1);
    }
    Ok(Kernel { cpu, mem, tss: tss_cell, gdt: gdt_cell, idt: idt_cell, heap })
}

} // verus!
