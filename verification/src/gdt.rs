use vstd::prelude::*;
use crate::cpu::Cpu;

verus! {

/// Interrupt-stack-table slot reserved for the double-fault handler.
pub const DOUBLE_FAULT_IST_INDEX: usize = 0;

/// Number of interrupt-stack-table slots the task-state segment holds.
pub const IST_ENTRIES: usize = 7;

/// Greatest number of descriptor slots the table can hold.
pub const GDT_ENTRY_COUNT: usize = 8;

/// Descriptor bit: this is a code or data segment, not a system segment.
pub const DESC_USER_SEGMENT: u64 = 0x0000100000000000;

/// Descriptor bit: the segment is present.
pub const DESC_PRESENT: u64 = 0x0000800000000000;

/// Descriptor bit: the segment is executable.
pub const DESC_EXECUTABLE: u64 = 0x0000080000000000;

/// Descriptor bit: the segment holds 64-bit code.
pub const DESC_LONG_MODE: u64 = 0x0020000000000000;

/// Type bits of an available 64-bit task-state-segment descriptor.
pub const DESC_TSS_AVAILABLE: u64 = 0x0000090000000000;

/// Byte size of the hardware task-state segment, less one: the limit
/// field of its descriptor.
pub const TSS_LIMIT: u64 = 0x67;

/// Task-state segment: the table of dedicated stack tops that exception
/// entries may switch to. Slot `DOUBLE_FAULT_IST_INDEX` is reserved for
/// the double-fault handler, the one vector that must have a known-good
/// stack even when the normal kernel stack is the cause of the fault.
pub struct Tss {
    ist: Vec<u64>,
}

impl Tss {
    /// The stack-top addresses by slot.
    pub closed spec fn ist(self) -> Seq<u64> {
        self.ist@
    }

    /// The table has exactly its architecture-defined number of slots.
    pub open spec fn wf(self) -> bool {
        self.ist().len() == IST_ENTRIES
    }

    /// A fresh segment: every slot empty.
    pub fn new() -> (t: Tss)
        ensures
            t.wf(),
            forall|i: int| 0 <= i < IST_ENTRIES ==> t.ist()[i] == 0,
    {
        let mut v: Vec<u64> = Vec::new();
        while v.len() < IST_ENTRIES
            invariant
                v@.len() <= IST_ENTRIES,
                forall|i: int| 0 <= i < v@.len() ==> v@[i] == 0,
            decreases IST_ENTRIES - v@.len(),
        {
            v.push(0);
        }
        Tss { ist: v }
    }

    /// Points one interrupt-stack-table slot at a stack top.
    pub fn set_ist(&mut self, index: usize, stack_top: u64)
        requires
            old(self).wf(),
            index < IST_ENTRIES,
        ensures
            final(self).wf(),
            final(self).ist() == old(self).ist().update(index as int, stack_top),
    {
        self.ist.set(index, stack_top);
    }

    /// Reads one interrupt-stack-table slot.
    pub fn get_ist(&self, index: usize) -> (r: u64)
        requires
            self.wf(),
            index < IST_ENTRIES,
        ensures
            r == self.ist()[index as int],
    {
        self.ist[index]
    }
}

/// A segment selector: the byte offset of a descriptor slot in the
/// table, with requested privilege zero.
#[derive(Clone, Copy, PartialEq, Eq, Structural, Debug)]
pub struct SegmentSelector(pub u16);

/// A descriptor to be placed in the table.
#[derive(Clone, Copy, PartialEq, Eq, Structural, Debug)]
pub enum Descriptor {
    /// A code or data segment: occupies one slot.
    UserSegment(u64),
    /// A system segment such as the TSS: occupies two slots, low half
    /// first.
    SystemSegment(u64, u64),
}

/// Low slot of the descriptor that makes the processor find a
/// task-state segment at `base`.
pub open spec fn spec_tss_low(base: u64) -> u64 {
    DESC_PRESENT | DESC_TSS_AVAILABLE | TSS_LIMIT | ((base & 0xffffff) << 16) | (((base >> 24)
        & 0xff) << 56)
}

/// High slot of the same descriptor: the upper half of the base address.
pub open spec fn spec_tss_high(base: u64) -> u64 {
    base >> 32
}

impl Descriptor {
    /// The descriptor of the 64-bit kernel code segment.
    pub fn kernel_code_segment() -> (d: Descriptor)
        ensures
            d == Descriptor::UserSegment(
                DESC_USER_SEGMENT | DESC_PRESENT | DESC_EXECUTABLE | DESC_LONG_MODE,
            ),
    {
        Descriptor::UserSegment(DESC_USER_SEGMENT | DESC_PRESENT | DESC_EXECUTABLE
            | DESC_LONG_MODE)
    }

    /// The two-slot descriptor referencing a task-state segment that
    /// lives at address `base`.
    pub fn tss_segment(base: u64) -> (d: Descriptor)
        ensures
            d == Descriptor::SystemSegment(spec_tss_low(base), spec_tss_high(base)),
    {
        let low = DESC_PRESENT | DESC_TSS_AVAILABLE | TSS_LIMIT | ((base & 0xffffff) << 16) | ((
        (base >> 24) & 0xff) << 56);
        let high = base >> 32;
        Descriptor::SystemSegment(low, high)
    }

    /// How many table slots the descriptor occupies.
    pub open spec fn slots(self) -> int {
        match self {
            Descriptor::UserSegment(_) => 1,
            Descriptor::SystemSegment(_, _) => 2,
        }
    }
}

/// Failure of an attempt to grow the descriptor table.
#[derive(Clone, Copy, PartialEq, Eq, Structural, Debug)]
pub enum GdtError {
    /// No slot is left for the descriptor.
    Full,
    /// The table is already live in the processor and must never change
    /// again.
    AlreadyLoaded,
}

/// The segment descriptor table. It is built once — a null slot, then
/// appended descriptors — loaded into the processor, and never mutated
/// after the load: the live copy is authoritative hardware state.
pub struct Gdt {
    table: Vec<u64>,
    is_loaded: bool,
}

impl Gdt {
    /// The descriptor slots, null slot included.
    pub closed spec fn entries(self) -> Seq<u64> {
        self.table@
    }

    /// Whether the table has been made live in the processor.
    pub closed spec fn loaded(self) -> bool {
        self.is_loaded
    }

    /// The table always starts with the null descriptor and fits its
    /// slot count.
    pub closed spec fn wf(self) -> bool {
        &&& 1 <= self.table@.len() <= GDT_ENTRY_COUNT
        &&& self.table@[0] == 0
    }

    /// The raw descriptor slots, as the processor's table-base register
    /// wants them laid out.
    pub fn raw_slots(&self) -> (r: &Vec<u64>)
        ensures
            r@ == self.entries(),
    {
        &self.table
    }

    /// An empty table: only the null slot, not yet loaded.
    pub fn new() -> (g: Gdt)
        ensures
            g.wf(),
            !g.loaded(),
            g.entries() =~= seq![0u64],
    {
        let mut t: Vec<u64> = Vec::new();
        t.push(0);
        Gdt { table: t, is_loaded: false }
    }

    /// Appends a descriptor and returns its selector. The selector is
    /// only meaningful once the owning table has been loaded. Appending
    /// is refused once the table is live, and when no slot is left.
    pub fn add_entry(&mut self, entry: Descriptor) -> (r: Result<SegmentSelector, GdtError>)
        requires
            old(self).wf(),
        ensures
            final(self).wf(),
            final(self).loaded() == old(self).loaded(),
            match r {
                Ok(sel) => {
                    &&& !old(self).loaded()
                    &&& old(self).entries().len() + entry.slots() <= GDT_ENTRY_COUNT
                    &&& sel.0 == old(self).entries().len() * 8
                    &&& final(self).entries() == (match entry {
                        Descriptor::UserSegment(v) => old(self).entries().push(v),
                        Descriptor::SystemSegment(lo, hi) => old(self).entries().push(lo).push(
                            hi,
                        ),
                    })
                },
                Err(GdtError::AlreadyLoaded) => {
                    &&& old(self).loaded()
                    &&& *final(self) == *old(self)
                },
                Err(GdtError::Full) => {
                    &&& !old(self).loaded()
                    &&& old(self).entries().len() + entry.slots() > GDT_ENTRY_COUNT
                    &&& *final(self) == *old(self)
                },
            },
    {
        if self.is_loaded {
            return Err(GdtError::AlreadyLoaded);
        }
        let index = self.table.len();
        match entry {
            Descriptor::UserSegment(v) => {
                if GDT_ENTRY_COUNT - index < 1 {
                    return Err(GdtError::Full);
                }
                self.table.push(v);
            },
            Descriptor::SystemSegment(lo, hi) => {
                if GDT_ENTRY_COUNT - index < 2 {
                    return Err(GdtError::Full);
                }
                self.table.push(lo);
                self.table.push(hi);
            },
        }
        Ok(SegmentSelector((index * 8) as u16))
    }

    /// Makes the table live in the processor's table-base register.
    /// After this, selectors into it may be loaded; the table itself
    /// must never change again.
    pub fn load(&mut self)
        requires
            old(self).wf(),
        ensures
            final(self).wf(),
            final(self).loaded(),
            final(self).entries() == old(self).entries(),
    {
        self.is_loaded = true;
    }
}

/// Reloads the code-segment register with a selector. The owning table
/// must already be live: the processor validates a selector against the
/// currently loaded table, so loading a selector before its table would
/// fault.
pub fn set_cs(cpu: &mut Cpu, gdt: &Gdt, selector: SegmentSelector)
    requires
        gdt.wf(),
        gdt.loaded(),
        selector.0 as int / 8 < gdt.entries().len(),
    ensures
        final(cpu).cs == selector.0,
        final(cpu).tr == old(cpu).tr,
        final(cpu).efer == old(cpu).efer,
        final(cpu).cr0 == old(cpu).cr0,
        final(cpu).interrupts_enabled == old(cpu).interrupts_enabled,
{
    cpu.cs = selector.0;
}

/// Loads the task register with the selector of the TSS descriptor. The
/// owning table must already be live, for the same reason as `set_cs`.
pub fn load_tss(cpu: &mut Cpu, gdt: &Gdt, selector: SegmentSelector)
    requires
        gdt.wf(),
        gdt.loaded(),
        selector.0 as int / 8 < gdt.entries().len(),
    ensures
        final(cpu).tr == selector.0,
        final(cpu).cs == old(cpu).cs,
        final(cpu).efer == old(cpu).efer,
        final(cpu).cr0 == old(cpu).cr0,
        final(cpu).interrupts_enabled == old(cpu).interrupts_enabled,
{
    cpu.tr = selector.0;
}

} // verus!
