use vstd::prelude::*;
use crate::cpu::Cpu;
use crate::gdt::{
    Gdt, Tss, Descriptor, set_cs, load_tss, DOUBLE_FAULT_IST_INDEX, IST_ENTRIES, spec_tss_low,
    spec_tss_high, DESC_USER_SEGMENT, DESC_PRESENT, DESC_EXECUTABLE, DESC_LONG_MODE,
};
use crate::memory::MemoryController;
use crate::once::OnceCell;

verus! {

/// Number of vectors the dispatch table holds.
pub const IDT_ENTRIES: usize = 256;

/// Vector of the breakpoint exception.
pub const BREAKPOINT_VECTOR: usize = 3;

/// Vector of the double-fault exception.
pub const DOUBLE_FAULT_VECTOR: usize = 8;

/// Vector of the page-fault exception.
pub const PAGE_FAULT_VECTOR: usize = 14;

/// Vector the timer interrupt arrives on.
pub const TIMER_VECTOR: usize = 0x20;

/// Second vector bound to the timer handler.
pub const TIMER_VECTOR_ALT: usize = 0x30;

/// First vector of the platform's spurious-NMI delivery range.
pub const APIC_NMI_FIRST_VECTOR: usize = 0x90;

/// One past the last vector of the spurious-NMI range.
pub const APIC_NMI_END_VECTOR: usize = 0x97;

/// The architecturally defined spurious-interrupt vector.
pub const SPURIOUS_VECTOR: usize = 0xff;

/// The handler a vector is bound to. Each variant stands for one
/// concrete entry point.
#[derive(Clone, Copy, PartialEq, Eq, Structural, Debug)]
pub enum Handler {
    /// Divide-by-zero exception handler.
    DivideByZero,
    /// Debug exception handler.
    DebugTrap,
    /// Non-maskable-interrupt handler.
    NonMaskableInterrupt,
    /// Breakpoint handler: reports and returns.
    Breakpoint,
    /// Overflow exception handler.
    Overflow,
    /// Bound-range-exceeded exception handler.
    BoundRange,
    /// Invalid-opcode exception handler.
    InvalidOpcode,
    /// Device-not-available exception handler.
    DeviceNotAvailable,
    /// Double-fault handler: reports and halts, on its dedicated stack.
    DoubleFault,
    /// Invalid-TSS exception handler.
    InvalidTss,
    /// Segment-not-present exception handler.
    SegmentNotPresent,
    /// Stack-segment-fault handler.
    StackSegmentFault,
    /// General-protection-fault handler.
    GeneralProtection,
    /// Page-fault handler: by current policy every page fault is fatal.
    PageFault,
    /// Legacy floating-point exception handler.
    X87FloatingPoint,
    /// Alignment-check exception handler.
    AlignmentCheck,
    /// Machine-check handler: reports and halts.
    MachineCheck,
    /// SIMD floating-point exception handler.
    SimdFloatingPoint,
    /// Timer-tick device handler: acknowledges and returns.
    Timer,
    /// Defensive handler of the spurious-NMI vector range: halts.
    ApicNmi,
    /// Defensive handler of the spurious-interrupt vector: ignores and
    /// returns.
    Spurious,
    /// Defensive handler of every vector nothing else claims: halts,
    /// since an unhandled vector firing is fatal anyway.
    Unexpected,
}

/// What a handler does with control.
#[derive(Clone, Copy, PartialEq, Eq, Structural, Debug)]
pub enum HandlerOutcome {
    /// Control returns to the interrupted instruction stream.
    Returns,
    /// The handler reports and halts the core: no recovery is possible.
    Halts,
}

/// Which handlers give control back: the breakpoint trap, the timer
/// tick, and the benign spurious interrupt. Every other condition this
/// kernel reaches is unrecoverable — page faults included, by explicit
/// current policy.
pub open spec fn handler_outcome(h: Handler) -> HandlerOutcome {
    match h {
        Handler::Breakpoint => HandlerOutcome::Returns,
        Handler::Timer => HandlerOutcome::Returns,
        Handler::Spurious => HandlerOutcome::Returns,
        _ => HandlerOutcome::Halts,
    }
}

/// One dispatch-table entry: the bound handler, and optionally the
/// interrupt-stack-table slot the processor must switch to first.
#[derive(Clone, Copy, PartialEq, Eq, Debug)]
pub struct IdtEntry {
    /// The bound handler.
    pub handler: Handler,
    /// Stack override: the IST slot to run on, if any.
    pub ist: Option<u8>,
}

/// Failure of a dispatch-table operation.
#[derive(Clone, Copy, PartialEq, Eq, Structural, Debug)]
pub enum IdtError {
    /// The table is live in the processor; it can never change again.
    AlreadyLoaded,
    /// The table still has unbound vectors and may not be loaded.
    IncompleteTable,
}

/// The interrupt dispatch table: a fixed 256-entry map from vector
/// number to handler. It moves from being built to being loaded, and
/// loading is irreversible for the process's lifetime — there is no
/// unload operation, which models the hardware, not a library choice.
pub struct Idt {
    entries: Vec<Option<IdtEntry>>,
    is_loaded: bool,
}

impl Idt {
    /// The entry bound to vector `v`.
    pub closed spec fn entry(self, v: int) -> Option<IdtEntry> {
        self.entries@[v]
    }

    /// Whether the table is live in the processor.
    pub closed spec fn loaded(self) -> bool {
        self.is_loaded
    }

    /// Every vector is bound.
    pub open spec fn complete(self) -> bool {
        forall|v: int| 0 <= v < IDT_ENTRIES ==> self.entry(v) is Some
    }

    /// The table has its fixed size, every stack override names a real
    /// IST slot, and a live table is complete.
    pub closed spec fn wf(self) -> bool {
        &&& self.entries@.len() == IDT_ENTRIES
        &&& forall|v: int|
            0 <= v < IDT_ENTRIES ==> (match #[trigger] self.entries@[v] {
                Option::Some(e) => (match e.ist {
                    Option::Some(i) => i < IST_ENTRIES,
                    Option::None => true,
                }),
                Option::None => true,
            })
        &&& (self.is_loaded ==> self.complete())
    }

    /// A fresh table: every vector unbound, not loaded.
    pub fn new() -> (t: Idt)
        ensures
            t.wf(),
            !t.loaded(),
            forall|v: int| 0 <= v < IDT_ENTRIES ==> t.entry(v) is None,
    {
        let mut e: Vec<Option<IdtEntry>> = Vec::new();
        while e.len() < IDT_ENTRIES
            invariant
                e@.len() <= IDT_ENTRIES,
                forall|v: int| 0 <= v < e@.len() ==> e@[v] is None,
            decreases IDT_ENTRIES - e@.len(),
        {
            e.push(None);
        }
        Idt { entries: e, is_loaded: false }
    }

    /// Binds a vector while the table is still private to its builder.
    fn bind(&mut self, vector: usize, handler: Handler, ist: Option<u8>)
        requires
            old(self).wf(),
            !old(self).loaded(),
            vector < IDT_ENTRIES,
            match ist {
                Option::Some(i) => i < IST_ENTRIES,
                Option::None => true,
            },
        ensures
            final(self).wf(),
            !final(self).loaded(),
            final(self).entry(vector as int) == Some(IdtEntry { handler, ist }),
            forall|v: int|
                0 <= v < IDT_ENTRIES && v != vector ==> final(self).entry(v) == old(self).entry(
                    v,
                ),
    {
        self.entries.set(vector, Some(IdtEntry { handler, ist }));
    }

    /// Binds a vector to a handler running on the interrupted context's
    /// own stack. Refused once the table is live.
    pub fn set_handler(&mut self, vector: usize, handler: Handler) -> (r: Result<(), IdtError>)
        requires
            old(self).wf(),
            vector < IDT_ENTRIES,
        ensures
            final(self).wf(),
            final(self).loaded() == old(self).loaded(),
            match r {
                Ok(_) => {
                    &&& !old(self).loaded()
                    &&& final(self).entry(vector as int) == Some(
                        IdtEntry { handler, ist: None },
                    )
                    &&& forall|v: int|
                        0 <= v < IDT_ENTRIES && v != vector ==> final(self).entry(v) == old(
                            self,
                        ).entry(v)
                },
                Err(e) => {
                    &&& e == IdtError::AlreadyLoaded
                    &&& old(self).loaded()
                    &&& *final(self) == *old(self)
                },
            },
    {
        if self.is_loaded {
            return Err(IdtError::AlreadyLoaded);
        }
        self.bind(vector, handler, None);
        Ok(())
    }

    /// Binds a vector to a handler that first switches to the given
    /// interrupt-stack-table slot. Refused once the table is live.
    pub fn set_handler_with_ist(&mut self, vector: usize, handler: Handler, ist_index: u8) -> (r:
        Result<(), IdtError>)
        requires
            old(self).wf(),
            vector < IDT_ENTRIES,
            ist_index < IST_ENTRIES,
        ensures
            final(self).wf(),
            final(self).loaded() == old(self).loaded(),
            match r {
                Ok(_) => {
                    &&& !old(self).loaded()
                    &&& final(self).entry(vector as int) == Some(
                        IdtEntry { handler, ist: Some(ist_index) },
                    )
                    &&& forall|v: int|
                        0 <= v < IDT_ENTRIES && v != vector ==> final(self).entry(v) == old(
                            self,
                        ).entry(v)
                },
                Err(e) => {
                    &&& e == IdtError::AlreadyLoaded
                    &&& old(self).loaded()
                    &&& *final(self) == *old(self)
                },
            },
    {
        if self.is_loaded {
            return Err(IdtError::AlreadyLoaded);
        }
        self.bind(vector, handler, Some(ist_index));
        Ok(())
    }

    /// Makes the table live in the processor. Only a complete table may
    /// be loaded: a vector firing with no handler is fatal, so
    /// completeness is checked, not assumed. Loading is irreversible.
    pub fn load(&mut self) -> (r: Result<(), IdtError>)
        requires
            old(self).wf(),
        ensures
            final(self).wf(),
            match r {
                Ok(_) => {
                    &&& old(self).complete()
                    &&& final(self).loaded()
                    &&& forall|v: int|
                        0 <= v < IDT_ENTRIES ==> final(self).entry(v) == old(self).entry(v)
                },
                Err(e) => {
                    &&& e == IdtError::IncompleteTable
                    &&& !old(self).complete()
                    &&& *final(self) == *old(self)
                },
            },
    {
        let mut v: usize = 0;
        while v < IDT_ENTRIES
            invariant
                *self == *old(self),
                self.wf(),
                0 <= v <= IDT_ENTRIES,
                forall|w: int| 0 <= w < v ==> self.entry(w) is Some,
            decreases IDT_ENTRIES - v,
        {
            if self.entries[v].is_none() {
                proof {
                    assert(self.entry(v as int) is None);
                    assert(!self.complete());
                }
                return Err(IdtError::IncompleteTable);
            }
            v = v + 1;
        }
        proof {
            assert(self.complete());
        }
        let ghost pre = *self;
        self.is_loaded = true;
        proof {
            assert(self.entries@ == pre.entries@);
            assert forall|w: int| 0 <= w < IDT_ENTRIES implies self.entry(w) is Some by {
                assert(pre.entry(w) is Some);
            }
            assert(self.wf());
        }
        Ok(())
    }
}

impl Idt {
    /// Reads the entry bound to a vector.
    pub fn get_entry(&self, vector: usize) -> (r: Option<IdtEntry>)
        requires
            self.wf(),
            vector < IDT_ENTRIES,
        ensures
            r == self.entry(vector as int),
    {
        self.entries[vector]
    }
}

/// The entry the boot-time table binds to each vector: a dedicated
/// handler for every architecture-defined exception — the double fault
/// additionally pinned to its reserved stack slot — the timer on its two
/// vectors, the spurious-NMI range and the spurious-interrupt vector on
/// their defensive handlers, and a halting defensive handler on every
/// vector nothing claims.
pub open spec fn boot_binding(v: int) -> IdtEntry {
    if v == 0 {
        IdtEntry { handler: Handler::DivideByZero, ist: None }
    } else if v == 1 {
        IdtEntry { handler: Handler::DebugTrap, ist: None }
    } else if v == 2 {
        IdtEntry { handler: Handler::NonMaskableInterrupt, ist: None }
    } else if v == BREAKPOINT_VECTOR {
        IdtEntry { handler: Handler::Breakpoint, ist: None }
    } else if v == 4 {
        IdtEntry { handler: Handler::Overflow, ist: None }
    } else if v == 5 {
        IdtEntry { handler: Handler::BoundRange, ist: None }
    } else if v == 6 {
        IdtEntry { handler: Handler::InvalidOpcode, ist: None }
    } else if v == 7 {
        IdtEntry { handler: Handler::DeviceNotAvailable, ist: None }
    } else if v == DOUBLE_FAULT_VECTOR {
        IdtEntry { handler: Handler::DoubleFault, ist: Some(DOUBLE_FAULT_IST_INDEX as u8) }
    } else if v == 10 {
        IdtEntry { handler: Handler::InvalidTss, ist: None }
    } else if v == 11 {
        IdtEntry { handler: Handler::SegmentNotPresent, ist: None }
    } else if v == 12 {
        IdtEntry { handler: Handler::StackSegmentFault, ist: None }
    } else if v == 13 {
        IdtEntry { handler: Handler::GeneralProtection, ist: None }
    } else if v == PAGE_FAULT_VECTOR {
        IdtEntry { handler: Handler::PageFault, ist: None }
    } else if v == 16 {
        IdtEntry { handler: Handler::X87FloatingPoint, ist: None }
    } else if v == 17 {
        IdtEntry { handler: Handler::AlignmentCheck, ist: None }
    } else if v == 18 {
        IdtEntry { handler: Handler::MachineCheck, ist: None }
    } else if v == 19 {
        IdtEntry { handler: Handler::SimdFloatingPoint, ist: None }
    } else if v == TIMER_VECTOR || v == TIMER_VECTOR_ALT {
        IdtEntry { handler: Handler::Timer, ist: None }
    } else if APIC_NMI_FIRST_VECTOR <= v < APIC_NMI_END_VECTOR {
        IdtEntry { handler: Handler::ApicNmi, ist: None }
    } else if v == SPURIOUS_VECTOR {
        IdtEntry { handler: Handler::Spurious, ist: None }
    } else {
        IdtEntry { handler: Handler::Unexpected, ist: None }
    }
}

/// Builds the boot dispatch table: a pure function of architecture
/// constants, bound exactly as `boot_binding` says, with no vector left
/// empty.
pub fn build_idt() -> (idt: Idt)
    ensures
        idt.wf(),
        !idt.loaded(),
        idt.complete(),
        forall|v: int| 0 <= v < IDT_ENTRIES ==> idt.entry(v) == Some(boot_binding(v)),
{
    let mut idt = Idt::new();
    let mut v: usize = 0;
    while v < IDT_ENTRIES
        invariant
            idt.wf(),
            !idt.loaded(),
            0 <= v <= IDT_ENTRIES,
            forall|w: int|
                0 <= w < v ==> idt.entry(w) == Some(
                    IdtEntry { handler: Handler::Unexpected, ist: None },
                ),
        decreases IDT_ENTRIES - v,
    {
        idt.bind(v, Handler::Unexpected, None);
        v = v + 1;
    }
    idt.bind(0, Handler::DivideByZero, None);
    idt.bind(1, Handler::DebugTrap, None);
    idt.bind(2, Handler::NonMaskableInterrupt, None);
    idt.bind(BREAKPOINT_VECTOR, Handler::Breakpoint, None);
    idt.bind(4, Handler::Overflow, None);
    idt.bind(5, Handler::BoundRange, None);
    idt.bind(6, Handler::InvalidOpcode, None);
    idt.bind(7, Handler::DeviceNotAvailable, None);
    idt.bind(DOUBLE_FAULT_VECTOR, Handler::DoubleFault, Some(DOUBLE_FAULT_IST_INDEX as u8));
    idt.bind(10, Handler::InvalidTss, None);
    idt.bind(11, Handler::SegmentNotPresent, None);
    idt.bind(12, Handler::StackSegmentFault, None);
    idt.bind(13, Handler::GeneralProtection, None);
    idt.bind(PAGE_FAULT_VECTOR, Handler::PageFault, None);
    idt.bind(16, Handler::X87FloatingPoint, None);
    idt.bind(17, Handler::AlignmentCheck, None);
    idt.bind(18, Handler::MachineCheck, None);
    idt.bind(19, Handler::SimdFloatingPoint, None);
    idt.bind(TIMER_VECTOR, Handler::Timer, None);
    idt.bind(TIMER_VECTOR_ALT, Handler::Timer, None);
    let ghost before_nmi = idt;
    let mut w: usize = APIC_NMI_FIRST_VECTOR;
    while w < APIC_NMI_END_VECTOR
        invariant
            idt.wf(),
            !idt.loaded(),
            APIC_NMI_FIRST_VECTOR <= w <= APIC_NMI_END_VECTOR,
            forall|u: int|
                APIC_NMI_FIRST_VECTOR <= u < w ==> idt.entry(u) == Some(
                    IdtEntry { handler: Handler::ApicNmi, ist: None },
                ),
            forall|u: int|
                0 <= u < IDT_ENTRIES && !(APIC_NMI_FIRST_VECTOR <= u < w) ==> idt.entry(u)
                    == before_nmi.entry(u),
        decreases APIC_NMI_END_VECTOR - w,
    {
        idt.bind(w, Handler::ApicNmi, None);
        w = w + 1;
    }
    idt.bind(SPURIOUS_VECTOR, Handler::Spurious, None);
    proof {
        assert forall|v2: int| 0 <= v2 < IDT_ENTRIES implies idt.entry(v2) == Some(
            boot_binding(v2),
        ) by {
        }
    }
    idt
}

/// The outcome of delivering one vector.
#[derive(Clone, Copy, PartialEq, Eq, Debug)]
pub enum DispatchOutcome {
    /// The bound handler ran on the stack whose top is given, and
    /// control returned to the interrupted instruction stream.
    Returned(u64),
    /// The bound handler ran to completion on the stack whose top is
    /// given, reported, and halted the core.
    Halted(u64),
    /// No usable stack existed to enter any handler: the processor
    /// resets. The dedicated fault stacks exist to keep delivery from
    /// ever reaching this.
    TripleFault,
}

/// The stack the processor switches to on delivery: the named
/// interrupt-stack-table slot if the entry carries one, else the
/// interrupted context's own stack.
pub open spec fn entry_stack(e: IdtEntry, tss: Tss, normal_stack_top: u64) -> u64 {
    match e.ist {
        Option::Some(i) => tss.ist()[i as int],
        Option::None => normal_stack_top,
    }
}

/// True of the handlers that hand control back to the interrupted
/// context.
fn returns_control(h: Handler) -> (b: bool)
    ensures
        b == (handler_outcome(h) == HandlerOutcome::Returns),
{
    match h {
        Handler::Breakpoint => true,
        Handler::Timer => true,
        Handler::Spurious => true,
        _ => false,
    }
}

/// One delivery step of the processor through a live table: looks up
/// the vector's entry, switches to its IST stack if one is named — so a
/// stack-switching entry is entered even when the normal stack is bad —
/// and runs the handler, which returns or halts as its class dictates.
/// Without a stack override, a bad normal stack means the processor
/// resets before any handler runs.
pub fn dispatch(
    idt: &Idt,
    tss: &Tss,
    vector: usize,
    normal_stack_top: u64,
    normal_stack_ok: bool,
) -> (r: DispatchOutcome)
    requires
        idt.wf(),
        idt.loaded(),
        tss.wf(),
        vector < IDT_ENTRIES,
    ensures
        match idt.entry(vector as int) {
            Option::Some(e) => {
                &&& ((e.ist is Some || normal_stack_ok) ==> r == (match handler_outcome(
                    e.handler,
                ) {
                    HandlerOutcome::Returns => DispatchOutcome::Returned(
                        entry_stack(e, *tss, normal_stack_top),
                    ),
                    HandlerOutcome::Halts => DispatchOutcome::Halted(
                        entry_stack(e, *tss, normal_stack_top),
                    ),
                }))
                &&& ((e.ist is None && !normal_stack_ok) ==> r == DispatchOutcome::TripleFault)
            },
            Option::None => false,
        },
{
    let entry = self_entry(idt, vector);
    match entry.ist {
        Option::Some(i) => {
            let stack = tss.get_ist(i as usize);
            if returns_control(entry.handler) {
                DispatchOutcome::Returned(stack)
            } else {
                DispatchOutcome::Halted(stack)
            }
        },
        Option::None => {
            if normal_stack_ok {
                if returns_control(entry.handler) {
                    DispatchOutcome::Returned(normal_stack_top)
                } else {
                    DispatchOutcome::Halted(normal_stack_top)
                }
            } else {
                DispatchOutcome::TripleFault
            }
        },
    }
}

/// Looks up a vector in a live table, which is complete, so the entry
/// exists.
fn self_entry(idt: &Idt, vector: usize) -> (e: IdtEntry)
    requires
        idt.wf(),
        idt.loaded(),
        vector < IDT_ENTRIES,
    ensures
        idt.entry(vector as int) == Some(e),
{
    proof {
        assert(idt.complete());
        assert(idt.entry(vector as int) is Some);
    }
    match idt.get_entry(vector) {
        Option::Some(e) => e,
        Option::None => {
            proof {
                assert(false);
            }
            IdtEntry { handler: Handler::Unexpected, ist: None }
        },
    }
}

/// Every vector of a live dispatch table is bound to a handler,
/// specific or defensive: no vector is left empty, because only a
/// complete table can be loaded.
pub proof fn lemma_loaded_table_complete(idt: Idt)
    requires
        idt.wf(),
        idt.loaded(),
    ensures
        forall|v: int| 0 <= v < IDT_ENTRIES ==> idt.entry(v) is Some,
{
}

/// Globally enables maskable-interrupt delivery. The dispatch table
/// must be live first: once this returns, any vector may fire at any
/// instruction boundary.
pub fn enable_interrupts(cpu: &mut Cpu, idt: &Idt)
    requires
        idt.wf(),
        idt.loaded(),
    ensures
        final(cpu).interrupts_enabled,
        final(cpu).efer == old(cpu).efer,
        final(cpu).cr0 == old(cpu).cr0,
        final(cpu).cs == old(cpu).cs,
        final(cpu).tr == old(cpu).tr,
{
    cpu.interrupts_enabled = true;
}

/// Failure of table initialization.
#[derive(Clone, Copy, PartialEq, Eq, Structural, Debug)]
pub enum TablesError {
    /// The dedicated double-fault stack could not be allocated.
    StackExhausted,
}

/// The state the table subsystem reaches when its one-time bring-up
/// succeeds: the memory controller has handed out the dedicated fault
/// stack; the TSS points its reserved slot at that stack's top; the
/// live GDT holds exactly the null slot, the kernel code descriptor and
/// the two-slot TSS descriptor; the selector registers point into it;
/// and the live dispatch table is bound exactly as `boot_binding` says.
pub open spec fn tables_installed(
    mc: MemoryController,
    cpu: Cpu,
    tss: Tss,
    gdt: Gdt,
    idt: Idt,
    tss_base: u64,
) -> bool {
    &&& mc.stacks().len() >= 1
    &&& tss.wf()
    &&& tss.ist()[DOUBLE_FAULT_IST_INDEX as int] == mc.stacks().last().top as u64
    &&& gdt.wf()
    &&& gdt.loaded()
    &&& gdt.entries() =~= seq![
        0u64,
        DESC_USER_SEGMENT | DESC_PRESENT | DESC_EXECUTABLE | DESC_LONG_MODE,
        spec_tss_low(tss_base),
        spec_tss_high(tss_base),
    ]
    &&& cpu.cs == 8
    &&& cpu.tr == 16
    &&& idt.wf()
    &&& idt.loaded()
    &&& forall|v: int| 0 <= v < IDT_ENTRIES ==> idt.entry(v) == Some(boot_binding(v))
}

/// The double-fault vector of installed tables names an IST slot, that
/// slot resolves to the top of a stack the memory controller handed
/// out, every byte of that stack is mapped writable, and the whole page
/// below it is unmapped: even a fault caused by the normal stack finds
/// a known-good stack to run on.
pub proof fn lemma_double_fault_stack_guarded(
    mc: MemoryController,
    cpu: Cpu,
    tss: Tss,
    gdt: Gdt,
    idt: Idt,
    tss_base: u64,
)
    requires
        mc.wf(),
        tables_installed(mc, cpu, tss, gdt, idt, tss_base),
    ensures
        idt.entry(DOUBLE_FAULT_VECTOR as int) == Some(
            IdtEntry { handler: Handler::DoubleFault, ist: Some(DOUBLE_FAULT_IST_INDEX as u8) },
        ),
        tss.ist()[DOUBLE_FAULT_IST_INDEX as int] == mc.stacks().last().top as u64,
        forall|b: int|
            mc.stacks().last().bottom <= b < mc.stacks().last().top ==> mc.byte_mapped_rw(b),
        forall|b: int|
            mc.stacks().last().bottom - crate::PAGE_SIZE <= b < mc.stacks().last().bottom
                ==> !mc.byte_mapped(b),
{
    assert(idt.entry(DOUBLE_FAULT_VECTOR as int) == Some(
        boot_binding(DOUBLE_FAULT_VECTOR as int),
    ));
    crate::memory::lemma_stack_guarded(mc, mc.stacks().len() - 1);
}

/// One-time bring-up of the descriptor tables and the dispatch table,
/// in the one order the processor allows: allocate the dedicated fault
/// stack, build the TSS around its top, build the GDT with the kernel
/// code descriptor and the TSS descriptor, make the GDT live, only then
/// reload the code-segment register and the task register against it,
/// and finally load the completed dispatch table. `tss_base` is the
/// address at which the caller keeps the hardware TSS; it is recorded in
/// the TSS descriptor.
pub fn init(
    mc: &mut MemoryController,
    cpu: &mut Cpu,
    tss_base: u64,
    tss_cell: &mut OnceCell<Tss>,
    gdt_cell: &mut OnceCell<Gdt>,
    idt_cell: &mut OnceCell<Idt>,
) -> (r: Result<(), TablesError>)
    requires
        old(mc).wf(),
        old(tss_cell).stored() is None,
        old(gdt_cell).stored() is None,
        old(idt_cell).stored() is None,
    ensures
        final(mc).wf(),
        final(mc).frames_total() == old(mc).frames_total(),
        final(cpu).efer == old(cpu).efer,
        final(cpu).cr0 == old(cpu).cr0,
        final(cpu).interrupts_enabled == old(cpu).interrupts_enabled,
        match r {
            Ok(_) => {
                &&& old(mc).frames_left() >= 1
                &&& old(mc).pages_left() > 1
                &&& final(mc).stacks().len() == old(mc).stacks().len() + 1
                &&& (match (
                    final(tss_cell).stored(),
                    final(gdt_cell).stored(),
                    final(idt_cell).stored(),
                ) {
                    (Some(t), Some(g), Some(i)) => tables_installed(
                        *final(mc),
                        *final(cpu),
                        t,
                        g,
                        i,
                        tss_base,
                    ),
                    _ => false,
                })
            },
            Err(_) => {
                &&& (old(mc).frames_left() < 1 || old(mc).pages_left() <= 1)
                &&& *final(mc) == *old(mc)
                &&& *final(cpu) == *old(cpu)
                &&& *final(tss_cell) == *old(tss_cell)
                &&& *final(gdt_cell) == *old(gdt_cell)
                &&& *final(idt_cell) == *old(idt_cell)
            },
        },
{
    let double_fault_stack = match mc.alloc_stack(1) {
        Ok(s) => s,
        Err(_) => {
            return Err(TablesError::StackExhausted);
        },
    };
    let mut tss = Tss::new();
    tss.set_ist(DOUBLE_FAULT_IST_INDEX, double_fault_stack.top as u64);
    let ghost tss_snapshot = tss;
    tss_cell.call_once(tss);
    let mut gdt = Gdt::new();
    let code_selector = match gdt.add_entry(Descriptor::kernel_code_segment()) {
        Ok(sel) => sel,
        Err(_) => {
            proof {
                assert(false);
            }
            return Err(TablesError::StackExhausted);
        },
    };
    let tss_selector = match gdt.add_entry(Descriptor::tss_segment(tss_base)) {
        Ok(sel) => sel,
        Err(_) => {
            proof {
                assert(false);
            }
            return Err(TablesError::StackExhausted);
        },
    };
    gdt.load();
    set_cs(cpu, &gdt, code_selector);
    load_tss(cpu, &gdt, tss_selector);
    let ghost gdt_snapshot = gdt;
    gdt_cell.call_once(gdt);
    let mut idt = build_idt();
    match idt.load() {
        Ok(_) => {},
        Err(_) => {
            proof {
                assert(false);
            }
            return Err(TablesError::StackExhausted);
        },
    }
    let ghost idt_snapshot = idt;
    idt_cell.call_once(idt);
    proof {
        assert(final(mc).stacks() == old(mc).stacks().push(double_fault_stack));
        assert(final(mc).stacks().last() == double_fault_stack);
        assert(tss_snapshot.ist()[DOUBLE_FAULT_IST_INDEX as int]
            == double_fault_stack.top as u64);
        assert(gdt_snapshot.entries() =~= seq![
            0u64,
            DESC_USER_SEGMENT | DESC_PRESENT | DESC_EXECUTABLE | DESC_LONG_MODE,
            spec_tss_low(tss_base),
            spec_tss_high(tss_base),
        ]);
        assert(code_selector.0 == 8);
        assert(tss_selector.0 == 16);
    }
    Ok(())
}

} // verus!
