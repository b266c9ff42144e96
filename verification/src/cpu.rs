use vstd::prelude::*;

verus! {

/// Bit of the extended-feature-enable register that forbids executing
/// pages marked no-execute.
pub const EFER_NXE_BIT: u64 = 0x800;

/// Bit of control register zero that makes page-level write protection
/// bind supervisor code as well.
pub const CR0_WRITE_PROTECT_BIT: u64 = 0x10000;

/// The per-core control state this kernel touches: the two control
/// registers it configures, the maskable-interrupt flag, and the two
/// selector registers that the descriptor tables are wired into.
///
/// The real registers are written by privileged instructions at the
/// hardware boundary; every decision about *what* to write is made over
/// this value and is verified.
pub struct Cpu {
    /// Extended-feature-enable register.
    pub efer: u64,
    /// Control register zero.
    pub cr0: u64,
    /// Whether maskable interrupts are currently delivered.
    pub interrupts_enabled: bool,
    /// Code-segment selector register.
    pub cs: u16,
    /// Task register (selector of the live task-state segment).
    pub tr: u16,
}

impl Cpu {
    /// State of a core as the boot loader hands it over: feature bits and
    /// selector registers in an unknown configuration, interrupts masked.
    pub fn at_boot() -> (c: Cpu)
        ensures
            !c.interrupts_enabled,
    {
        Cpu { efer: 0, cr0: 0, interrupts_enabled: false, cs: 0, tr: 0 }
    }

    /// True once no-execute enforcement is switched on.
    pub open spec fn nxe_enabled(self) -> bool {
        self.efer & EFER_NXE_BIT == EFER_NXE_BIT
    }

    /// True once supervisor write protection is switched on.
    pub open spec fn write_protect_enabled(self) -> bool {
        self.cr0 & CR0_WRITE_PROTECT_BIT == CR0_WRITE_PROTECT_BIT
    }
}

/// Sets the no-execute enforcement bit, leaving every other feature bit
/// as it was.
pub fn enable_nxe_bit(cpu: &mut Cpu)
    ensures
        final(cpu).efer == old(cpu).efer | EFER_NXE_BIT,
        final(cpu).nxe_enabled(),
        final(cpu).cr0 == old(cpu).cr0,
        final(cpu).interrupts_enabled == old(cpu).interrupts_enabled,
        final(cpu).cs == old(cpu).cs,
        final(cpu).tr == old(cpu).tr,
{
    let e = cpu.efer;
    cpu.efer = e | EFER_NXE_BIT;
    proof {
        assert((e | 0x800u64) & 0x800u64 == 0x800u64) by (bit_vector);
    }
}

/// Sets the supervisor write-protect bit, leaving every other bit of the
/// control register as it was.
pub fn enable_write_protect_bit(cpu: &mut Cpu)
    ensures
        final(cpu).cr0 == old(cpu).cr0 | CR0_WRITE_PROTECT_BIT,
        final(cpu).write_protect_enabled(),
        final(cpu).efer == old(cpu).efer,
        final(cpu).interrupts_enabled == old(cpu).interrupts_enabled,
        final(cpu).cs == old(cpu).cs,
        final(cpu).tr == old(cpu).tr,
{
    let c = cpu.cr0;
    cpu.cr0 = c | CR0_WRITE_PROTECT_BIT;
    proof {
        assert((c | 0x10000u64) & 0x10000u64 == 0x10000u64) by (bit_vector);
    }
}

/// Witness that a critical section was entered: it records the
/// interrupt-enable state found on entry, and releasing it restores
/// exactly that state, never unconditionally "enabled".
pub struct InterruptGuard {
    /// Interrupt-enable state at the moment the section was entered.
    pub was_enabled: bool,
}

/// Enters an interrupt-free critical section: masks interrupts and hands
/// back a guard recording the prior state.
pub fn push_interrupt_disable(cpu: &mut Cpu) -> (g: InterruptGuard)
    ensures
        !final(cpu).interrupts_enabled,
        g.was_enabled == old(cpu).interrupts_enabled,
        final(cpu).efer == old(cpu).efer,
        final(cpu).cr0 == old(cpu).cr0,
        final(cpu).cs == old(cpu).cs,
        final(cpu).tr == old(cpu).tr,
{
    let was = cpu.interrupts_enabled;
    cpu.interrupts_enabled = false;
    InterruptGuard { was_enabled: was }
}

/// Leaves a critical section: restores the interrupt-enable state the
/// paired guard recorded on entry.
pub fn pop_interrupt_disable(cpu: &mut Cpu, guard: InterruptGuard)
    ensures
        final(cpu).interrupts_enabled == guard.was_enabled,
        final(cpu).efer == old(cpu).efer,
        final(cpu).cr0 == old(cpu).cr0,
        final(cpu).cs == old(cpu).cs,
        final(cpu).tr == old(cpu).tr,
{
    cpu.interrupts_enabled = guard.was_enabled;
}

} // verus!
