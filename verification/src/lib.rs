//! Early-boot core of a bare-metal kernel, modelled over plain values:
//! descriptor tables and interrupt dispatch, physical-frame and stack
//! bookkeeping with guard pages, a free-list heap whose critical sections
//! are interrupt-safe, and the one-time ordered boot sequence that wires
//! them together. The privileged instructions that carry this state into
//! the processor live outside the library, behind its contracts.

pub mod boot;
pub mod cpu;
pub mod once;
pub mod gdt;
pub mod heap;
pub mod interrupts;
pub mod memory;
pub mod serial;

use vstd::prelude::*;

verus! {

/// Width of one page of memory, in bytes.
pub const PAGE_SIZE: usize = 4096;

} // verus!
