//! The bare-metal substrate: physical memory management and the CPU
//! descriptor tables, as pure computations over plain values.

pub mod memory;
pub mod gdt;
pub mod interrupts;
pub mod console;
