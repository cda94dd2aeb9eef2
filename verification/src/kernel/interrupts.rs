//! The Interrupt Descriptor Table: gate encoding and the table that wires the
//! breakpoint and double-fault vectors. Loading it (`lidt`) and the handler
//! stubs themselves are the caller's part.

use vstd::prelude::*;
use crate::kernel::gdt::{DOUBLE_FAULT_IST_INDEX, KERNEL_CODE_SELECTOR};

verus! {

/// Present, DPL 0, 64-bit interrupt gate.
pub const INTERRUPT_GATE_ATTRIBUTES: u8 = 0x8E;

/// The CPU expects exactly 256 gates.
pub const IDT_ENTRIES: usize = 256;

/// `lidt` limit of the table: its size in bytes (256 gates of 16) minus one.
pub const IDT_LIMIT: u16 = 4095;

pub const BREAKPOINT_VECTOR: usize = 3;
pub const DOUBLE_FAULT_VECTOR: usize = 8;

/// One 16-byte gate descriptor.
#[derive(Clone, Copy)]
pub struct IdtEntry {
    pub offset_low: u16,
    pub segment_selector: u16,
    /// Interrupt stack table slot (0: none; n: IST slot n).
    pub ist: u8,
    /// Gate type, DPL and present flag.
    pub attributes: u8,
    pub offset_mid: u16,
    pub offset_high: u32,
    pub zero: u32,
}

/// The handler address that a gate encodes.
pub open spec fn gate_address(e: IdtEntry) -> u64 {
    (e.offset_low as u64) | ((e.offset_mid as u64) << 16u64) | ((e.offset_high as u64) << 32u64)
}

/// `e` is the all-zero (not present) gate.
pub open spec fn is_empty_gate(e: IdtEntry) -> bool {
    e.offset_low == 0 && e.segment_selector == 0 && e.ist == 0 && e.attributes == 0
        && e.offset_mid == 0 && e.offset_high == 0 && e.zero == 0
}

/// `e` is a present kernel interrupt gate to `handler` using IST slot `ist`.
pub open spec fn is_kernel_gate(e: IdtEntry, handler: u64, ist: u8) -> bool {
    &&& gate_address(e) == handler
    &&& e.segment_selector == KERNEL_CODE_SELECTOR
    &&& e.ist == ist
    &&& e.attributes == INTERRUPT_GATE_ATTRIBUTES
    &&& e.zero == 0
}

impl IdtEntry {
    /// A gate that is not present.
    pub fn empty() -> (e: Self)
        ensures
            is_empty_gate(e),
    {
        Self {
            offset_low: 0,
            segment_selector: 0,
            ist: 0,
            attributes: 0,
            offset_mid: 0,
            offset_high: 0,
            zero: 0,
        }
    }

    /// Makes this a present kernel interrupt gate to `handler_addr`,
    /// splitting the address into its 16/16/32-bit parts.
    pub fn set_handler(&mut self, handler_addr: u64)
        ensures
            is_kernel_gate(*final(self), handler_addr, 0),
            final(self).offset_low == handler_addr as u16,
            final(self).offset_mid == (handler_addr >> 16u64) as u16,
            final(self).offset_high == (handler_addr >> 32u64) as u32,
    {
        self.offset_low = handler_addr as u16;
        self.segment_selector = KERNEL_CODE_SELECTOR;
        self.ist = 0;
        self.attributes = INTERRUPT_GATE_ATTRIBUTES;
        self.offset_mid = (handler_addr >> 16u64) as u16;
        self.offset_high = (handler_addr >> 32u64) as u32;
        self.zero = 0;
        let lo = self.offset_low;
        let mid = self.offset_mid;
        let hi = self.offset_high;
        assert((lo as u64) | ((mid as u64) << 16u64) | ((hi as u64) << 32u64) == handler_addr)
            by (bit_vector)
            requires
                lo == handler_addr as u16,
                mid == (handler_addr >> 16u64) as u16,
                hi == (handler_addr >> 32u64) as u32,
        ;
    }
}

/// The operand of `lidt`.
#[derive(Clone, Copy)]
pub struct IdtDescriptor {
    pub limit: u16,
    pub base: u64,
}

/// Everything `lidt` needs: the 256 gates and the table's descriptor.
pub struct IdtSetup {
    pub idt: Vec<IdtEntry>,
    pub idtr: IdtDescriptor,
}

/// Computes the IDT: vector 3 (breakpoint) to `breakpoint_handler`, vector 8
/// (double fault) to `double_fault_handler` on the double-fault IST stack,
/// every other gate empty; the descriptor points at `idt_base`.
pub fn init(breakpoint_handler: u64, double_fault_handler: u64, idt_base: u64) -> (setup: IdtSetup)
    ensures
        setup.idt@.len() == IDT_ENTRIES,
        is_kernel_gate(setup.idt@[BREAKPOINT_VECTOR as int], breakpoint_handler, 0),
        is_kernel_gate(
            setup.idt@[DOUBLE_FAULT_VECTOR as int],
            double_fault_handler,
            (DOUBLE_FAULT_IST_INDEX + 1) as u8,
        ),
        forall|v: int|
            0 <= v < IDT_ENTRIES && v != BREAKPOINT_VECTOR && v != DOUBLE_FAULT_VECTOR
                ==> is_empty_gate(#[trigger] setup.idt@[v]),
        setup.idtr.limit == IDT_LIMIT,
        setup.idtr.base == idt_base,
{
    let mut idt: Vec<IdtEntry> = Vec::new();
    let mut v: usize = 0;
    while v < IDT_ENTRIES
        invariant
            0 <= v <= IDT_ENTRIES,
            idt@.len() == v,
            forall|j: int| 0 <= j < v ==> is_empty_gate(#[trigger] idt@[j]),
        decreases IDT_ENTRIES - v,
    {
        idt.push(IdtEntry::empty());
        v = v + 1;
    }
    let mut breakpoint = IdtEntry::empty();
    breakpoint.set_handler(breakpoint_handler);
    idt.set(BREAKPOINT_VECTOR, breakpoint);
    let mut double_fault = IdtEntry::empty();
    double_fault.set_handler(double_fault_handler);
    // Switch to the double-fault stack: IST slot index + 1.
    double_fault.ist = DOUBLE_FAULT_IST_INDEX as u8 + 1;
    idt.set(DOUBLE_FAULT_VECTOR, double_fault);
    IdtSetup { idt, idtr: IdtDescriptor { limit: IDT_LIMIT, base: idt_base } }
}

/// The frame that the CPU pushes on an exception.
pub struct ExceptionStackFrame {
    pub instruction_pointer: u64,
    pub code_segment: u64,
    pub cpu_flags: u64,
}

} // verus!
