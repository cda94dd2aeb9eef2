//! The Global Descriptor Table and the Task State Segment: the values that
//! the kernel loads, computed from the addresses of the structures.
//! Loading them (`lgdt`, segment reloads, `ltr`) is the caller's part.

use vstd::prelude::*;

verus! {

pub const KERNEL_CODE_SELECTOR: u16 = 0x08;
pub const KERNEL_DATA_SELECTOR: u16 = 0x10;
pub const TSS_SELECTOR: u16 = 0x18;

/// The interrupt stack table slot of the double-fault stack (slot 1 to the CPU).
pub const DOUBLE_FAULT_IST_INDEX: usize = 0;

/// Size of the emergency double-fault stack.
pub const DOUBLE_FAULT_STACK_SIZE: u64 = 16384;

/// Size in bytes of the packed 64-bit task state segment.
pub const TSS_SIZE: u64 = 104;

/// Present, ring 0, execute/read, 64-bit code segment.
pub const KERNEL_CODE_DESCRIPTOR: u64 = 0x0020_9A00_0000_0000;

/// Present, ring 0, read/write data segment.
pub const KERNEL_DATA_DESCRIPTOR: u64 = 0x0000_9200_0000_0000;

/// `lgdt` limit of a five-entry table: its size in bytes minus one.
pub const GDT_LIMIT: u16 = 39;

/// The 64-bit task state segment.
#[derive(Clone, Copy)]
pub struct TaskStateSegment {
    pub reserved_1: u32,
    pub privilege_stack_table: [u64; 3],
    pub reserved_2: u64,
    pub interrupt_stack_table: [u64; 7],
    pub reserved_3: u64,
    pub reserved_4: u16,
    pub iomap_base: u16,
}

/// Whether every field of `tss` is zero except the interrupt stack table.
pub open spec fn tss_zero_but_ist(tss: TaskStateSegment) -> bool {
    &&& tss.reserved_1 == 0
    &&& tss.privilege_stack_table@ == seq![0u64, 0, 0]
    &&& tss.reserved_2 == 0
    &&& tss.reserved_3 == 0
    &&& tss.reserved_4 == 0
    &&& tss.iomap_base == 0
}

impl TaskStateSegment {
    /// An all-zero task state segment.
    pub fn new() -> (tss: Self)
        ensures
            tss_zero_but_ist(tss),
            tss.interrupt_stack_table@ == seq![0u64, 0, 0, 0, 0, 0, 0],
    {
        let tss = Self {
            reserved_1: 0,
            privilege_stack_table: [0, 0, 0],
            reserved_2: 0,
            interrupt_stack_table: [0, 0, 0, 0, 0, 0, 0],
            reserved_3: 0,
            reserved_4: 0,
            iomap_base: 0,
        };
        assert(tss.privilege_stack_table@ =~= seq![0u64, 0, 0]);
        assert(tss.interrupt_stack_table@ =~= seq![0u64, 0, 0, 0, 0, 0, 0]);
        tss
    }
}

/// The operand of `lgdt`.
#[derive(Clone, Copy)]
pub struct GdtDescriptor {
    pub limit: u16,
    pub base: u64,
}

/// The base address that a 16-byte system-segment descriptor encodes.
pub open spec fn descriptor_base(low: u64, high: u64) -> u64 {
    ((low >> 16u64) & 0xFF_FFFF) | (((low >> 56u64) & 0xFF) << 24u64) | (high << 32u64)
}

/// The 20-bit limit that a segment descriptor encodes.
pub open spec fn descriptor_limit(low: u64) -> u64 {
    (low & 0xFFFF) | (((low >> 48u64) & 0xF) << 16u64)
}

/// Encodes the 16-byte descriptor of an available 64-bit TSS at `tss_base`
/// with limit `tss_limit`, as its low and high quadwords.
pub fn encode_tss_descriptor(tss_base: u64, tss_limit: u64) -> (d: (u64, u64))
    ensures
        descriptor_base(d.0, d.1) == tss_base,
        descriptor_limit(d.0) == tss_limit & 0xF_FFFF,
        // Type 0b1001 (available 64-bit TSS), S = 0, DPL = 0, present.
        (d.0 >> 40u64) & 0xFF == 0x89,
        // No granularity or size flags.
        (d.0 >> 52u64) & 0xF == 0,
        d.1 >> 32u64 == 0,
{
    let low = (tss_limit & 0xFFFF) | ((tss_base & 0xFF_FFFF) << 16u64) | (0b1001u64 << 40u64) // Type: 64-bit TSS (available)
     | (1u64 << 47u64)  // Present
     | (((tss_limit >> 16u64) & 0x0F) << 48u64) | (((tss_base >> 24u64) & 0xFF) << 56u64);
    let high = tss_base >> 32u64;
    assert(descriptor_base(low, high) == tss_base && descriptor_limit(low) == tss_limit & 0xF_FFFF
        && (low >> 40u64) & 0xFF == 0x89 && (low >> 52u64) & 0xF == 0 && high >> 32u64 == 0)
        by (bit_vector)
        requires
            low == (tss_limit & 0xFFFF) | ((tss_base & 0xFF_FFFF) << 16u64) | (0b1001u64 << 40u64) | (1u64
                << 47u64) | (((tss_limit >> 16u64) & 0x0F) << 48u64) | (((tss_base >> 24u64) & 0xFF)
                << 56u64),
            high == tss_base >> 32u64,
    ;
    (low, high)
}

/// Everything `lgdt` and `ltr` need: the TSS contents, the table, and the table's descriptor.
pub struct GdtSetup {
    pub tss: TaskStateSegment,
    pub gdt: [u64; 5],
    pub gdtr: GdtDescriptor,
}

/// Computes the GDT setup: the double-fault stack's top goes into IST slot 1
/// of the TSS; the table holds null, kernel code, kernel data, and the
/// two-quadword TSS descriptor; the descriptor points at the table.
pub fn init(double_fault_stack_start: u64, tss_base: u64, gdt_base: u64) -> (setup: GdtSetup)
    requires
        double_fault_stack_start + DOUBLE_FAULT_STACK_SIZE <= u64::MAX,
    ensures
        tss_zero_but_ist(setup.tss),
        setup.tss.interrupt_stack_table@[DOUBLE_FAULT_IST_INDEX as int] == double_fault_stack_start
            + DOUBLE_FAULT_STACK_SIZE,
        forall|i: int|
            0 <= i < 7 && i != DOUBLE_FAULT_IST_INDEX ==> setup.tss.interrupt_stack_table@[i] == 0,
        setup.gdt@[0] == 0,
        setup.gdt@[1] == KERNEL_CODE_DESCRIPTOR,
        setup.gdt@[2] == KERNEL_DATA_DESCRIPTOR,
        descriptor_base(setup.gdt@[3], setup.gdt@[4]) == tss_base,
        descriptor_limit(setup.gdt@[3]) == TSS_SIZE - 1,
        (setup.gdt@[3] >> 40u64) & 0xFF == 0x89,
        (setup.gdt@[3] >> 52u64) & 0xF == 0,
        setup.gdt@[4] >> 32u64 == 0,
        setup.gdtr.limit == GDT_LIMIT,
        setup.gdtr.base == gdt_base,
{
    let stack_end = double_fault_stack_start + DOUBLE_FAULT_STACK_SIZE;
    let tss = TaskStateSegment {
        reserved_1: 0,
        privilege_stack_table: [0, 0, 0],
        reserved_2: 0,
        interrupt_stack_table: [stack_end, 0, 0, 0, 0, 0, 0],
        reserved_3: 0,
        reserved_4: 0,
        iomap_base: 0,
    };
    assert(tss.privilege_stack_table@ =~= seq![0u64, 0, 0]);
    let (tss_low, tss_high) = encode_tss_descriptor(tss_base, TSS_SIZE - 1);
    assert(103u64 & 0xF_FFFFu64 == 103u64) by (bit_vector);
    let gdt = [0u64, KERNEL_CODE_DESCRIPTOR, KERNEL_DATA_DESCRIPTOR, tss_low, tss_high];
    GdtSetup { tss, gdt, gdtr: GdtDescriptor { limit: GDT_LIMIT, base: gdt_base } }
}

} // verus!
