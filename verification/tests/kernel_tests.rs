use axiom_os::kernel::console::{hex_byte_digits, hex_digit, hex_digits_64};
use axiom_os::kernel::gdt::{
    encode_tss_descriptor, init as gdt_init, TaskStateSegment, GDT_LIMIT, KERNEL_CODE_DESCRIPTOR,
    KERNEL_DATA_DESCRIPTOR,
};
use axiom_os::kernel::interrupts::{init as idt_init, IdtEntry, IDT_LIMIT};
use axiom_os::kernel::memory::{
    BitmapAllocator, BootInfo, FrameAllocator, MemoryMapEntry, PhysFrame, BOOT_INFO_MAGIC,
};

fn entry(base: u64, length: u64, region_type: u32) -> MemoryMapEntry {
    MemoryMapEntry { base, length, region_type, acpi_extended_attributes: 1 }
}

/// The seven E820 entries that QEMU's BIOS reports for 128 MiB of RAM.
fn qemu_map() -> Vec<MemoryMapEntry> {
    vec![
        entry(0x0, 0x9fc00, 1),
        entry(0x9fc00, 0x400, 2),
        entry(0xf0000, 0x10000, 2),
        entry(0x100000, 0x7ee0000, 1),
        entry(0x7fe0000, 0x20000, 2),
        entry(0xfffc0000, 0x40000, 2),
        entry(0xfd00000000, 0x300000000, 2),
    ]
}

#[test]
fn boot_info_magic() {
    let mut info = BootInfo {
        magic: 0xC0DEB007,
        version: 1,
        memory_map_ptr: 0x6020,
        memory_map_len: 7,
        memory_map_entry_size: 24,
    };
    assert!(info.is_verified());
    assert_eq!(BOOT_INFO_MAGIC, 0xC0DEB007);
    info.magic = 0;
    assert!(!info.is_verified());
}

#[test]
fn frame_allocator_skips_reserved_low_memory() {
    let mut a = FrameAllocator::new(qemu_map());
    let f1 = a.allocate_frame().unwrap();
    let f2 = a.allocate_frame().unwrap();
    let f3 = a.allocate_frame().unwrap();
    assert_eq!(f1.start_address, 0x0020_0000);
    assert_eq!(f2.start_address, 0x0020_1000);
    assert_eq!(f3.start_address, 0x0020_2000);
}

#[test]
fn frame_allocator_reserved_regions() {
    assert!(FrameAllocator::is_reserved(0));
    assert!(FrameAllocator::is_reserved(0xB8000));
    assert!(FrameAllocator::is_reserved(0x1FFFFF));
    assert!(!FrameAllocator::is_reserved(0x200000));
}

#[test]
fn frame_allocator_aligns_and_exhausts() {
    // One usable region from an unaligned base, two frames long after alignment.
    let mut a = FrameAllocator::new(vec![entry(0x300010, 0x3000, 1), entry(0x400000, 0x1000, 3)]);
    assert_eq!(a.allocate_frame().unwrap().start_address, 0x301000);
    assert_eq!(a.allocate_frame().unwrap().start_address, 0x302000);
    assert!(a.allocate_frame().is_none());
    assert!(a.allocate_frame().is_none());
}

#[test]
fn memory_ceiling_is_highest_usable_end() {
    let a = FrameAllocator::new(qemu_map());
    assert_eq!(a.discover_memory_ceiling(), 0x7fe0000);
    let empty = FrameAllocator::new(vec![entry(0x1000, 0x1000, 2)]);
    assert_eq!(empty.discover_memory_ceiling(), 0);
}

#[test]
fn bitmap_allocator_reuses_freed_frame() {
    let boot = FrameAllocator::new(qemu_map());
    let mut bitmap = BitmapAllocator::bootstrap(boot);
    assert_eq!(bitmap.total_frames, 0x7fe0);

    // Frame 512 (0x200000) first, then 513.
    let frame1 = bitmap.allocate_frame().unwrap();
    assert_eq!(frame1.start_address, 0x200000);
    let frame2 = bitmap.allocate_frame().unwrap();
    assert_eq!(frame2.start_address, 0x201000);

    // Deallocating the first frame makes it the lowest free frame again.
    bitmap.deallocate_frame(frame1);
    assert!(bitmap.is_frame_free(512));
    let frame3 = bitmap.allocate_frame().unwrap();
    assert_eq!(frame3.start_address, 0x200000);
    assert!(!bitmap.is_frame_free(512));
}

#[test]
fn bitmap_bootstrap_keeps_quarantine_reserved() {
    let boot = FrameAllocator::new(qemu_map());
    let bitmap = BitmapAllocator::bootstrap(boot);
    assert!(!bitmap.is_frame_free(0));
    assert!(!bitmap.is_frame_free(511));
    assert!(bitmap.is_frame_free(512));
    assert!(bitmap.is_frame_free(0x7fdf));
    assert!(!bitmap.is_frame_free(0x7fe0));
    // Frames 0..=511 are bytes 0..=63, all reserved; byte 64 is all free.
    assert_eq!(bitmap.read_byte(0), 0xFF);
    assert_eq!(bitmap.read_byte(63), 0xFF);
    assert_eq!(bitmap.read_byte(64), 0x00);
    assert_eq!(bitmap.read_byte(1_000_000), 0);
}

#[test]
fn bitmap_allocator_exhausts() {
    let boot = FrameAllocator::new(vec![entry(0x200000, 0x3000, 1)]);
    let mut bitmap = BitmapAllocator::bootstrap(boot);
    assert_eq!(bitmap.total_frames, 515);
    assert_eq!(bitmap.read_byte(64), 0b1111_1000);
    assert_eq!(bitmap.allocate_frame().unwrap().start_address, 0x200000);
    assert_eq!(bitmap.allocate_frame().unwrap().start_address, 0x201000);
    assert_eq!(bitmap.allocate_frame().unwrap().start_address, 0x202000);
    assert!(bitmap.allocate_frame().is_none());
    // Past the last frame, deallocation does nothing.
    bitmap.deallocate_frame(PhysFrame { start_address: 0x900000 });
    assert!(bitmap.allocate_frame().is_none());
}

#[test]
fn tss_descriptor_encoding() {
    let base: u64 = 0x1234_5678_9ABC_DEF0;
    let limit: u64 = 103;
    let (low, high) = encode_tss_descriptor(base, limit);
    let expected_low = (limit & 0xFFFF)
        | ((base & 0xFFFFFF) << 16)
        | (0b1001 << 40)
        | (1 << 47)
        | (((limit >> 16) & 0x0F) << 48)
        | (((base >> 24) & 0xFF) << 56);
    assert_eq!(low, expected_low);
    assert_eq!(high, 0x1234_5678);
    assert_eq!(low, 0x9A00_89BC_DEF0_0067);
}

#[test]
fn gdt_setup() {
    let setup = gdt_init(0x10_0000, 0x20_0000, 0x30_0000);
    assert_eq!(setup.tss.interrupt_stack_table[0], 0x10_4000);
    assert_eq!(setup.tss.interrupt_stack_table[1], 0);
    assert_eq!(setup.gdt[0], 0);
    assert_eq!(setup.gdt[1], KERNEL_CODE_DESCRIPTOR);
    assert_eq!(setup.gdt[2], KERNEL_DATA_DESCRIPTOR);
    assert_eq!(setup.gdt[3], 0x0000_8920_0000_0067);
    assert_eq!(setup.gdt[4], 0);
    assert_eq!(setup.gdtr.limit, GDT_LIMIT);
    assert_eq!(GDT_LIMIT, 39);
    assert_eq!(setup.gdtr.base, 0x30_0000);
    let tss = TaskStateSegment::new();
    assert_eq!(tss.interrupt_stack_table, [0; 7]);
    assert_eq!(tss.iomap_base, 0);
}

#[test]
fn idt_gate_encoding() {
    let mut e = IdtEntry::empty();
    assert_eq!(e.attributes, 0);
    e.set_handler(0x1122_3344_5566_7788);
    assert_eq!(e.offset_low, 0x7788);
    assert_eq!(e.offset_mid, 0x5566);
    assert_eq!(e.offset_high, 0x1122_3344);
    assert_eq!(e.segment_selector, 0x08);
    assert_eq!(e.attributes, 0x8E);
    assert_eq!(e.ist, 0);
}

#[test]
fn idt_setup() {
    let setup = idt_init(0xAAAA_0000, 0xBBBB_0000, 0x5000);
    assert_eq!(setup.idt.len(), 256);
    assert_eq!(setup.idt[3].offset_low, 0x0000);
    assert_eq!(setup.idt[3].offset_mid, 0xAAAA);
    assert_eq!(setup.idt[3].ist, 0);
    assert_eq!(setup.idt[8].offset_mid, 0xBBBB);
    assert_eq!(setup.idt[8].ist, 1);
    assert_eq!(setup.idt[0].attributes, 0);
    assert_eq!(setup.idt[255].attributes, 0);
    assert_eq!(setup.idtr.limit, IDT_LIMIT);
    assert_eq!(IDT_LIMIT, 4095);
    assert_eq!(setup.idtr.base, 0x5000);
}

#[test]
fn hex_rendering() {
    assert_eq!(hex_digits_64(0x200000), b"0000000000200000".to_vec());
    assert_eq!(hex_digits_64(0xDEAD_BEEF_0123_4567), b"DEADBEEF01234567".to_vec());
    assert_eq!(hex_digit(11), b'B');
    assert_eq!(hex_byte_digits(0x107), (b'0', b'7'));
    assert_eq!(hex_byte_digits(7), (b'0', b'7'));
    assert_eq!(hex_byte_digits(0xAB), (b'A', b'B'));
}

#[test]
fn bitmap_never_releases_reserved_frames() {
    let boot = FrameAllocator::new(qemu_map());
    let mut bitmap = BitmapAllocator::bootstrap(boot);
    bitmap.deallocate_frame(PhysFrame { start_address: 0 });
    bitmap.deallocate_frame(PhysFrame { start_address: 0x1F_F000 });
    assert!(!bitmap.is_frame_free(0));
    assert!(!bitmap.is_frame_free(511));
    assert_eq!(bitmap.allocate_frame().unwrap().start_address, 0x200000);
}

#[test]
fn bitmap_frees_only_whole_frames_of_usable_ram() {
    let boot = FrameAllocator::new(vec![entry(0x200800, 0x10000, 1)]);
    let mut bitmap = BitmapAllocator::bootstrap(boot);
    assert_eq!(bitmap.total_frames, 528);
    // Frame 512 is only half inside usable RAM.
    assert!(!bitmap.is_frame_free(512));
    assert!(bitmap.is_frame_free(513));
    assert!(bitmap.is_frame_free(527));
    assert_eq!(bitmap.allocate_frame().unwrap().start_address, 0x201000);
}

#[test]
fn bitmap_free_undoes_allocation() {
    let boot = FrameAllocator::new(qemu_map());
    let mut bitmap = BitmapAllocator::bootstrap(boot);
    bitmap.allocate_frame().unwrap();
    let before = bitmap.bitmap.clone();
    let total = bitmap.total_frames;
    let frame = bitmap.allocate_frame().unwrap();
    assert_eq!(frame.start_address, 0x201000);
    assert_ne!(bitmap.bitmap, before);
    bitmap.deallocate_frame(frame);
    assert_eq!(bitmap.bitmap, before);
    assert_eq!(bitmap.total_frames, total);
    for b in 0..before.len() {
        assert_eq!(bitmap.read_byte(b), before[b]);
    }
}
