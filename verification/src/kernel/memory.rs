//! Physical memory: the firmware (E820) memory map, the boot-time frame
//! allocator that walks it, and the bitmap allocator that takes over from it.
//!
//! Memory ranges are half-open: `[start, end)`.

use vstd::prelude::*;

verus! {

/// The boot information block that the bootloader hands to the kernel.
pub struct BootInfo {
    pub magic: u32,
    pub version: u32,
    pub memory_map_ptr: u64,
    pub memory_map_len: u64,
    pub memory_map_entry_size: u64,
}

/// The magic number of a valid boot information block.
pub const BOOT_INFO_MAGIC: u32 = 0xC0DE_B007;

impl BootInfo {
    /// Whether the block carries the Axiom boot magic.
    pub fn is_verified(&self) -> (ok: bool)
        ensures
            ok == (self.magic == BOOT_INFO_MAGIC),
    {
        self.magic == BOOT_INFO_MAGIC
    }
}

/// One entry of the firmware memory map.
#[derive(Debug, Clone, Copy)]
pub struct MemoryMapEntry {
    pub base: u64,
    pub length: u64,
    pub region_type: u32,
    pub acpi_extended_attributes: u32,
}

/// The size of a physical frame.
pub const PAGE_SIZE: u64 = 4096;

/// The E820 region type of usable RAM.
pub const E820_USABLE: u32 = 1;

/// A 4 KiB physical frame, by its start address.
#[derive(Debug, Clone, Copy)]
pub struct PhysFrame {
    pub start_address: u64,
}

/// Whether the firmware reports `e` as usable RAM.
pub open spec fn usable(e: MemoryMapEntry) -> bool {
    e.region_type == E820_USABLE
}

/// The exclusive end of the region that `e` describes.
pub open spec fn region_end(e: MemoryMapEntry) -> int {
    e.base + e.length
}

/// A usable region ends far enough below 2^64 that walking its frames
/// cannot overflow (physical addresses are far smaller in practice).
pub open spec fn entry_in_range(e: MemoryMapEntry) -> bool {
    usable(e) ==> region_end(e) <= u64::MAX - 2 * PAGE_SIZE
}

/// `x` rounded up to a multiple of the page size.
pub open spec fn align_up(x: int) -> int {
    if x % PAGE_SIZE as int == 0 {
        x
    } else {
        x + PAGE_SIZE - x % PAGE_SIZE as int
    }
}

/// The regions that Axiom owns before the allocator runs: the low-memory
/// quarantine, the VGA buffer, and the kernel image.
pub open spec fn reserved_regions() -> Seq<(u64, u64)> {
    seq![(0x0000_0000u64, 0x0010_0000u64), (0x000B_8000u64, 0x000B_9000u64), (0x0010_0000u64, 0x0020_0000u64)]
}

/// Whether `address` lies in a reserved region.
pub open spec fn reserved(address: u64) -> bool {
    exists|i: int|
        0 <= i < reserved_regions().len() && reserved_regions()[i].0 <= address
            < #[trigger] reserved_regions()[i].1
}

/// The reservations together cover exactly the first 2 MiB.
pub proof fn law_reserved_is_low_two_mib(address: u64)
    ensures
        reserved(address) <==> address < 0x0020_0000,
{
    if address < 0x0010_0000 {
        assert(reserved_regions()[0].0 <= address < reserved_regions()[0].1);
    } else if address < 0x0020_0000 {
        assert(reserved_regions()[2].0 <= address < reserved_regions()[2].1);
    }
}

struct ReservedRegion {
    start: u64,
    end: u64,
}

/// The highest end of a usable region of `entries`, or 0 if none is usable.
pub open spec fn memory_ceiling(entries: Seq<MemoryMapEntry>) -> int
    decreases entries.len(),
{
    if entries.len() == 0 {
        0
    } else {
        let rest = memory_ceiling(entries.drop_last());
        let last = entries.last();
        if usable(last) && region_end(last) > rest {
            region_end(last)
        } else {
            rest
        }
    }
}

/// Where the walk of entry `i` starts: the saved address for the current
/// entry, when one is saved; otherwise the entry's base.
pub open spec fn walk_start(entries: Seq<MemoryMapEntry>, index: int, next: u64, i: int) -> int {
    if i == index && next != 0 {
        next as int
    } else {
        entries[i].base as int
    }
}

/// `address` is a frame that the boot allocator, positioned at entry `index`
/// with saved address `next`, can still hand out from entry `i`.
pub open spec fn candidate(
    entries: Seq<MemoryMapEntry>,
    index: int,
    next: u64,
    i: int,
    address: int,
) -> bool {
    &&& index <= i < entries.len()
    &&& usable(entries[i])
    &&& address % PAGE_SIZE as int == 0
    &&& align_up(walk_start(entries, index, next, i)) <= address
    &&& address + PAGE_SIZE <= region_end(entries[i])
    &&& !reserved(address as u64)
}

/// Walk order: entry by entry, by address within an entry.
pub open spec fn walks_before(i: int, a: int, j: int, b: int) -> bool {
    i < j || (i == j && a < b)
}

/// `(i, address)` is the first candidate in walk order.
pub open spec fn first_candidate(
    entries: Seq<MemoryMapEntry>,
    index: int,
    next: u64,
    i: int,
    address: int,
) -> bool {
    &&& candidate(entries, index, next, i, address)
    &&& forall|j: int, b: int|
        #![trigger candidate(entries, index, next, j, b)]
        walks_before(j, b, i, address) ==> !candidate(entries, index, next, j, b)
}

/// Every frame that the boot allocator hands out is 4 KiB aligned, at or
/// above 2 MiB, and lies wholly inside a region that the firmware reports
/// as usable RAM.
pub proof fn law_boot_frames_are_usable_and_unreserved(
    entries: Seq<MemoryMapEntry>,
    index: int,
    next: u64,
    i: int,
    address: int,
)
    requires
        0 <= index,
        index < entries.len() && next != 0 ==> entries[index].base <= next,
        first_candidate(entries, index, next, i, address),
    ensures
        address % PAGE_SIZE as int == 0,
        address >= 0x0020_0000,
        0 <= i < entries.len(),
        usable(entries[i]),
        entries[i].base <= address,
        address + PAGE_SIZE <= region_end(entries[i]),
{
    law_reserved_is_low_two_mib(address as u64);
    let start = walk_start(entries, index, next, i);
    if i == index && next != 0 {
    } else {
        assert(align_up(start) >= start);
    }
}

/// The boot allocator never goes back: the frame that a call hands out
/// comes strictly after, in walk order, the frame the previous call handed out.
pub proof fn law_boot_allocation_advances(
    entries: Seq<MemoryMapEntry>,
    index: int,
    next: u64,
    i1: int,
    a1: int,
    i2: int,
    a2: int,
)
    requires
        first_candidate(entries, index, next, i1, a1),
        0 <= a1 + PAGE_SIZE <= u64::MAX,
        first_candidate(entries, i1, (a1 + PAGE_SIZE) as u64, i2, a2),
    ensures
        walks_before(i1, a1, i2, a2),
{
    if i2 == i1 {
        assert(align_up(a1 + PAGE_SIZE) >= a1 + PAGE_SIZE);
    }
}

/// The start address of a frame handed out, if any.
pub open spec fn frame_address(r: Option<PhysFrame>) -> Option<u64> {
    match r {
        Some(frame) => Some(frame.start_address),
        None => None,
    }
}

/// One call of the boot allocator, from position `(index, next)` to
/// `(index2, next2)`, handing out `r`: the first candidate in walk order,
/// after which the walk resumes one page on; or `None` when no candidate is
/// left, after which the walk stands at the end of the map.
pub open spec fn boot_step(
    entries: Seq<MemoryMapEntry>,
    index: int,
    next: u64,
    r: Option<u64>,
    index2: int,
    next2: u64,
) -> bool {
    match r {
        Some(address) => {
            &&& first_candidate(entries, index, next, index2, address as int)
            &&& next2 == address + PAGE_SIZE
        },
        None => {
            &&& forall|j: int, b: int| !candidate(entries, index, next, j, b)
            &&& index2 == entries.len()
            &&& next2 == 0
        },
    }
}

/// After handing out `(i, a)`, the candidates left are exactly those that
/// came after it.
proof fn lemma_boot_resume(
    entries: Seq<MemoryMapEntry>,
    index: int,
    next: u64,
    i: int,
    a: int,
    next2: u64,
)
    requires
        first_candidate(entries, index, next, i, a),
        next2 == a + PAGE_SIZE,
    ensures
        forall|j: int, b: int|
            #[trigger] candidate(entries, i, next2, j, b) == (candidate(entries, index, next, j, b)
                && walks_before(i, a, j, b)),
{
    assert forall|j: int, b: int|
        #[trigger] candidate(entries, i, next2, j, b) == (candidate(entries, index, next, j, b)
            && walks_before(i, a, j, b)) by {
        if j == i {
            assert(next2 as int % PAGE_SIZE as int == 0);
            assert(align_up(walk_start(entries, i, next2, j)) == a + PAGE_SIZE);
            if b % PAGE_SIZE as int == 0 {
                assert(a < b <==> a + PAGE_SIZE <= b);
            }
        }
    }
}

/// The position that the walk has got to after `t` calls: the last frame
/// handed out, if any.
pub open spec fn last_handed(positions: Seq<(int, u64)>, results: Seq<Option<u64>>, t: int) -> Option<(int, int)>
    decreases t,
{
    if t <= 0 {
        None
    } else {
        match results[t - 1] {
            Some(a) => Some((positions[t].0, a as int)),
            None => last_handed(positions, results, t - 1),
        }
    }
}

/// `(j, b)` comes after the position `last` in walk order.
pub open spec fn comes_after(last: Option<(int, int)>, j: int, b: int) -> bool {
    match last {
        Some((i, a)) => walks_before(i, a, j, b),
        None => true,
    }
}

/// The frame `b` of entry `j` is handed out by one of the first `t` calls.
pub open spec fn handed_out_before(
    positions: Seq<(int, u64)>,
    results: Seq<Option<u64>>,
    t: int,
    j: int,
    b: int,
) -> bool {
    exists|u: int|
        0 <= u < t && #[trigger] results[u] == Some(b as u64) && positions[u + 1].0 == j
}

proof fn lemma_boot_trace(
    entries: Seq<MemoryMapEntry>,
    positions: Seq<(int, u64)>,
    results: Seq<Option<u64>>,
    t: int,
)
    requires
        positions.len() == results.len() + 1,
        positions[0] == (0int, 0u64),
        forall|u: int|
            0 <= u < results.len() ==> boot_step(
                entries,
                positions[u].0,
                positions[u].1,
                #[trigger] results[u],
                positions[u + 1].0,
                positions[u + 1].1,
            ),
        0 <= t <= results.len(),
    ensures
        forall|j: int, b: int|
            #[trigger] candidate(entries, positions[t].0, positions[t].1, j, b) == (candidate(
                entries,
                0,
                0,
                j,
                b,
            ) && comes_after(last_handed(positions, results, t), j, b)),
        forall|j: int, b: int|
            #[trigger] candidate(entries, 0, 0, j, b) && !comes_after(last_handed(positions, results, t), j, b)
                ==> handed_out_before(positions, results, t, j, b),
        forall|u: int|
            0 <= u < t ==> (#[trigger] results[u] matches Some(a) ==> candidate(
                entries,
                0,
                0,
                positions[u + 1].0,
                a as int,
            ) && !comes_after(last_handed(positions, results, t), positions[u + 1].0, a as int)),
    decreases t,
{
    if t > 0 {
        let u = t - 1;
        lemma_boot_trace(entries, positions, results, u);
        let last = last_handed(positions, results, u);
        assert(boot_step(entries, positions[u].0, positions[u].1, results[u], positions[t].0, positions[t].1));
        match results[u] {
            Some(a) => {
                let i = positions[t].0;
                let ai = a as int;
                lemma_boot_resume(entries, positions[u].0, positions[u].1, i, ai, positions[t].1);
                assert(candidate(entries, positions[u].0, positions[u].1, i, ai));
                assert(comes_after(last, i, ai));
                assert forall|j: int, b: int|
                    #[trigger] candidate(entries, 0, 0, j, b) && !comes_after(
                        last_handed(positions, results, t),
                        j,
                        b,
                    ) implies handed_out_before(positions, results, t, j, b) by {
                    if j == i && b == ai {
                        assert(results[u] == Some(b as u64));
                    } else {
                        if comes_after(last, j, b) {
                            assert(candidate(entries, positions[u].0, positions[u].1, j, b));
                        }
                        let w = choose|w: int|
                            0 <= w < u && #[trigger] results[w] == Some(b as u64) && positions[w + 1].0 == j;
                        assert(0 <= w < t && results[w] == Some(b as u64) && positions[w + 1].0 == j);
                    }
                }
            },
            None => {
                assert forall|j: int, b: int|
                    #[trigger] candidate(entries, 0, 0, j, b) && !comes_after(
                        last_handed(positions, results, t),
                        j,
                        b,
                    ) implies handed_out_before(positions, results, t, j, b) by {
                    let w = choose|w: int|
                        0 <= w < u && #[trigger] results[w] == Some(b as u64) && positions[w + 1].0 == j;
                    assert(0 <= w < t && results[w] == Some(b as u64) && positions[w + 1].0 == j);
                }
            },
        }
    }
}

proof fn lemma_boot_exhausted(
    entries: Seq<MemoryMapEntry>,
    positions: Seq<(int, u64)>,
    results: Seq<Option<u64>>,
    t: int,
    u: int,
)
    requires
        positions.len() == results.len() + 1,
        forall|w: int|
            0 <= w < results.len() ==> boot_step(
                entries,
                positions[w].0,
                positions[w].1,
                #[trigger] results[w],
                positions[w + 1].0,
                positions[w + 1].1,
            ),
        0 <= t < u < results.len(),
        results[t] is None,
    ensures
        positions[u].0 == entries.len(),
        results[u] is None,
    decreases u - t,
{
    if u > t + 1 {
        lemma_boot_exhausted(entries, positions, results, t, u - 1);
    }
    assert(boot_step(entries, positions[u - 1].0, positions[u - 1].1, results[u - 1], positions[u].0, positions[u].1));
    assert(boot_step(entries, positions[u].0, positions[u].1, results[u], positions[u + 1].0, positions[u + 1].1));
    if results[u] is Some {
        let a = results[u]->0;
        assert(candidate(entries, positions[u].0, positions[u].1, positions[u + 1].0, a as int));
    }
}

/// The boot allocator hands out the usable, unreserved frames of the map in
/// map order, one per call, with no gap and no repeat, and once it answers
/// `None` it answers `None` for ever. Call `t` goes from walk position
/// `positions[t]` to `positions[t + 1]` and returns `results[t]`; the walk
/// starts at the beginning of the map, as `FrameAllocator::new` leaves it.
pub proof fn law_boot_allocator_enumerates_frames(
    entries: Seq<MemoryMapEntry>,
    positions: Seq<(int, u64)>,
    results: Seq<Option<u64>>,
)
    requires
        positions.len() == results.len() + 1,
        positions[0] == (0int, 0u64),
        forall|u: int|
            0 <= u < results.len() ==> boot_step(
                entries,
                positions[u].0,
                positions[u].1,
                #[trigger] results[u],
                positions[u + 1].0,
                positions[u + 1].1,
            ),
    ensures
        // Every frame handed out is a frame of the map (aligned, unreserved,
        // wholly inside a usable region), at entry `positions[t + 1].0`.
        forall|t: int|
            0 <= t < results.len() ==> (#[trigger] results[t] matches Some(a) ==> candidate(
                entries,
                0,
                0,
                positions[t + 1].0,
                a as int,
            )),
        // In strictly increasing walk order.
        forall|t1: int, t2: int|
            0 <= t1 < t2 < results.len() && #[trigger] results[t1] is Some && #[trigger] results[t2] is Some
                ==> walks_before(
                positions[t1 + 1].0,
                results[t1]->0 as int,
                positions[t2 + 1].0,
                results[t2]->0 as int,
            ),
        // With no gap: every frame of the map before one handed out was handed out earlier.
        forall|t: int, j: int, b: int|
            0 <= t < results.len() && #[trigger] results[t] is Some && #[trigger] candidate(entries, 0, 0, j, b)
                && walks_before(j, b, positions[t + 1].0, results[t]->0 as int) ==> handed_out_before(
                positions,
                results,
                t,
                j,
                b,
            ),
        // `None` only once every frame of the map was handed out, and for ever after.
        forall|t: int, j: int, b: int|
            0 <= t < results.len() && #[trigger] results[t] is None && #[trigger] candidate(entries, 0, 0, j, b)
                ==> handed_out_before(positions, results, t, j, b),
        forall|t: int, u: int|
            0 <= t < u < results.len() && #[trigger] results[t] is None ==> #[trigger] results[u] is None,
{
    assert forall|t: int|
        0 <= t < results.len() implies (#[trigger] results[t] matches Some(a) ==> candidate(
            entries,
            0,
            0,
            positions[t + 1].0,
            a as int,
        )) by {
        lemma_boot_trace(entries, positions, results, t + 1);
    }
    assert forall|t1: int, t2: int|
        0 <= t1 < t2 < results.len() && #[trigger] results[t1] is Some && #[trigger] results[t2] is Some
            implies walks_before(
            positions[t1 + 1].0,
            results[t1]->0 as int,
            positions[t2 + 1].0,
            results[t2]->0 as int,
        ) by {
        lemma_boot_trace(entries, positions, results, t2);
        let last = last_handed(positions, results, t2);
        assert(boot_step(entries, positions[t2].0, positions[t2].1, results[t2], positions[t2 + 1].0, positions[t2 + 1].1));
        assert(candidate(entries, positions[t2].0, positions[t2].1, positions[t2 + 1].0, results[t2]->0 as int));
        assert(results[t1] matches Some(a) ==> !comes_after(last, positions[t1 + 1].0, a as int));
    }
    assert forall|t: int, j: int, b: int|
        0 <= t < results.len() && #[trigger] results[t] is Some && #[trigger] candidate(entries, 0, 0, j, b)
            && walks_before(j, b, positions[t + 1].0, results[t]->0 as int) implies handed_out_before(
            positions,
            results,
            t,
            j,
            b,
        ) by {
        lemma_boot_trace(entries, positions, results, t);
        assert(boot_step(entries, positions[t].0, positions[t].1, results[t], positions[t + 1].0, positions[t + 1].1));
        if comes_after(last_handed(positions, results, t), j, b) {
            assert(candidate(entries, positions[t].0, positions[t].1, j, b));
        }
    }
    assert forall|t: int, j: int, b: int|
        0 <= t < results.len() && #[trigger] results[t] is None && #[trigger] candidate(entries, 0, 0, j, b)
            implies handed_out_before(positions, results, t, j, b) by {
        lemma_boot_trace(entries, positions, results, t);
        assert(boot_step(entries, positions[t].0, positions[t].1, results[t], positions[t + 1].0, positions[t + 1].1));
        if comes_after(last_handed(positions, results, t), j, b) {
            assert(candidate(entries, positions[t].0, positions[t].1, j, b));
        }
    }
    assert forall|t: int, u: int|
        0 <= t < u < results.len() && #[trigger] results[t] is None implies #[trigger] results[u] is None by {
        lemma_boot_exhausted(entries, positions, results, t, u);
    }
}

/// The boot allocator misses no frame: before it first answers `None`, it
/// has handed out every 4 KiB-aligned address at or above 2 MiB whose page
/// lies wholly inside a region that the firmware reports as usable RAM.
pub proof fn law_boot_allocator_hands_out_every_usable_frame(
    entries: Seq<MemoryMapEntry>,
    positions: Seq<(int, u64)>,
    results: Seq<Option<u64>>,
    t: int,
    i: int,
    a: u64,
)
    requires
        positions.len() == results.len() + 1,
        positions[0] == (0int, 0u64),
        forall|u: int|
            0 <= u < results.len() ==> boot_step(
                entries,
                positions[u].0,
                positions[u].1,
                #[trigger] results[u],
                positions[u + 1].0,
                positions[u + 1].1,
            ),
        0 <= t < results.len(),
        results[t] is None,
        0 <= i < entries.len(),
        entries[i].region_type == 1,
        a % 4096 == 0,
        a >= 0x0020_0000,
        entries[i].base <= a,
        a + 4096 <= entries[i].base + entries[i].length,
    ensures
        exists|u: int| 0 <= u < t && #[trigger] results[u] == Some(a) && positions[u + 1].0 == i,
{
    let base = entries[i].base as int;
    let address = a;
    let a = a as int;
    assert(walk_start(entries, 0, 0, i) == base);
    assert(align_up(base) <= a) by {
        if base % 4096 != 0 {
            assert(a >= base + 4096 - base % 4096) by (nonlinear_arith)
                requires
                    a % 4096 == 0,
                    base <= a,
                    base % 4096 != 0,
                    base >= 0,
            ;
        }
    }
    law_reserved_is_low_two_mib(address);
    assert(candidate(entries, 0, 0, i, a as int));
    law_boot_allocator_enumerates_frames(entries, positions, results);
    assert(results[t] is None && candidate(entries, 0, 0, i, a as int));
    assert(handed_out_before(positions, results, t, i, a as int));
}

/// A frame allocator that walks the firmware memory map once, in order,
/// handing out each unreserved 4 KiB frame of usable RAM.
pub struct FrameAllocator {
    memory_map: Vec<MemoryMapEntry>,
    current_entry_index: usize,
    next_free_address: u64,
}

impl FrameAllocator {
    /// The memory map being walked.
    pub closed spec fn entries(&self) -> Seq<MemoryMapEntry> {
        self.memory_map@
    }

    /// The entry being walked.
    pub closed spec fn entry_index(&self) -> int {
        self.current_entry_index as int
    }

    /// The address saved for the entry being walked (0: none saved).
    pub closed spec fn saved_address(&self) -> u64 {
        self.next_free_address
    }

    /// Whether the allocator holds a consistent position in its map.
    pub open spec fn wf(&self) -> bool {
        &&& forall|i: int| 0 <= i < self.entries().len() ==> entry_in_range(#[trigger] self.entries()[i])
        &&& 0 <= self.entry_index() <= self.entries().len()
        &&& self.entry_index() == self.entries().len() ==> self.saved_address() == 0
        &&& self.entry_index() < self.entries().len() && self.saved_address() != 0 ==> {
            &&& usable(self.entries()[self.entry_index()])
            &&& self.entries()[self.entry_index()].base <= self.saved_address()
            &&& self.saved_address() <= region_end(self.entries()[self.entry_index()])
        }
    }

    /// An allocator at the start of `memory_map`.
    pub fn new(memory_map: Vec<MemoryMapEntry>) -> (a: Self)
        requires
            forall|i: int| 0 <= i < memory_map@.len() ==> entry_in_range(#[trigger] memory_map@[i]),
        ensures
            a.wf(),
            a.entries() == memory_map@,
            a.entry_index() == 0,
            a.saved_address() == 0,
    {
        FrameAllocator { memory_map, current_entry_index: 0, next_free_address: 0 }
    }

    /// Whether `address` lies in one of Axiom's reserved regions.
    pub fn is_reserved(address: u64) -> (r: bool)
        ensures
            r == reserved(address),
    {
        let regions = vec![
            ReservedRegion { start: 0x0000_0000, end: 0x0010_0000 },
            ReservedRegion { start: 0x000B_8000, end: 0x000B_9000 },
            ReservedRegion { start: 0x0010_0000, end: 0x0020_0000 },
        ];
        let mut i: usize = 0;
        while i < regions.len()
            invariant
                0 <= i <= regions@.len(),
                regions@.len() == reserved_regions().len(),
                forall|j: int|
                    0 <= j < regions@.len() ==> regions@[j].start == reserved_regions()[j].0
                        && regions@[j].end == reserved_regions()[j].1,
                forall|j: int|
                    0 <= j < i ==> !(reserved_regions()[j].0 <= address < #[trigger] reserved_regions()[j].1),
            decreases regions@.len() - i,
        {
            if address >= regions[i].start && address < regions[i].end {
                assert(reserved_regions()[i as int].0 <= address < reserved_regions()[i as int].1);
                return true;
            }
            i = i + 1;
        }
        false
    }

    /// Hands out the next unreserved frame of usable RAM in walk order, or
    /// `None` once the map is exhausted.
    pub fn allocate_frame(&mut self) -> (r: Option<PhysFrame>)
        requires
            old(self).wf(),
        ensures
            final(self).wf(),
            final(self).entries() == old(self).entries(),
            boot_step(
                old(self).entries(),
                old(self).entry_index(),
                old(self).saved_address(),
                frame_address(r),
                final(self).entry_index(),
                final(self).saved_address(),
            ),
    {
        let ghost entries = self.memory_map@;
        let ghost index0 = self.current_entry_index as int;
        let ghost next0 = self.next_free_address;
        let entry_count = self.memory_map.len();
        while self.current_entry_index < entry_count
            invariant
                self.wf(),
                entries == self.entries(),
                entries == old(self).entries(),
                index0 == old(self).entry_index(),
                next0 == old(self).saved_address(),
                entry_count == entries.len(),
                index0 <= self.entry_index(),
                // The position is where the walk from (index0, next0) has got to.
                self.entry_index() == index0 ==> self.saved_address() == next0,
                self.entry_index() > index0 && self.entry_index() < entries.len() ==> self.saved_address() == 0,
                forall|j: int, b: int|
                    #![trigger candidate(entries, index0, next0, j, b)]
                    j < self.entry_index() ==> !candidate(entries, index0, next0, j, b),
            decreases entry_count - self.current_entry_index,
        {
            let idx = self.current_entry_index;
            let entry = self.memory_map[idx];
            // E820 type 1 is usable RAM.
            if entry.region_type != E820_USABLE {
                self.current_entry_index = idx + 1;
                self.next_free_address = 0;
                continue;
            }
            if self.next_free_address == 0 {
                self.next_free_address = entry.base;
            }
            let ghost start = walk_start(entries, index0, next0, idx as int);
            assert(self.next_free_address == start);
            // Align the address up to the next 4 KiB boundary.
            let mut addr = self.next_free_address;
            let remainder = addr % PAGE_SIZE;
            if remainder != 0 {
                addr = addr + (PAGE_SIZE - remainder);
            }
            let end = entry.base + entry.length;
            assert(addr == align_up(start));
            assert(start <= align_up(start));
            while addr + PAGE_SIZE <= end
                invariant
                    self.wf(),
                    entries == self.entries(),
                    entries == old(self).entries(),
                    index0 == old(self).entry_index(),
                    next0 == old(self).saved_address(),
                    entry_count == entries.len(),
                    idx == self.current_entry_index,
                    idx < entries.len(),
                    entry == entries[idx as int],
                    usable(entry),
                    end == region_end(entry),
                    end <= u64::MAX - 2 * PAGE_SIZE,
                    index0 <= idx,
                    start == walk_start(entries, index0, next0, idx as int),
                    addr % PAGE_SIZE == 0,
                    align_up(start) <= addr,
                    entry.base <= start <= addr,
                    addr <= end + PAGE_SIZE,
                    self.next_free_address != 0 ==> self.next_free_address <= end,
                    forall|j: int, b: int|
                        #![trigger candidate(entries, index0, next0, j, b)]
                        j < idx ==> !candidate(entries, index0, next0, j, b),
                    forall|b: int|
                        #![trigger candidate(entries, index0, next0, idx as int, b)]
                        b < addr ==> !candidate(entries, index0, next0, idx as int, b),
                decreases end - addr,
            {
                let candidate_address = addr;
                addr = addr + PAGE_SIZE;
                self.next_free_address = addr;
                if !Self::is_reserved(candidate_address) {
                    assert(candidate(entries, index0, next0, idx as int, candidate_address as int));
                    assert forall|j: int, b: int|
                        #![trigger candidate(entries, index0, next0, j, b)]
                        walks_before(j, b, idx as int, candidate_address as int) implies !candidate(
                            entries,
                            index0,
                            next0,
                            j,
                            b,
                        ) by {
                        if j == idx {
                            assert(b < candidate_address);
                        }
                    }
                    assert(candidate(
                        old(self).entries(),
                        old(self).entry_index(),
                        old(self).saved_address(),
                        idx as int,
                        candidate_address as int,
                    ));
                    return Some(PhysFrame { start_address: candidate_address });
                }
                assert forall|b: int|
                    #![trigger candidate(entries, index0, next0, idx as int, b)]
                    b < addr implies !candidate(entries, index0, next0, idx as int, b) by {
                    if b > candidate_address && b < addr {
                        assert(b % PAGE_SIZE as int != 0);
                    }
                }
            }
            assert forall|b: int| !#[trigger] candidate(entries, index0, next0, idx as int, b) by {
                if b >= addr {
                }
            }
            self.current_entry_index = idx + 1;
            self.next_free_address = 0;
        }
        None
    }

    /// The highest address reached by usable RAM: the largest end of a
    /// usable region, or 0 when none is usable.
    pub fn discover_memory_ceiling(&self) -> (ceiling: u64)
        requires
            self.wf(),
        ensures
            ceiling == memory_ceiling(self.entries()),
            // The highest end of a usable (type 1) region, or 0 if none is usable.
            forall|i: int|
                0 <= i < self.entries().len() && (#[trigger] self.entries()[i]).region_type == 1
                    ==> self.entries()[i].base + self.entries()[i].length <= ceiling,
            ceiling == 0 || exists|i: int|
                0 <= i < self.entries().len() && (#[trigger] self.entries()[i]).region_type == 1
                    && ceiling == self.entries()[i].base + self.entries()[i].length,
    {
        proof {
            law_memory_ceiling_is_highest_usable_end(self.entries());
        }
        let entry_count = self.memory_map.len();
        let mut highest_usable_address: u64 = 0;
        let mut i: usize = 0;
        while i < entry_count
            invariant
                0 <= i <= entry_count,
                entry_count == self.entries().len(),
                self.wf(),
                highest_usable_address == memory_ceiling(self.entries().subrange(0, i as int)),
            decreases entry_count - i,
        {
            let entry = self.memory_map[i];
            assert(self.entries().subrange(0, i + 1).drop_last() =~= self.entries().subrange(0, i as int));
            assert(entry_in_range(self.entries()[i as int]));
            // Only usable RAM counts.
            if entry.region_type == E820_USABLE {
                let end_address = entry.base + entry.length;
                if end_address > highest_usable_address {
                    highest_usable_address = end_address;
                }
            }
            i = i + 1;
        }
        assert(self.entries().subrange(0, entry_count as int) =~= self.entries());
        highest_usable_address
    }
}


/// Capacity of the frame bitmap: one bit per frame, enough for 4 GiB of RAM.
pub const BITMAP_MAX_BYTES: usize = 131072;

/// The first frame that the firmware may not release: frames below it hold
/// the low-memory quarantine and the kernel image (`[0, 0x200000)`).
pub const FIRST_RELEASABLE_FRAME: usize = 512;

/// Whether frame `f` is marked (reserved or allocated) in `bitmap`.
pub open spec fn frame_marked(bitmap: Seq<u8>, f: int) -> bool {
    bitmap[f / 8] & (1u8 << ((f % 8) as u8)) != 0
}

/// The first frame that lies wholly inside the region of `e`: its base
/// rounded up to a page.
pub open spec fn first_whole_frame(e: MemoryMapEntry) -> int {
    (e.base + PAGE_SIZE - 1) / (PAGE_SIZE as int)
}

/// The frame just past the last one that lies wholly inside the region of
/// `e`: its end rounded down to a page.
pub open spec fn end_whole_frame(e: MemoryMapEntry) -> int {
    region_end(e) / (PAGE_SIZE as int)
}

/// Whether a usable region among the first `n` entries wholly contains frame `f`.
pub open spec fn released_by(entries: Seq<MemoryMapEntry>, n: int, f: int) -> bool {
    exists|i: int|
        0 <= i < n && usable(#[trigger] entries[i]) && first_whole_frame(entries[i]) <= f
            < end_whole_frame(entries[i])
}

/// A frame that a usable region wholly contains is usable RAM: the whole
/// page `[f * 4096, (f + 1) * 4096)` lies inside that region.
pub proof fn law_released_frame_is_usable_ram(entries: Seq<MemoryMapEntry>, f: int)
    requires
        released_by(entries, entries.len() as int, f),
    ensures
        exists|i: int|
            0 <= i < entries.len() && usable(#[trigger] entries[i]) && entries[i].base <= f
                * PAGE_SIZE && (f + 1) * PAGE_SIZE <= region_end(entries[i]),
{
    let i = choose|i: int|
        0 <= i < entries.len() && usable(#[trigger] entries[i]) && first_whole_frame(entries[i]) <= f
            < end_whole_frame(entries[i]);
    let e = entries[i];
    let b = e.base as int;
    let end = region_end(e);
    assert(b <= f * 4096 && (f + 1) * 4096 <= end) by (nonlinear_arith)
        requires
            (b + 4095) / 4096 <= f,
            f < end / 4096,
            b >= 0,
            end >= 0,
    ;
}

proof fn lemma_released_step(entries: Seq<MemoryMapEntry>, n: int, f: int)
    requires
        0 <= n < entries.len(),
    ensures
        released_by(entries, n + 1, f) == (released_by(entries, n, f) || (usable(entries[n])
            && first_whole_frame(entries[n]) <= f < end_whole_frame(entries[n]))),
{
    if released_by(entries, n + 1, f) {
        let i = choose|i: int|
            0 <= i < n + 1 && usable(#[trigger] entries[i]) && first_whole_frame(entries[i]) <= f
                < end_whole_frame(entries[i]);
        if i < n {
            assert(released_by(entries, n, f));
        }
    }
    if released_by(entries, n, f) {
        let i = choose|i: int|
            0 <= i < n && usable(#[trigger] entries[i]) && first_whole_frame(entries[i]) <= f
                < end_whole_frame(entries[i]);
        assert(0 <= i < n + 1);
    }
}

proof fn lemma_ceiling_covers(entries: Seq<MemoryMapEntry>, i: int)
    requires
        0 <= i < entries.len(),
        usable(entries[i]),
    ensures
        region_end(entries[i]) <= memory_ceiling(entries),
    decreases entries.len(),
{
    if i < entries.len() - 1 {
        lemma_ceiling_covers(entries.drop_last(), i);
    }
}

/// The memory ceiling is the highest end of a region that the firmware
/// reports as usable RAM (type 1), or 0 when no region is usable: no usable
/// region ends above it, and a nonzero ceiling is the end of one.
pub proof fn law_memory_ceiling_is_highest_usable_end(entries: Seq<MemoryMapEntry>)
    ensures
        forall|i: int|
            0 <= i < entries.len() && (#[trigger] entries[i]).region_type == 1 ==> entries[i].base
                + entries[i].length <= memory_ceiling(entries),
        memory_ceiling(entries) == 0 || exists|i: int|
            0 <= i < entries.len() && (#[trigger] entries[i]).region_type == 1 && memory_ceiling(
                entries,
            ) == entries[i].base + entries[i].length,
    decreases entries.len(),
{
    if entries.len() > 0 {
        let rest = entries.drop_last();
        law_memory_ceiling_is_highest_usable_end(rest);
        let n = entries.len() - 1;
        assert forall|i: int|
            0 <= i < entries.len() && (#[trigger] entries[i]).region_type == 1 implies entries[i].base
                + entries[i].length <= memory_ceiling(entries) by {
            if i < n {
                assert(rest[i] == entries[i]);
            }
        }
        if memory_ceiling(entries) != 0 {
            if memory_ceiling(entries) == memory_ceiling(rest) {
                let i = choose|i: int|
                    0 <= i < rest.len() && (#[trigger] rest[i]).region_type == 1 && memory_ceiling(
                        rest,
                    ) == rest[i].base + rest[i].length;
                assert(entries[i] == rest[i]);
            } else {
                assert(entries[n].region_type == 1);
            }
        }
    }
}

proof fn lemma_ceiling_is_an_end(entries: Seq<MemoryMapEntry>)
    requires
        forall|i: int| 0 <= i < entries.len() ==> entry_in_range(#[trigger] entries[i]),
    ensures
        0 <= memory_ceiling(entries) <= u64::MAX,
    decreases entries.len(),
{
    if entries.len() > 0 {
        let rest = entries.drop_last();
        assert forall|i: int| 0 <= i < rest.len() implies entry_in_range(#[trigger] rest[i]) by {
            assert(rest[i] == entries[i]);
        }
        lemma_ceiling_is_an_end(rest);
        assert(entry_in_range(entries[entries.len() - 1]));
    }
}

proof fn lemma_byte_bits(b: u8, i: u8, j: u8)
    requires
        i < 8,
        j < 8,
    ensures
        ((b & !(1u8 << i)) & (1u8 << j) != 0) == (i != j && b & (1u8 << j) != 0),
        ((b | (1u8 << i)) & (1u8 << j) != 0) == (i == j || b & (1u8 << j) != 0),
        0xFFu8 & (1u8 << j) != 0,
{
    assert(((b & !(1u8 << i)) & (1u8 << j) != 0) == (i != j && b & (1u8 << j) != 0)) by (bit_vector)
        requires
            i < 8,
            j < 8,
    ;
    assert(((b | (1u8 << i)) & (1u8 << j) != 0) == (i == j || b & (1u8 << j) != 0)) by (bit_vector)
        requires
            i < 8,
            j < 8,
    ;
    assert(0xFFu8 & (1u8 << j) != 0) by (bit_vector)
        requires
            j < 8,
    ;
}

proof fn lemma_frame_position(f: int)
    requires
        0 <= f,
    ensures
        f == (f / 8) * 8 + f % 8,
        0 <= f % 8 < 8,
{
}

/// The bitmap after one frame's bit is updated: every other frame keeps its mark.
proof fn lemma_update_frame(old_bits: Seq<u8>, new_bits: Seq<u8>, f: int, set: bool)
    requires
        0 <= f < old_bits.len() * 8,
        new_bits == old_bits.update(
            f / 8,
            if set {
                old_bits[f / 8] | (1u8 << ((f % 8) as u8))
            } else {
                old_bits[f / 8] & !(1u8 << ((f % 8) as u8))
            },
        ),
    ensures
        forall|g: int|
            0 <= g < old_bits.len() * 8 ==> #[trigger] frame_marked(new_bits, g) == if g == f {
                set
            } else {
                frame_marked(old_bits, g)
            },
{
    assert forall|g: int| 0 <= g < old_bits.len() * 8 implies #[trigger] frame_marked(new_bits, g) == if g
        == f {
        set
    } else {
        frame_marked(old_bits, g)
    } by {
        lemma_frame_position(g);
        lemma_frame_position(f);
        lemma_byte_bits(old_bits[f / 8], (f % 8) as u8, (g % 8) as u8);
        if g / 8 != f / 8 {
            assert(new_bits[g / 8] == old_bits[g / 8]);
        } else if g != f {
            assert(g % 8 != f % 8);
        }
    }
}

/// Whether frame `f` is one of the `total` frames and free in `bitmap`.
pub open spec fn free_in(bitmap: Seq<u8>, total: int, f: int) -> bool {
    0 <= f < total && !frame_marked(bitmap, f)
}

/// No frame below `FIRST_RELEASABLE_FRAME` (the quarantine and the kernel
/// image) is free.
pub open spec fn quarantine_marked(bitmap: Seq<u8>, total: int) -> bool {
    forall|f: int| 0 <= f < FIRST_RELEASABLE_FRAME ==> !#[trigger] free_in(bitmap, total, f)
}

/// One allocation from `old` to `new` handing out `r`: the lowest free frame,
/// page-aligned, now marked and every other frame as it was; or `None` when
/// no frame is free, with the bitmap unchanged.
pub open spec fn bitmap_allocation(old: Seq<u8>, total: int, r: Option<PhysFrame>, new: Seq<u8>) -> bool {
    &&& new.len() == old.len()
    &&& match r {
        Some(frame) => {
            let f = frame.start_address / PAGE_SIZE;
            &&& frame.start_address % PAGE_SIZE == 0
            &&& free_in(old, total, f as int)
            &&& forall|g: int| 0 <= g < f ==> !free_in(old, total, g)
            &&& forall|g: int|
                0 <= g < old.len() * 8 ==> #[trigger] frame_marked(new, g) == (frame_marked(old, g)
                    || g == f)
        },
        None => {
            &&& forall|g: int| !free_in(old, total, g)
            &&& new == old
        },
    }
}

/// One deallocation of `frame` from `old` to `new`: its frame becomes free
/// if it is releasable (not below `FIRST_RELEASABLE_FRAME`) and one of the
/// `total` frames; every other frame is as it was.
pub open spec fn bitmap_deallocation(old: Seq<u8>, total: int, frame: PhysFrame, new: Seq<u8>) -> bool {
    &&& new.len() == old.len()
    &&& forall|g: int|
        0 <= g < old.len() * 8 ==> #[trigger] frame_marked(new, g) == (frame_marked(old, g) && !(g
            == frame.start_address / PAGE_SIZE && FIRST_RELEASABLE_FRAME <= g < total))
}

/// Memory ownership: every free frame lies above the reserved low 2 MiB and
/// wholly inside a region that the firmware reports as usable RAM.
pub open spec fn frees_only_usable(bitmap: Seq<u8>, total: int, entries: Seq<MemoryMapEntry>) -> bool {
    forall|f: int|
        #[trigger] free_in(bitmap, total, f) ==> f >= FIRST_RELEASABLE_FRAME && released_by(
            entries,
            entries.len() as int,
            f,
        )
}

/// A call on the bitmap allocator and what it returned.
pub enum BitmapCall {
    Allocate(Option<PhysFrame>),
    Deallocate(PhysFrame),
}

/// The frame handed out is page-aligned, at or above 2 MiB, and wholly
/// inside usable RAM.
pub open spec fn frame_is_owned(frame: PhysFrame, entries: Seq<MemoryMapEntry>) -> bool {
    &&& frame.start_address % PAGE_SIZE == 0
    &&& frame.start_address >= 0x0020_0000
    &&& frame.start_address / PAGE_SIZE >= FIRST_RELEASABLE_FRAME
    &&& released_by(entries, entries.len() as int, (frame.start_address / PAGE_SIZE) as int)
}

proof fn lemma_bitmap_trace(
    entries: Seq<MemoryMapEntry>,
    total: int,
    states: Seq<Seq<u8>>,
    calls: Seq<BitmapCall>,
    t: int,
)
    requires
        states.len() == calls.len() + 1,
        0 <= total <= states[0].len() * 8,
        frees_only_usable(states[0], total, entries),
        forall|u: int|
            0 <= u < calls.len() ==> match #[trigger] calls[u] {
                BitmapCall::Allocate(r) => bitmap_allocation(states[u], total, r, states[u + 1]),
                BitmapCall::Deallocate(frame) => bitmap_deallocation(
                    states[u],
                    total,
                    frame,
                    states[u + 1],
                ) && exists|v: int| 0 <= v < u && calls[v] == BitmapCall::Allocate(Some(frame)),
            },
        0 <= t <= calls.len(),
    ensures
        states[t].len() == states[0].len(),
        frees_only_usable(states[t], total, entries),
        forall|u: int|
            0 <= u < t ==> (#[trigger] calls[u] matches BitmapCall::Allocate(Some(frame))
                ==> frame_is_owned(frame, entries)),
    decreases t,
{
    if t > 0 {
        let u = t - 1;
        lemma_bitmap_trace(entries, total, states, calls, u);
        let old = states[u];
        let new = states[t];
        match calls[u] {
            BitmapCall::Allocate(r) => {
                match r {
                    Some(frame) => {
                        let f = (frame.start_address / PAGE_SIZE) as int;
                        assert(free_in(old, total, f));
                        assert forall|g: int| #[trigger] free_in(new, total, g) implies g
                            >= FIRST_RELEASABLE_FRAME && released_by(entries, entries.len() as int, g) by {
                            assert(frame_marked(new, g) == (frame_marked(old, g) || g == f));
                            assert(free_in(old, total, g));
                        }
                    },
                    None => {},
                }
            },
            BitmapCall::Deallocate(frame) => {
                let v = choose|v: int| 0 <= v < u && calls[v] == BitmapCall::Allocate(Some(frame));
                assert(frame_is_owned(frame, entries));
                let f = (frame.start_address / PAGE_SIZE) as int;
                assert forall|g: int| #[trigger] free_in(new, total, g) implies g
                    >= FIRST_RELEASABLE_FRAME && released_by(entries, entries.len() as int, g) by {
                    assert(frame_marked(new, g) == (frame_marked(old, g) && !(g == f
                        && FIRST_RELEASABLE_FRAME <= g < total)));
                    if g != f {
                        assert(free_in(old, total, g));
                    }
                }
            },
        }
    }
}

/// Over any sequence of allocations and deallocations that starts from a
/// bitmap in which only owned frames are free (as `bootstrap` leaves it),
/// and that deallocates only frames handed out before, every frame handed
/// out is page-aligned, at or above 2 MiB, and wholly inside usable RAM,
/// and only such frames are ever free.
pub proof fn law_bitmap_hands_out_only_owned_frames(
    entries: Seq<MemoryMapEntry>,
    total: int,
    states: Seq<Seq<u8>>,
    calls: Seq<BitmapCall>,
)
    requires
        states.len() == calls.len() + 1,
        0 <= total <= states[0].len() * 8,
        frees_only_usable(states[0], total, entries),
        forall|u: int|
            0 <= u < calls.len() ==> match #[trigger] calls[u] {
                BitmapCall::Allocate(r) => bitmap_allocation(states[u], total, r, states[u + 1]),
                BitmapCall::Deallocate(frame) => bitmap_deallocation(
                    states[u],
                    total,
                    frame,
                    states[u + 1],
                ) && exists|v: int| 0 <= v < u && calls[v] == BitmapCall::Allocate(Some(frame)),
            },
    ensures
        forall|t: int| 0 <= t < states.len() ==> frees_only_usable(#[trigger] states[t], total, entries),
        forall|u: int|
            0 <= u < calls.len() ==> (#[trigger] calls[u] matches BitmapCall::Allocate(Some(frame))
                ==> frame_is_owned(frame, entries)),
{
    assert forall|t: int| 0 <= t < states.len() implies frees_only_usable(#[trigger] states[t], total, entries) by {
        lemma_bitmap_trace(entries, total, states, calls, t);
    }
    lemma_bitmap_trace(entries, total, states, calls, calls.len() as int);
}

proof fn lemma_byte_from_bits(a: u8, b: u8)
    requires
        forall|j: u8| j < 8 ==> ((a & (1u8 << j)) != 0) == (#[trigger] (b & (1u8 << j)) != 0),
    ensures
        a == b,
{
    assert(((a & (1u8 << 0u8)) != 0) == ((b & (1u8 << 0u8)) != 0));
    assert(((a & (1u8 << 1u8)) != 0) == ((b & (1u8 << 1u8)) != 0));
    assert(((a & (1u8 << 2u8)) != 0) == ((b & (1u8 << 2u8)) != 0));
    assert(((a & (1u8 << 3u8)) != 0) == ((b & (1u8 << 3u8)) != 0));
    assert(((a & (1u8 << 4u8)) != 0) == ((b & (1u8 << 4u8)) != 0));
    assert(((a & (1u8 << 5u8)) != 0) == ((b & (1u8 << 5u8)) != 0));
    assert(((a & (1u8 << 6u8)) != 0) == ((b & (1u8 << 6u8)) != 0));
    assert(((a & (1u8 << 7u8)) != 0) == ((b & (1u8 << 7u8)) != 0));
    assert(a == b) by (bit_vector)
        requires
            ((a & (1u8 << 0u8)) != 0) == ((b & (1u8 << 0u8)) != 0),
            ((a & (1u8 << 1u8)) != 0) == ((b & (1u8 << 1u8)) != 0),
            ((a & (1u8 << 2u8)) != 0) == ((b & (1u8 << 2u8)) != 0),
            ((a & (1u8 << 3u8)) != 0) == ((b & (1u8 << 3u8)) != 0),
            ((a & (1u8 << 4u8)) != 0) == ((b & (1u8 << 4u8)) != 0),
            ((a & (1u8 << 5u8)) != 0) == ((b & (1u8 << 5u8)) != 0),
            ((a & (1u8 << 6u8)) != 0) == ((b & (1u8 << 6u8)) != 0),
            ((a & (1u8 << 7u8)) != 0) == ((b & (1u8 << 7u8)) != 0),
    ;
}

/// Freeing a frame undoes its allocation exactly: on a bitmap whose
/// quarantine is reserved (as every well-formed allocator's is), allocating
/// a frame and then deallocating that frame restores every byte.
pub proof fn law_free_undoes_allocation(
    old: Seq<u8>,
    total: int,
    frame: PhysFrame,
    mid: Seq<u8>,
    new: Seq<u8>,
)
    requires
        0 <= total <= old.len() * 8,
        quarantine_marked(old, total),
        bitmap_allocation(old, total, Some(frame), mid),
        bitmap_deallocation(mid, total, frame, new),
    ensures
        new == old,
{
    let f = (frame.start_address / PAGE_SIZE) as int;
    assert(free_in(old, total, f));
    if f < FIRST_RELEASABLE_FRAME {
        assert(!free_in(old, total, f));
    }
    assert forall|k: int| 0 <= k < old.len() implies new[k] == old[k] by {
        assert forall|j: u8| j < 8 implies ((new[k] & (1u8 << j)) != 0) == (#[trigger] (old[k] & (1u8 << j)) != 0) by {
            let g = 8 * k + j;
            assert(g / 8 == k && g % 8 == j as int) by (nonlinear_arith)
                requires
                    g == 8 * k + j,
                    0 <= j < 8,
                    0 <= k,
            ;
            assert(0 <= g < old.len() * 8);
            assert(frame_marked(mid, g) == (frame_marked(old, g) || g == f));
            assert(frame_marked(new, g) == (frame_marked(mid, g) && !(g == f && FIRST_RELEASABLE_FRAME <= g < total)));
        }
        lemma_byte_from_bits(new[k], old[k]);
    }
    assert(new =~= old);
}

/// A bitmap allocator over all physical frames below the memory ceiling:
/// bit set means reserved or allocated, bit clear means free.
pub struct BitmapAllocator {
    /// One bit per frame: bit `f % 8` of byte `f / 8` (set: reserved or allocated).
    pub bitmap: Vec<u8>,
    pub total_frames: usize,
}

impl BitmapAllocator {
    /// The bitmap bytes; frame `f` is bit `f % 8` of byte `f / 8`.
    pub open spec fn bytes(&self) -> Seq<u8> {
        self.bitmap@
    }

    /// The number of frames tracked.
    pub open spec fn frame_count(&self) -> usize {
        self.total_frames
    }

    /// The bitmap has one bit per frame, rounded up to whole bytes, within capacity.
    pub open spec fn wf(&self) -> bool {
        &&& self.bytes().len() == (self.frame_count() + 7) / 8
        &&& self.bytes().len() <= BITMAP_MAX_BYTES
        &&& quarantine_marked(self.bytes(), self.frame_count() as int)
    }

    /// Whether frame `f` exists and is free.
    pub open spec fn is_free(&self, f: int) -> bool {
        free_in(self.bytes(), self.frame_count() as int, f)
    }

    /// Builds the bitmap from the boot allocator's memory map: every frame
    /// below the memory ceiling starts reserved; then each frame of a usable
    /// region is released, except the frames below `FIRST_RELEASABLE_FRAME`.
    pub fn bootstrap(boot_allocator: FrameAllocator) -> (a: Self)
        requires
            boot_allocator.wf(),
            (memory_ceiling(boot_allocator.entries()) / PAGE_SIZE as int + 7) / 8 <= BITMAP_MAX_BYTES,
        ensures
            a.wf(),
            a.frame_count() == memory_ceiling(boot_allocator.entries()) / PAGE_SIZE as int,
            forall|f: int|
                0 <= f < a.bytes().len() * 8 ==> (#[trigger] frame_marked(a.bytes(), f) <==> !(f
                    < a.frame_count() && f >= FIRST_RELEASABLE_FRAME && released_by(
                    boot_allocator.entries(),
                    boot_allocator.entries().len() as int,
                    f,
                ))),
            frees_only_usable(a.bytes(), a.frame_count() as int, boot_allocator.entries()),
    {
        let ghost entries = boot_allocator.entries();
        proof {
            lemma_ceiling_is_an_end(entries);
        }
        let max_addr = boot_allocator.discover_memory_ceiling();
        let total_frames = (max_addr / PAGE_SIZE) as usize;
        let bitmap_bytes = (total_frames + 7) / 8;
        // Start with absolute paranoia: every frame is reserved.
        let mut bitmap: Vec<u8> = Vec::new();
        let mut k: usize = 0;
        while k < bitmap_bytes
            invariant
                0 <= k <= bitmap_bytes,
                bitmap@.len() == k,
                forall|j: int| 0 <= j < k ==> bitmap@[j] == 0xFFu8,
            decreases bitmap_bytes - k,
        {
            bitmap.push(0xFF);
            k = k + 1;
        }
        let mut allocator = BitmapAllocator { bitmap, total_frames };
        assert forall|f: int| 0 <= f < allocator.bytes().len() * 8 implies #[trigger] frame_marked(
            allocator.bytes(),
            f,
        ) by {
            lemma_frame_position(f);
            lemma_byte_bits(0, 0, (f % 8) as u8);
        }
        assert forall|f: int| 0 <= f < FIRST_RELEASABLE_FRAME implies !#[trigger] free_in(
            allocator.bytes(),
            allocator.frame_count() as int,
            f,
        ) by {
            if f < allocator.frame_count() {
                assert(f < allocator.bytes().len() * 8);
            }
        }
        // Release only what the firmware certifies as usable RAM.
        let entry_count = boot_allocator.memory_map.len();
        let mut i: usize = 0;
        while i < entry_count
            invariant
                0 <= i <= entry_count,
                entry_count == entries.len(),
                entries == boot_allocator.entries(),
                boot_allocator.wf(),
                max_addr == memory_ceiling(entries),
                allocator.wf(),
                allocator.total_frames == total_frames,
                total_frames == max_addr / PAGE_SIZE,
                forall|f: int|
                    0 <= f < allocator.bytes().len() * 8 ==> (#[trigger] frame_marked(allocator.bytes(), f)
                        <==> !(f < total_frames && f >= FIRST_RELEASABLE_FRAME && released_by(
                        entries,
                        i as int,
                        f,
                    ))),
            decreases entry_count - i,
        {
            let entry = boot_allocator.memory_map[i];
            proof {
                assert forall|f: int| #[trigger] released_by(entries, i + 1, f) == (released_by(entries, i as int, f) || (
                    usable(entries[i as int]) && first_whole_frame(entries[i as int]) <= f
                        < end_whole_frame(entries[i as int]))) by {
                    lemma_released_step(entries, i as int, f);
                }
            }
            if entry.region_type == E820_USABLE {
                proof {
                    lemma_ceiling_covers(entries, i as int);
                    assert(entry_in_range(entries[i as int]));
                }
                // Only frames wholly inside the region: round its base up.
                let start_frame = ((entry.base + (PAGE_SIZE - 1)) / PAGE_SIZE) as usize;
                let end_frame = ((entry.base + entry.length) / PAGE_SIZE) as usize;
                let mut frame = start_frame;
                while frame < end_frame
                    invariant
                        start_frame <= frame,
                        frame <= end_frame || frame == start_frame,
                        start_frame == first_whole_frame(entry),
                        end_frame == end_whole_frame(entry),
                        end_frame <= total_frames,
                        entry == entries[i as int],
                        usable(entry),
                        allocator.wf(),
                        allocator.total_frames == total_frames,
                        forall|f: int|
                            0 <= f < allocator.bytes().len() * 8 ==> (#[trigger] frame_marked(
                                allocator.bytes(),
                                f,
                            ) <==> !(f < total_frames && f >= FIRST_RELEASABLE_FRAME && (released_by(
                                entries,
                                i as int,
                                f,
                            ) || (start_frame <= f < frame)))),
                    decreases end_frame - frame,
                {
                    // Never release the low-memory quarantine or the kernel image.
                    if frame >= FIRST_RELEASABLE_FRAME {
                        allocator.free_frame(frame);
                    }
                    frame = frame + 1;
                }
            }
            i = i + 1;
        }
        assert forall|f: int|
            0 <= f < allocator.frame_count() && !#[trigger] frame_marked(allocator.bytes(), f) implies f
                >= FIRST_RELEASABLE_FRAME && released_by(entries, entries.len() as int, f) by {
            assert(f < allocator.bytes().len() * 8);
        }
        allocator
    }

    /// The bitmap byte at `byte_index`, or 0 past the end of the bitmap.
    pub fn read_byte(&self, byte_index: usize) -> (b: u8)
        ensures
            b == if byte_index < self.bytes().len() {
                self.bytes()[byte_index as int]
            } else {
                0u8
            },
    {
        if byte_index < self.bitmap.len() {
            self.bitmap[byte_index]
        } else {
            0
        }
    }

    /// Marks frame `frame_index` free (no effect past the last frame).
    fn free_frame(&mut self, frame_index: usize)
        requires
            old(self).wf(),
            frame_index >= FIRST_RELEASABLE_FRAME,
        ensures
            final(self).wf(),
            final(self).frame_count() == old(self).frame_count(),
            final(self).bytes().len() == old(self).bytes().len(),
            forall|g: int|
                0 <= g < old(self).bytes().len() * 8 ==> #[trigger] frame_marked(final(self).bytes(), g)
                    == (frame_marked(old(self).bytes(), g) && !(g == frame_index && frame_index
                    < old(self).frame_count())),
    {
        if frame_index < self.total_frames {
            let byte_index = frame_index / 8;
            let bit_index = (frame_index % 8) as u8;
            let b = self.bitmap[byte_index];
            self.bitmap.set(byte_index, b & !(1u8 << bit_index));
            proof {
                lemma_update_frame(old(self).bytes(), self.bytes(), frame_index as int, false);
                assert forall|f: int| 0 <= f < FIRST_RELEASABLE_FRAME implies !#[trigger] free_in(
                    self.bytes(),
                    self.frame_count() as int,
                    f,
                ) by {
                    assert(!free_in(old(self).bytes(), old(self).frame_count() as int, f));
                    if f < self.frame_count() {
                        assert(f < old(self).bytes().len() * 8);
                    }
                }
            }
        }
    }

    /// Marks frame `frame_index` reserved (no effect past the last frame).
    fn reserve_frame(&mut self, frame_index: usize)
        requires
            old(self).wf(),
        ensures
            final(self).wf(),
            final(self).frame_count() == old(self).frame_count(),
            final(self).bytes().len() == old(self).bytes().len(),
            forall|g: int|
                0 <= g < old(self).bytes().len() * 8 ==> #[trigger] frame_marked(final(self).bytes(), g)
                    == (frame_marked(old(self).bytes(), g) || (g == frame_index && frame_index
                    < old(self).frame_count())),
    {
        if frame_index < self.total_frames {
            let byte_index = frame_index / 8;
            let bit_index = (frame_index % 8) as u8;
            let b = self.bitmap[byte_index];
            self.bitmap.set(byte_index, b | (1u8 << bit_index));
            proof {
                lemma_update_frame(old(self).bytes(), self.bytes(), frame_index as int, true);
                assert forall|f: int| 0 <= f < FIRST_RELEASABLE_FRAME implies !#[trigger] free_in(
                    self.bytes(),
                    self.frame_count() as int,
                    f,
                ) by {
                    assert(!free_in(old(self).bytes(), old(self).frame_count() as int, f));
                    if f < self.frame_count() {
                        assert(f < old(self).bytes().len() * 8);
                    }
                }
            }
        }
    }

    /// Whether frame `frame_index` exists and is free.
    pub fn is_frame_free(&self, frame_index: usize) -> (free: bool)
        requires
            self.wf(),
        ensures
            free == self.is_free(frame_index as int),
    {
        if frame_index >= self.total_frames {
            return false;
        }
        let byte_index = frame_index / 8;
        let bit_index = (frame_index % 8) as u8;
        (self.bitmap[byte_index] & (1u8 << bit_index)) == 0
    }

    /// Finds the lowest free frame, marks it reserved, and returns it;
    /// `None` when no frame is free.
    pub fn allocate_frame(&mut self) -> (r: Option<PhysFrame>)
        requires
            old(self).wf(),
        ensures
            final(self).wf(),
            final(self).frame_count() == old(self).frame_count(),
            final(self).bytes().len() == old(self).bytes().len(),
            bitmap_allocation(old(self).bytes(), old(self).frame_count() as int, r, final(self).bytes()),
    {
        let n = self.bitmap.len();
        let mut byte_index: usize = 0;
        while byte_index < n
            invariant
                0 <= byte_index <= n,
                n == self.bytes().len(),
                self.wf(),
                *self == *old(self),
                forall|g: int| 0 <= g < byte_index * 8 ==> !free_in(self.bytes(), self.frame_count() as int, g),
            decreases n - byte_index,
        {
            // Fast path: a full byte has all eight frames taken.
            if self.bitmap[byte_index] != 0xFF {
                let mut bit_index: u8 = 0;
                while bit_index < 8
                    invariant
                        0 <= bit_index <= 8,
                        0 <= byte_index < n,
                        n == self.bytes().len(),
                        self.wf(),
                        *self == *old(self),
                        forall|g: int| 0 <= g < byte_index * 8 + bit_index ==> !free_in(self.bytes(), self.frame_count() as int, g),
                    decreases 8 - bit_index,
                {
                    let ghost g = byte_index * 8 + bit_index;
                    proof {
                        assert(g / 8 == byte_index && g % 8 == bit_index) by (nonlinear_arith)
                            requires
                                g == byte_index * 8 + bit_index,
                                bit_index < 8,
                        ;
                    }
                    if (self.bitmap[byte_index] & (1u8 << bit_index)) == 0 {
                        let frame_index = byte_index * 8 + bit_index as usize;
                        if frame_index < self.total_frames {
                            self.reserve_frame(frame_index);
                            let start_address = (frame_index as u64) * PAGE_SIZE;
                            assert(start_address / PAGE_SIZE == frame_index && start_address % PAGE_SIZE == 0)
                                by (nonlinear_arith)
                                requires
                                    start_address == frame_index * PAGE_SIZE,
                            ;
                            return Some(PhysFrame { start_address });
                        }
                    }
                    bit_index = bit_index + 1;
                }
            } else {
                assert forall|g: int| 0 <= g < byte_index * 8 + 8 implies !free_in(self.bytes(), self.frame_count() as int, g) by {
                    if g >= byte_index * 8 {
                        lemma_frame_position(g);
                        assert(g / 8 == byte_index);
                        lemma_byte_bits(0, 0, (g % 8) as u8);
                    }
                }
            }
            byte_index = byte_index + 1;
        }
        assert forall|g: int| !free_in(old(self).bytes(), old(self).frame_count() as int, g) by {
            if 0 <= g < old(self).frame_count() {
                assert(g < n * 8);
            }
        }
        None
    }

    /// Returns a frame to the free pool. Frames below `FIRST_RELEASABLE_FRAME`
    /// (the quarantine and the kernel image) and past the last frame stay as
    /// they are: a reserved frame never becomes allocatable.
    pub fn deallocate_frame(&mut self, frame: PhysFrame)
        requires
            old(self).wf(),
        ensures
            final(self).wf(),
            final(self).frame_count() == old(self).frame_count(),
            bitmap_deallocation(old(self).bytes(), old(self).frame_count() as int, frame, final(self).bytes()),
            forall|g: int|
                0 <= g < FIRST_RELEASABLE_FRAME && frame_marked(old(self).bytes(), g) ==> #[trigger] frame_marked(final(self).bytes(), g),
    {
        let frame_index = frame.start_address / PAGE_SIZE;
        if frame_index >= FIRST_RELEASABLE_FRAME as u64 && frame_index < self.total_frames as u64 {
            self.free_frame(frame_index as usize);
        }
    }
}

} // verus!
