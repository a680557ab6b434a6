//! Physical memory: the frames that the boot-time memory map reports as usable, handed out one
//! at a time, and the page tables that map virtual addresses to them.

pub mod memory_map;
pub mod page_table;
pub mod paging;

use crate::memory::memory_map::{
    frame_containing, memory_map_len, memory_map_region, memory_map_regions,
};
use crate::memory::page_table::PageTableEntry;
use crate::memory::paging::{table_entries, OffsetPageTable};
use bootloader::bootinfo::MemoryMap;
use vstd::prelude::*;
use x86_64::structures::paging::PageTable;

verus! {

/// The size of a frame of physical memory, and of a page of virtual memory, in bytes.
pub const FRAME_SIZE: u64 = 4096;

/// The first address that is no physical address: physical addresses have 52 bits.
pub const PHYS_ADDR_LIMIT: u64 = 0x10_0000_0000_0000;

/// The number of frames that physical addresses can reach.
pub const FRAME_LIMIT: u64 = 0x100_0000_0000;

/// A frame of physical memory: `FRAME_SIZE` bytes that start at a multiple of `FRAME_SIZE`.
#[derive(Clone, Copy, Debug, PartialEq, Eq, Structural)]
pub struct PhysFrame {
    start_address: u64,
}

impl PhysFrame {
    #[verifier::type_invariant]
    spec fn is_frame(self) -> bool {
        self.start_address % FRAME_SIZE == 0 && self.start_address < PHYS_ADDR_LIMIT
    }

    /// The address of the frame's first byte.
    pub closed spec fn start(self) -> u64 {
        self.start_address
    }

    /// The frame that holds the physical address `addr`.
    pub fn containing_address(addr: u64) -> (frame: PhysFrame)
        requires
            addr < PHYS_ADDR_LIMIT,
        ensures
            frame.start() == addr - addr % FRAME_SIZE,
    {
        PhysFrame { start_address: frame_containing(addr) }
    }

    /// The address of the frame's first byte, a multiple of `FRAME_SIZE` below
    /// `PHYS_ADDR_LIMIT`.
    pub fn start_address(self) -> (addr: u64)
        ensures
            addr == self.start(),
            addr % FRAME_SIZE == 0,
            addr < PHYS_ADDR_LIMIT,
    {
        proof {
            use_type_invariant(self);
        }
        self.start_address
    }
}

/// Makes the page tables of the active address space known: `level_4_table` is the table that
/// the frame `level_4_frame` holds, the frame that the processor's paging root register names,
/// and all of physical memory is mapped into virtual memory at `physical_memory_offset`.
///
/// The level 4 table is loaded. The offset mapping must reach its frame: if it does not, no
/// table is known and no address translates.
pub fn init(
    physical_memory_offset: u64,
    level_4_frame: PhysFrame,
    level_4_table: PageTable,
) -> (mapper: OffsetPageTable)
    ensures
        mapper.offset() == physical_memory_offset,
        mapper.root() == level_4_frame.start(),
        mapper.memory() == if physical_memory_offset + level_4_frame.start() <= u64::MAX {
            Map::<u64, Seq<PageTableEntry>>::empty().insert(
                (physical_memory_offset + level_4_frame.start()) as u64,
                table_entries(level_4_table),
            )
        } else {
            Map::<u64, Seq<PageTableEntry>>::empty()
        },
{
    let mut mapper = OffsetPageTable::new(physical_memory_offset, level_4_frame);
    mapper.load_table(level_4_frame, level_4_table);
    mapper
}

/// Stands where a frame allocator is asked for and no frame will be needed.
pub struct EmptyFrameAllocator;

/// The number of frames that a region gives: those of its range if it is usable, else none.
pub open spec fn region_frame_count(region: (u64, u64, bool)) -> nat {
    if region.2 && region.0 < region.1 {
        (region.1 - region.0) as nat
    } else {
        0
    }
}

/// The start addresses of the frames that a region gives, in rising order.
pub open spec fn region_frames(region: (u64, u64, bool)) -> Seq<u64> {
    Seq::new(region_frame_count(region), |k: int| ((region.0 + k) * FRAME_SIZE) as u64)
}

/// The start addresses of all frames of the usable regions: region after region in the map's
/// order, and within a region from its first frame to its last.
pub open spec fn usable_frames(regions: Seq<(u64, u64, bool)>) -> Seq<u64>
    decreases regions.len(),
{
    if regions.len() == 0 {
        Seq::empty()
    } else {
        usable_frames(regions.drop_last()) + region_frames(regions.last())
    }
}

/// Every usable region that holds a frame ends inside the physical address space.
pub open spec fn regions_in_range(regions: Seq<(u64, u64, bool)>) -> bool {
    forall|k: int|
        0 <= k < regions.len() && region_frame_count(#[trigger] regions[k]) > 0 ==> regions[k].1
            <= FRAME_LIMIT
}

/// No two usable regions share a frame.
pub open spec fn regions_apart(regions: Seq<(u64, u64, bool)>) -> bool {
    forall|a: int, b: int|
        0 <= a < b < regions.len() && region_frame_count(#[trigger] regions[a]) > 0
            && region_frame_count(#[trigger] regions[b]) > 0 ==> regions[a].1 <= regions[b].0
            || regions[b].1 <= regions[a].0
}

/// Whether every usable region of the map that holds a frame ends inside the physical address
/// space: what `BootInfoFrameAllocator::init` asks of its map.
pub fn memory_map_in_range(memory_map: &MemoryMap) -> (in_range: bool)
    ensures
        in_range == regions_in_range(memory_map_regions(*memory_map)),
{
    let len: usize = memory_map_len(memory_map);
    let mut index: usize = 0;
    while index < len
        invariant
            index <= len,
            len == memory_map_regions(*memory_map).len(),
            regions_in_range(memory_map_regions(*memory_map).take(index as int)),
        decreases len - index,
    {
        let region = memory_map_region(memory_map, index);
        if region.2 && region.0 < region.1 && region.1 > FRAME_LIMIT {
            assert(region_frame_count(memory_map_regions(*memory_map)[index as int]) > 0);
            return false;
        }
        assert forall|k: int|
            0 <= k < index + 1 && region_frame_count(
                #[trigger] memory_map_regions(*memory_map).take(index + 1)[k],
            ) > 0 implies memory_map_regions(*memory_map).take(index + 1)[k].1 <= FRAME_LIMIT by {
            if k < index {
                assert(memory_map_regions(*memory_map).take(index as int)[k]
                    == memory_map_regions(*memory_map)[k]);
            }
        }
        index += 1;
    }
    assert(memory_map_regions(*memory_map).take(len as int) =~= memory_map_regions(*memory_map));
    true
}

/// A frame allocator that returns the usable frames of the boot loader's memory map, each once
/// and in the map's order.
pub struct BootInfoFrameAllocator {
    memory_map: &'static MemoryMap,
    next: usize,
}

impl BootInfoFrameAllocator {
    /// The regions of the allocator's memory map.
    pub closed spec fn regions(&self) -> Seq<(u64, u64, bool)> {
        memory_map_regions(*self.memory_map)
    }

    /// The number of calls of `allocate_frame` so far: the place in `usable_frames` of the
    /// frame that comes next.
    pub closed spec fn next(&self) -> nat {
        self.next as nat
    }

    /// The allocator's invariant: the frames of its map are frames of physical memory.
    pub open spec fn wf(&self) -> bool {
        regions_in_range(self.regions())
    }

    /// Creates a frame allocator from the memory map. The map must be true: what it calls
    /// usable is memory that nothing else uses.
    pub fn init(memory_map: &'static MemoryMap) -> (allocator: Self)
        requires
            regions_in_range(memory_map_regions(*memory_map)),
        ensures
            allocator.wf(),
            allocator.regions() == memory_map_regions(*memory_map),
            allocator.next() == 0,
    {
        BootInfoFrameAllocator { memory_map, next: 0 }
    }

    /// The frame at place `n` among the usable frames of the map, if there are that many.
    fn usable_frame(&self, n: usize) -> (frame: Option<PhysFrame>)
        requires
            self.wf(),
        ensures
            match frame {
                Some(frame) => n < usable_frames(self.regions()).len() && frame.start()
                    == usable_frames(self.regions())[n as int],
                None => n >= usable_frames(self.regions()).len(),
            },
    {
        let len: usize = memory_map_len(self.memory_map);
        let ghost regions = self.regions();
        let mut skipped: usize = 0;
        let mut index: usize = 0;
        while index < len
            invariant
                index <= len,
                len == regions.len(),
                regions == memory_map_regions(*self.memory_map),
                regions_in_range(regions),
                skipped <= n,
                skipped == usable_frames(regions.take(index as int)).len(),
            decreases len - index,
        {
            let region = memory_map_region(self.memory_map, index);
            proof {
                assert(regions.take(index + 1).drop_last() =~= regions.take(index as int));
                assert(regions.take(index + 1).last() == regions[index as int]);
                lemma_usable_frames_prefix(regions, index + 1);
            }
            if region.2 && region.0 < region.1 {
                let count: u64 = region.1 - region.0;
                let wanted: usize = n - skipped;
                if (wanted as u64) < count {
                    let addr: u64 = (region.0 + wanted as u64) * FRAME_SIZE;
                    assert(addr == region_frames(region)[wanted as int]);
                    assert(addr == usable_frames(regions.take(index + 1))[n as int]);
                    return Some(PhysFrame::containing_address(addr));
                }
                skipped = skipped + count as usize;
            }
            index += 1;
        }
        assert(regions.take(len as int) =~= regions);
        None
    }

    /// Returns the next usable frame of the memory map, or `None` when the map has no more.
    /// Every call moves on to the next frame, whether or not it returned one.
    pub fn allocate_frame(&mut self) -> (frame: Option<PhysFrame>)
        requires
            old(self).wf(),
            old(self).next() < usize::MAX,
        ensures
            final(self).wf(),
            final(self).regions() == old(self).regions(),
            final(self).next() == old(self).next() + 1,
            match frame {
                Some(frame) => old(self).next() < usable_frames(old(self).regions()).len()
                    && frame.start() == usable_frames(old(self).regions())[old(self).next() as int],
                None => old(self).next() >= usable_frames(old(self).regions()).len(),
            },
    {
        let frame = self.usable_frame(self.next);
        self.next += 1;
        frame
    }
}

/// Every usable frame lies in a usable region of the map: it starts at a multiple of the frame
/// size, at or after the region's start and before its end.
pub proof fn lemma_frame_in_usable_region(regions: Seq<(u64, u64, bool)>, n: int)
    requires
        regions_in_range(regions),
        0 <= n < usable_frames(regions).len(),
    ensures
        usable_frames(regions)[n] % FRAME_SIZE == 0,
        exists|k: int|
            0 <= k < regions.len() && (#[trigger] regions[k]).2 && regions[k].0 * FRAME_SIZE
                <= usable_frames(regions)[n] < regions[k].1 * FRAME_SIZE,
    decreases regions.len(),
{
    let before = usable_frames(regions.drop_last());
    let last = regions.len() - 1;
    if n < before.len() {
        assert forall|k: int|
            0 <= k < last && region_frame_count(#[trigger] regions.drop_last()[k])
                > 0 implies regions.drop_last()[k].1 <= FRAME_LIMIT by {
            assert(regions.drop_last()[k] == regions[k]);
        }
        lemma_frame_in_usable_region(regions.drop_last(), n);
        let k = choose|k: int|
            0 <= k < last && (#[trigger] regions.drop_last()[k]).2 && regions.drop_last()[k].0
                * FRAME_SIZE <= before[n] < regions.drop_last()[k].1 * FRAME_SIZE;
        assert(regions[k] == regions.drop_last()[k]);
    } else {
        assert(region_frame_count(regions[last]) > 0);
        assert(usable_frames(regions)[n] == region_frames(regions[last])[n - before.len()]);
    }
}

/// Where no two usable regions share a frame, no frame comes twice among the usable frames:
/// two calls of `allocate_frame` that both return a frame return different ones.
pub proof fn lemma_frames_never_repeat(regions: Seq<(u64, u64, bool)>, i: int, j: int)
    requires
        regions_in_range(regions),
        regions_apart(regions),
        0 <= i < j < usable_frames(regions).len(),
    ensures
        usable_frames(regions)[i] != usable_frames(regions)[j],
    decreases regions.len(),
{
    let shorter = regions.drop_last();
    let before = usable_frames(shorter);
    let last = regions.len() - 1;
    assert forall|k: int|
        0 <= k < last && region_frame_count(#[trigger] shorter[k]) > 0 implies shorter[k].1
        <= FRAME_LIMIT by {
        assert(shorter[k] == regions[k]);
    }
    if j < before.len() {
        assert forall|a: int, b: int|
            0 <= a < b < last && region_frame_count(#[trigger] shorter[a]) > 0
                && region_frame_count(#[trigger] shorter[b]) > 0 implies shorter[a].1
            <= shorter[b].0 || shorter[b].1 <= shorter[a].0 by {
            assert(shorter[a] == regions[a] && shorter[b] == regions[b]);
        }
        lemma_frames_never_repeat(shorter, i, j);
    } else {
        assert(region_frame_count(regions[last]) > 0);
        assert(usable_frames(regions)[j] == region_frames(regions[last])[j - before.len()]);
        if i < before.len() {
            lemma_frame_in_usable_region(shorter, i);
            let k = choose|k: int|
                0 <= k < last && (#[trigger] shorter[k]).2 && shorter[k].0 * FRAME_SIZE
                    <= before[i] < shorter[k].1 * FRAME_SIZE;
            assert(regions[k] == shorter[k]);
            assert(region_frame_count(regions[k]) > 0);
        } else {
            assert(usable_frames(regions)[i] == region_frames(regions[last])[i - before.len()]);
        }
    }
}

/// The usable frames of the first `k` regions are the first of the usable frames of all.
proof fn lemma_usable_frames_prefix(regions: Seq<(u64, u64, bool)>, k: int)
    requires
        0 <= k <= regions.len(),
    ensures
        usable_frames(regions.take(k)).len() <= usable_frames(regions).len(),
        usable_frames(regions.take(k)) == usable_frames(regions).take(
            usable_frames(regions.take(k)).len() as int,
        ),
    decreases regions.len() - k,
{
    if k == regions.len() {
        assert(regions.take(k) =~= regions);
        assert(usable_frames(regions).take(usable_frames(regions).len() as int) =~= usable_frames(
            regions,
        ));
    } else {
        lemma_usable_frames_prefix(regions, k + 1);
        assert(regions.take(k + 1).drop_last() =~= regions.take(k));
        let shorter = usable_frames(regions.take(k));
        let longer = usable_frames(regions.take(k + 1));
        assert(longer == shorter + region_frames(regions[k]));
        assert(shorter =~= usable_frames(regions).take(shorter.len() as int));
    }
}

} // verus!
