//! The boot loader's memory map, `bootloader::bootinfo::MemoryMap`, as the frame allocator sees
//! it.
//!
//! Nothing in this file is proved. The map's regions have a name, and the two functions that
//! read the map are stated over it. One more function asks the `x86_64` crate for the frame of
//! an address.

use bootloader::bootinfo::{MemoryMap, MemoryRegion, MemoryRegionType};
use vstd::prelude::*;
use x86_64::structures::paging::{PhysFrame, Size4KiB};
use x86_64::PhysAddr;

verus! {

/// `bootloader::bootinfo::MemoryMap`: a memory map of which only its regions are known.
#[verifier::external_type_specification]
#[verifier::external_body]
pub struct ExMemoryMap(MemoryMap);

/// `bootloader::bootinfo::MemoryRegion`: what a memory map dereferences to a slice of.
#[verifier::external_type_specification]
#[verifier::external_body]
pub struct ExMemoryRegion(MemoryRegion);

/// The regions of a memory map, in the map's order. Each is the number of its first frame, the
/// number of the first frame behind it, and whether its type is `Usable`.
pub uninterp spec fn memory_map_regions(map: MemoryMap) -> Seq<(u64, u64, bool)>;

/// The number of regions of the map: the length of the slice that the map dereferences to.
#[verifier::external_body]
pub(crate) fn memory_map_len(map: &MemoryMap) -> (len: usize)
    ensures
        len == memory_map_regions(*map).len(),
{
    map.len()
}

/// The region at `index` of the slice that the map dereferences to: the two frame numbers of
/// its range, and whether its type equals `MemoryRegionType::Usable`.
#[verifier::external_body]
pub(crate) fn memory_map_region(map: &MemoryMap, index: usize) -> (region: (u64, u64, bool))
    requires
        index < memory_map_regions(*map).len(),
    ensures
        region == memory_map_regions(*map)[index as int],
{
    let region = &map[index];
    (
        region.range.start_frame_number,
        region.range.end_frame_number,
        region.region_type == MemoryRegionType::Usable,
    )
}

/// `PhysFrame::containing_address` of `PhysAddr::new(addr)`, by its start address: `addr`
/// aligned down to the frame size. `PhysAddr::new` panics on an address of 2^52 or more.
#[verifier::external_body]
pub(crate) fn frame_containing(addr: u64) -> (start: u64)
    requires
        addr < 0x10_0000_0000_0000,
    ensures
        start == addr - addr % 4096,
{
    PhysFrame::<Size4KiB>::containing_address(PhysAddr::new(addr)).start_address().as_u64()
}

} // verus!
