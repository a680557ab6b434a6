//! A page table, `x86_64::structures::paging::PageTable`, as the address translation sees it.
//!
//! Nothing in this file is proved. The table's entries have a name, the 64-bit values that the
//! processor reads, and the one function that reads an entry is stated over it.

use vstd::prelude::*;
use x86_64::structures::paging::page_table::FrameError;
use x86_64::structures::paging::PageTable;

verus! {

/// `x86_64::structures::paging::PageTable`: a page table of which only its entries are known.
#[verifier::external_type_specification]
#[verifier::external_body]
pub struct ExPageTable(PageTable);

/// The number of entries of a page table.
pub const ENTRY_COUNT: usize = 512;

/// What an entry of a page table points to.
#[derive(Clone, Copy, Debug, PartialEq, Eq, Structural)]
pub enum PageTableEntry {
    /// The entry is not present: nothing is mapped through it.
    Unused,
    /// The entry points to the frame that starts at this address: the next table on the levels
    /// four to two, the mapped frame on level one.
    Frame(u64),
    /// The entry maps a huge frame, which stands for no table and no 4 KiB frame.
    HugeFrame,
}

/// The entries of a page table in their order, each as the 64-bit value that the processor
/// reads.
pub uninterp spec fn page_table_bits(table: PageTable) -> Seq<u64>;

/// What the 64 bits of an entry say: without the present bit, bit 0, the entry is unused; with
/// it and the huge-page bit, bit 7, it maps a huge frame; else it points to the frame whose
/// address its bits 12 to 51 give.
pub open spec fn entry_of_bits(bits: u64) -> PageTableEntry {
    if bits & 0x1 == 0 {
        PageTableEntry::Unused
    } else if bits & 0x80 != 0 {
        PageTableEntry::HugeFrame
    } else {
        PageTableEntry::Frame(bits & 0x000f_ffff_ffff_f000)
    }
}

/// `PageTableEntry::frame` of the entry at `index`: the frame's start address where it returns
/// a frame, and its two errors as they are.
#[verifier::external_body]
pub(crate) fn page_table_entry(table: &PageTable, index: usize) -> (entry: PageTableEntry)
    requires
        index < ENTRY_COUNT,
    ensures
        entry == entry_of_bits(page_table_bits(*table)[index as int]),
{
    match table[index].frame() {
        Ok(frame) => PageTableEntry::Frame(frame.start_address().as_u64()),
        Err(FrameError::FrameNotPresent) => PageTableEntry::Unused,
        Err(FrameError::HugeFrame) => PageTableEntry::HugeFrame,
    }
}

} // verus!
