//! The translation of virtual addresses through the four levels of page tables, where physical
//! memory is mapped into virtual memory at a fixed offset.

use crate::memory::page_table::{
    entry_of_bits, page_table_bits, page_table_entry, PageTableEntry, ENTRY_COUNT,
};
use crate::memory::{PhysFrame, FRAME_SIZE};
use vstd::prelude::*;
use x86_64::structures::paging::PageTable;

verus! {

/// The number of levels of page tables.
pub const LEVELS: u8 = 4;

/// How the walk through the page tables for an address ended.
#[derive(Clone, Copy, Debug, PartialEq, Eq, Structural)]
pub enum Translation {
    /// The address is mapped to this physical address.
    Mapped(u64),
    /// An entry on the way is unused: the address is not mapped.
    Unmapped,
    /// An entry on the way maps a huge frame, which the walk cannot follow.
    HugeFrame,
    /// The table in the frame at this address is on the way and cannot be read: it was not
    /// loaded, or the offset mapping does not reach its frame.
    Unreadable(u64),
}

/// The entries of a page table, each as what it points to.
pub open spec fn table_entries(table: PageTable) -> Seq<PageTableEntry> {
    Seq::new(ENTRY_COUNT as nat, |index: int| entry_of_bits(page_table_bits(table)[index]))
}

/// The index into the table of `level` at which the walk for `addr` reads: nine bits of the
/// page number, the lowest nine for level 1.
pub open spec fn table_index(addr: u64, level: nat) -> int {
    let page = addr as int / 4096;
    if level <= 1 {
        page % 512
    } else if level == 2 {
        page / 512 % 512
    } else if level == 3 {
        page / 512 / 512 % 512
    } else {
        page / 512 / 512 / 512 % 512
    }
}

/// The entry at `index` of the table in the frame at `table`, read at the virtual address that
/// the offset mapping gives the frame; `None` where no table is known there.
pub open spec fn read_entry(
    memory: Map<u64, Seq<PageTableEntry>>,
    offset: u64,
    table: u64,
    index: int,
) -> Option<PageTableEntry> {
    if offset + table <= u64::MAX && memory.dom().contains((offset + table) as u64) {
        Some(memory[(offset + table) as u64][index])
    } else {
        None
    }
}

/// The walk for `addr` from the table of `level` in the frame at `table` down to level 1: a
/// table that cannot be read ends it, an unused entry ends it as unmapped, a huge frame as
/// such, and the frame of the entry on level 1 is the one that `addr` is mapped to, at the
/// offset that `addr` has in its page.
pub open spec fn walk_from(
    memory: Map<u64, Seq<PageTableEntry>>,
    offset: u64,
    table: u64,
    addr: u64,
    level: nat,
) -> Translation
    decreases level,
{
    match read_entry(memory, offset, table, table_index(addr, level)) {
        None => Translation::Unreadable(table),
        Some(PageTableEntry::Unused) => Translation::Unmapped,
        Some(PageTableEntry::HugeFrame) => Translation::HugeFrame,
        Some(PageTableEntry::Frame(frame)) => if level <= 1 {
            Translation::Mapped((frame + addr % FRAME_SIZE) as u64)
        } else {
            walk_from(memory, offset, frame, addr, (level - 1) as nat)
        },
    }
}

/// The table that was loaded last at the virtual address `addr`, if any was.
spec fn loaded_at(tables: Seq<(u64, PageTable)>, addr: u64) -> Option<PageTable>
    decreases tables.len(),
{
    if tables.len() == 0 {
        None
    } else if tables.last().0 == addr {
        Some(tables.last().1)
    } else {
        loaded_at(tables.drop_last(), addr)
    }
}

/// The page tables of an address space, seen through a mapping of all physical memory at a
/// fixed offset: the frame of the level 4 table, the offset, and the tables that were loaded
/// from memory.
pub struct OffsetPageTable {
    physical_memory_offset: u64,
    level_4_frame: PhysFrame,
    tables: Vec<(u64, PageTable)>,
}

impl OffsetPageTable {
    /// The virtual address at which the physical address 0 is mapped.
    pub closed spec fn offset(&self) -> u64 {
        self.physical_memory_offset
    }

    /// The start address of the frame that holds the level 4 table.
    pub closed spec fn root(&self) -> u64 {
        self.level_4_frame.start()
    }

    /// The tables that are known, each under the virtual address at which it is read.
    pub closed spec fn memory(&self) -> Map<u64, Seq<PageTableEntry>> {
        Map::new(
            |addr: u64| loaded_at(self.tables@, addr) is Some,
            |addr: u64| table_entries(loaded_at(self.tables@, addr).unwrap()),
        )
    }

    /// How the walk for `addr` ends.
    pub open spec fn translation(&self, addr: u64) -> Translation {
        walk_from(self.memory(), self.offset(), self.root(), addr, LEVELS as nat)
    }

    /// The page tables behind the level 4 table in `level_4_frame`, with no table loaded yet.
    pub fn new(physical_memory_offset: u64, level_4_frame: PhysFrame) -> (mapper: Self)
        ensures
            mapper.offset() == physical_memory_offset,
            mapper.root() == level_4_frame.start(),
            mapper.memory() == Map::<u64, Seq<PageTableEntry>>::empty(),
    {
        let mapper = OffsetPageTable { physical_memory_offset, level_4_frame, tables: Vec::new() };
        assert(mapper.memory() =~= Map::<u64, Seq<PageTableEntry>>::empty());
        mapper
    }

    /// Makes known the table that physical memory holds in `frame`. Returns whether the offset
    /// mapping reaches the frame; if not, nothing changes. A table that was loaded for the same
    /// frame before is replaced.
    pub fn load_table(&mut self, frame: PhysFrame, table: PageTable) -> (reached: bool)
        ensures
            final(self).offset() == old(self).offset(),
            final(self).root() == old(self).root(),
            reached == (old(self).offset() + frame.start() <= u64::MAX),
            reached ==> final(self).memory() == old(self).memory().insert(
                (old(self).offset() + frame.start()) as u64,
                table_entries(table),
            ),
            !reached ==> final(self).memory() == old(self).memory(),
    {
        match self.physical_memory_offset.checked_add(frame.start_address()) {
            Some(addr) => {
                self.tables.push((addr, table));
                proof {
                    assert(self.tables@.drop_last() =~= old(self).tables@);
                    assert(self.memory() =~= old(self).memory().insert(addr, table_entries(table)));
                }
                true
            },
            None => false,
        }
    }

    /// The table that is known at the virtual address `addr`.
    fn table_at(&self, addr: u64) -> (table: Option<&PageTable>)
        ensures
            match table {
                Some(table) => self.memory().dom().contains(addr) && self.memory()[addr]
                    == table_entries(*table),
                None => !self.memory().dom().contains(addr),
            },
    {
        let mut index: usize = self.tables.len();
        assert(self.tables@.take(index as int) =~= self.tables@);
        while index > 0
            invariant
                index <= self.tables@.len(),
                loaded_at(self.tables@, addr) == loaded_at(self.tables@.take(index as int), addr),
            decreases index,
        {
            index -= 1;
            proof {
                let longer = self.tables@.take(index + 1);
                assert(longer.drop_last() =~= self.tables@.take(index as int));
                assert(longer.last() == self.tables@[index as int]);
            }
            if self.tables[index].0 == addr {
                return Some(&self.tables[index].1);
            }
        }
        None
    }

    /// Walks the page tables for the virtual address `addr`, of which the low 48 bits count.
    pub fn walk(&self, addr: u64) -> (r: Translation)
        ensures
            r == self.translation(addr),
    {
        let mut frame: u64 = self.level_4_frame.start_address();
        let mut level: u8 = LEVELS;
        loop
            invariant
                1 <= level <= LEVELS,
                self.translation(addr) == walk_from(
                    self.memory(),
                    self.offset(),
                    frame,
                    addr,
                    level as nat,
                ),
            decreases level,
        {
            let page: u64 = addr / 4096;
            let index: u64 = if level == 1 {
                page % 512
            } else if level == 2 {
                page / 512 % 512
            } else if level == 3 {
                page / 512 / 512 % 512
            } else {
                page / 512 / 512 / 512 % 512
            };
            let table_addr: u64 = match self.physical_memory_offset.checked_add(frame) {
                Some(table_addr) => table_addr,
                None => {
                    return Translation::Unreadable(frame);
                },
            };
            let table = match self.table_at(table_addr) {
                Some(table) => table,
                None => {
                    return Translation::Unreadable(frame);
                },
            };
            match page_table_entry(table, index as usize) {
                PageTableEntry::Unused => {
                    return Translation::Unmapped;
                },
                PageTableEntry::HugeFrame => {
                    return Translation::HugeFrame;
                },
                PageTableEntry::Frame(next) => {
                    proof {
                        lemma_frame_bits(page_table_bits(*table)[index as int]);
                    }
                    if level == 1 {
                        return Translation::Mapped(next + addr % FRAME_SIZE);
                    }
                    frame = next;
                    level -= 1;
                },
            }
        }
    }

    /// Translates the virtual address `addr` to the physical address that it is mapped to, or
    /// `None` if it is not mapped. The walk must not meet a huge frame, nor a table outside the
    /// known memory.
    pub fn translate(&self, addr: u64) -> (r: Option<u64>)
        requires
            self.translation(addr) is Mapped || self.translation(addr) is Unmapped,
        ensures
            r == match self.translation(addr) {
                Translation::Mapped(phys) => Some(phys),
                _ => None,
            },
    {
        match self.walk(addr) {
            Translation::Mapped(phys) => Some(phys),
            _ => None,
        }
    }
}

/// Whether the walk for the page at `page` leads from the level 4 table over the tables in the
/// frames at `level_3`, `level_2` and `level_1` to the frame at `frame`, through an entry that
/// points to each.
pub open spec fn page_path(
    memory: Map<u64, Seq<PageTableEntry>>,
    offset: u64,
    root: u64,
    page: u64,
    level_3: u64,
    level_2: u64,
    level_1: u64,
    frame: u64,
) -> bool {
    &&& read_entry(memory, offset, root, table_index(page, 4)) == Some(
        PageTableEntry::Frame(level_3),
    )
    &&& read_entry(memory, offset, level_3, table_index(page, 3)) == Some(
        PageTableEntry::Frame(level_2),
    )
    &&& read_entry(memory, offset, level_2, table_index(page, 2)) == Some(
        PageTableEntry::Frame(level_1),
    )
    &&& read_entry(memory, offset, level_1, table_index(page, 1)) == Some(
        PageTableEntry::Frame(frame),
    )
}

/// Whether the tables map the page at `page` to the frame at `frame`: the entry for the page in
/// the level 4 table points to a level 3 table, the entry there to a level 2 table, the entry
/// there to a level 1 table, and the entry there to the frame.
pub open spec fn page_mapped_to(
    memory: Map<u64, Seq<PageTableEntry>>,
    offset: u64,
    root: u64,
    page: u64,
    frame: u64,
) -> bool {
    exists|level_3: u64, level_2: u64, level_1: u64| #[trigger]
        page_path(memory, offset, root, page, level_3, level_2, level_1, frame)
}

/// Translation goes by pages: the addresses of a page are mapped to the frame of the page's
/// first address, each at its own offset, or none of them is mapped.
pub proof fn lemma_translation_within_page(mapper: OffsetPageTable, page: u64, k: u64)
    requires
        page % FRAME_SIZE == 0,
        k < FRAME_SIZE,
        page + k <= u64::MAX,
    ensures
        mapper.translation((page + k) as u64) == match mapper.translation(page) {
            Translation::Mapped(phys) => Translation::Mapped((phys + k) as u64),
            other => other,
        },
{
    lemma_walk_within_page(
        mapper.memory(),
        mapper.offset(),
        mapper.root(),
        page,
        k,
        LEVELS as nat,
    );
}

/// Only the low 48 bits of a virtual address take part in its translation.
pub proof fn lemma_translation_reads_48_bits(mapper: OffsetPageTable, addr: u64)
    ensures
        mapper.translation(addr) == mapper.translation((addr % 0x1_0000_0000_0000) as u64),
{
    lemma_walk_reads_48_bits(
        mapper.memory(),
        mapper.offset(),
        mapper.root(),
        addr,
        LEVELS as nat,
    );
}

/// Where the tables map the page at `page` to the frame at `frame`, the address `page + k` of
/// the page translates to the address `frame + k` of the frame.
pub proof fn lemma_mapped_page_translates(mapper: OffsetPageTable, page: u64, frame: u64, k: u64)
    requires
        page_mapped_to(mapper.memory(), mapper.offset(), mapper.root(), page, frame),
        page % FRAME_SIZE == 0,
        k < FRAME_SIZE,
        page + k <= u64::MAX,
    ensures
        mapper.translation((page + k) as u64) == Translation::Mapped((frame + k) as u64),
{
    let memory = mapper.memory();
    let offset = mapper.offset();
    let (level_3, level_2, level_1) = choose|level_3: u64, level_2: u64, level_1: u64| #[trigger]
        page_path(memory, offset, mapper.root(), page, level_3, level_2, level_1, frame);
    assert(walk_from(memory, offset, level_1, page, 1) == Translation::Mapped(frame));
    assert(walk_from(memory, offset, level_2, page, 2) == Translation::Mapped(frame));
    assert(walk_from(memory, offset, level_3, page, 3) == Translation::Mapped(frame));
    assert(mapper.translation(page) == Translation::Mapped(frame));
    lemma_translation_within_page(mapper, page, k);
}

proof fn lemma_walk_within_page(
    memory: Map<u64, Seq<PageTableEntry>>,
    offset: u64,
    table: u64,
    page: u64,
    k: u64,
    level: nat,
)
    requires
        page % FRAME_SIZE == 0,
        k < FRAME_SIZE,
        page + k <= u64::MAX,
    ensures
        walk_from(memory, offset, table, (page + k) as u64, level) == match walk_from(
            memory,
            offset,
            table,
            page,
            level,
        ) {
            Translation::Mapped(phys) => Translation::Mapped((phys + k) as u64),
            other => other,
        },
    decreases level,
{
    let addr = (page + k) as u64;
    assert(addr as int / 4096 == page as int / 4096);
    assert(table_index(addr, level) == table_index(page, level));
    match read_entry(memory, offset, table, table_index(page, level)) {
        Some(PageTableEntry::Frame(frame)) => {
            if level > 1 {
                lemma_walk_within_page(memory, offset, frame, page, k, (level - 1) as nat);
            }
        },
        _ => {},
    }
}

proof fn lemma_walk_reads_48_bits(
    memory: Map<u64, Seq<PageTableEntry>>,
    offset: u64,
    table: u64,
    addr: u64,
    level: nat,
)
    ensures
        walk_from(memory, offset, table, addr, level) == walk_from(
            memory,
            offset,
            table,
            (addr % 0x1_0000_0000_0000) as u64,
            level,
        ),
    decreases level,
{
    let low: u64 = (addr % 0x1_0000_0000_0000) as u64;
    assert(low == addr % 0x1_0000_0000_0000u64);
    assert(low % 4096 == addr % 4096) by (bit_vector)
        requires
            low == addr % 0x1_0000_0000_0000u64,
    ;
    assert(low / 4096 % 512 == addr / 4096 % 512) by (bit_vector)
        requires
            low == addr % 0x1_0000_0000_0000u64,
    ;
    assert(low / 4096 / 512 % 512 == addr / 4096 / 512 % 512) by (bit_vector)
        requires
            low == addr % 0x1_0000_0000_0000u64,
    ;
    assert(low / 4096 / 512 / 512 % 512 == addr / 4096 / 512 / 512 % 512) by (bit_vector)
        requires
            low == addr % 0x1_0000_0000_0000u64,
    ;
    assert(low / 4096 / 512 / 512 / 512 % 512 == addr / 4096 / 512 / 512 / 512 % 512)
        by (bit_vector)
        requires
            low == addr % 0x1_0000_0000_0000u64,
    ;
    assert(table_index(low, level) == table_index(addr, level));
    match read_entry(memory, offset, table, table_index(addr, level)) {
        Some(PageTableEntry::Frame(frame)) => {
            if level > 1 {
                lemma_walk_reads_48_bits(memory, offset, frame, addr, (level - 1) as nat);
            }
        },
        _ => {},
    }
}

/// The frame that an entry points to starts at a multiple of the frame size and is a frame of
/// physical memory.
proof fn lemma_frame_bits(bits: u64)
    ensures
        (bits & 0x000f_ffff_ffff_f000) % 4096 == 0,
        (bits & 0x000f_ffff_ffff_f000) < 0x10_0000_0000_0000,
{
    assert((bits & 0x000f_ffff_ffff_f000) % 4096 == 0) by (bit_vector);
    assert((bits & 0x000f_ffff_ffff_f000) < 0x10_0000_0000_0000) by (bit_vector);
}

} // verus!
