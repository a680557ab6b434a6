use capeos::memory::paging::{OffsetPageTable, Translation};
use capeos::memory::{init, PhysFrame};
use x86_64::structures::paging::{PageTable, PageTableFlags};
use x86_64::{PhysAddr, VirtAddr};

const LEVEL_4: u64 = 0x1000;
const LEVEL_3: u64 = 0x2000;
const LEVEL_2: u64 = 0x3000;
const LEVEL_1: u64 = 0x4000;
const PAGE: u64 = 0x4444_4444_0000;
const FRAME: u64 = 0x5_0000_7000;

fn present() -> PageTableFlags {
    PageTableFlags::PRESENT | PageTableFlags::WRITABLE
}

fn table_with(index: usize, target: u64, flags: PageTableFlags) -> PageTable {
    let mut table = PageTable::new();
    table[index].set_addr(PhysAddr::new(target), flags);
    table
}

fn indexes(addr: u64) -> [usize; 4] {
    let addr = VirtAddr::new(addr);
    [
        usize::from(addr.p4_index()),
        usize::from(addr.p3_index()),
        usize::from(addr.p2_index()),
        usize::from(addr.p1_index()),
    ]
}

fn mapped(offset: u64) -> OffsetPageTable {
    let [at_4, at_3, at_2, at_1] = indexes(PAGE);
    let mut mapper = init(
        offset,
        PhysFrame::containing_address(LEVEL_4),
        table_with(at_4, LEVEL_3, present()),
    );
    assert!(mapper.load_table(
        PhysFrame::containing_address(LEVEL_3),
        table_with(at_3, LEVEL_2, present())
    ));
    assert!(mapper.load_table(
        PhysFrame::containing_address(LEVEL_2),
        table_with(at_2, LEVEL_1, present())
    ));
    assert!(mapper.load_table(
        PhysFrame::containing_address(LEVEL_1),
        table_with(at_1, FRAME, present())
    ));
    mapper
}

#[test]
fn every_address_of_a_mapped_page_translates_into_its_frame() {
    let mapper = mapped(0);
    for k in [0u64, 1, 7, 0x123, 0x800, 0xffe, 0xfff] {
        assert_eq!(mapper.translate(PAGE + k), Some(FRAME + k));
        assert_eq!(mapper.walk(PAGE + k), Translation::Mapped(FRAME + k));
    }
}

#[test]
fn tables_are_read_at_the_offset_of_physical_memory() {
    let mapper = mapped(0x1_0000_0000_0000);
    assert_eq!(mapper.translate(PAGE), Some(FRAME));
    assert_eq!(mapper.translate(PAGE + 0xabc), Some(FRAME + 0xabc));
}

#[test]
fn the_pages_beside_a_mapped_page_are_not_mapped() {
    let mapper = mapped(0);
    assert_eq!(mapper.translate(PAGE + 0x1000), None);
    assert_eq!(mapper.translate(PAGE - 1), None);
    assert_eq!(mapper.translate(0), None);
    assert_eq!(mapper.walk(PAGE + 0x1000), Translation::Unmapped);
}

#[test]
fn an_unused_entry_on_any_level_ends_the_walk() {
    let [at_4, at_3, at_2, _] = indexes(PAGE);
    let mut mapper = init(
        0,
        PhysFrame::containing_address(LEVEL_4),
        table_with(at_4, LEVEL_3, present()),
    );
    mapper.load_table(PhysFrame::containing_address(LEVEL_3), table_with(at_3, LEVEL_2, present()));
    mapper.load_table(PhysFrame::containing_address(LEVEL_2), table_with(at_2, LEVEL_1, present()));
    mapper.load_table(PhysFrame::containing_address(LEVEL_1), PageTable::new());
    assert_eq!(mapper.walk(PAGE), Translation::Unmapped);
    assert_eq!(mapper.translate(PAGE), None);

    let empty_root = init(0, PhysFrame::containing_address(LEVEL_4), PageTable::new());
    assert_eq!(empty_root.walk(PAGE), Translation::Unmapped);
    assert_eq!(empty_root.translate(PAGE + 5), None);
}

#[test]
fn an_entry_without_the_present_bit_is_unused() {
    let [at_4, _, _, _] = indexes(PAGE);
    let mapper = init(
        0,
        PhysFrame::containing_address(LEVEL_4),
        table_with(at_4, LEVEL_3, PageTableFlags::WRITABLE),
    );
    assert_eq!(mapper.walk(PAGE), Translation::Unmapped);
}

#[test]
fn a_huge_frame_is_reported() {
    let [at_4, at_3, at_2, _] = indexes(PAGE);
    let mut mapper = init(
        0,
        PhysFrame::containing_address(LEVEL_4),
        table_with(at_4, LEVEL_3, present()),
    );
    mapper.load_table(PhysFrame::containing_address(LEVEL_3), table_with(at_3, LEVEL_2, present()));
    mapper.load_table(
        PhysFrame::containing_address(LEVEL_2),
        table_with(at_2, 0x20_0000, present() | PageTableFlags::HUGE_PAGE),
    );
    assert_eq!(mapper.walk(PAGE), Translation::HugeFrame);
    assert_eq!(mapper.walk(PAGE + 0xfff), Translation::HugeFrame);
}

#[test]
fn a_table_that_was_not_loaded_cannot_be_read() {
    let [at_4, _, _, _] = indexes(PAGE);
    let mapper = init(
        0,
        PhysFrame::containing_address(LEVEL_4),
        table_with(at_4, LEVEL_3, present()),
    );
    assert_eq!(mapper.walk(PAGE), Translation::Unreadable(LEVEL_3));
}

#[test]
fn a_walk_goes_on_where_the_missing_table_is_loaded() {
    let [at_4, at_3, at_2, at_1] = indexes(PAGE);
    let mut mapper = init(
        0,
        PhysFrame::containing_address(LEVEL_4),
        table_with(at_4, LEVEL_3, present()),
    );
    assert_eq!(mapper.walk(PAGE), Translation::Unreadable(LEVEL_3));
    mapper.load_table(PhysFrame::containing_address(LEVEL_3), table_with(at_3, LEVEL_2, present()));
    assert_eq!(mapper.walk(PAGE), Translation::Unreadable(LEVEL_2));
    mapper.load_table(PhysFrame::containing_address(LEVEL_2), table_with(at_2, LEVEL_1, present()));
    assert_eq!(mapper.walk(PAGE), Translation::Unreadable(LEVEL_1));
    mapper.load_table(PhysFrame::containing_address(LEVEL_1), table_with(at_1, FRAME, present()));
    assert_eq!(mapper.walk(PAGE), Translation::Mapped(FRAME));
}

#[test]
fn a_frame_beyond_the_offset_mapping_is_not_loaded() {
    let root = PhysFrame::containing_address(LEVEL_4);
    let mut mapper = OffsetPageTable::new(u64::MAX - 0x1000, root);
    assert!(mapper.load_table(PhysFrame::containing_address(LEVEL_4), PageTable::new()));
    assert!(!mapper.load_table(PhysFrame::containing_address(LEVEL_3), PageTable::new()));
    assert_eq!(mapper.walk(PAGE), Translation::Unmapped);

    let [at_4, _, _, _] = indexes(PAGE);
    let mut beyond = OffsetPageTable::new(u64::MAX - 0x1000, root);
    beyond.load_table(PhysFrame::containing_address(LEVEL_4), table_with(at_4, LEVEL_3, present()));
    assert_eq!(beyond.walk(PAGE), Translation::Unreadable(LEVEL_3));
}

#[test]
fn a_table_that_is_loaded_again_replaces_the_first() {
    let [at_4, _, _, _] = indexes(PAGE);
    let mut mapper = init(0, PhysFrame::containing_address(LEVEL_4), PageTable::new());
    assert_eq!(mapper.walk(PAGE), Translation::Unmapped);
    mapper.load_table(PhysFrame::containing_address(LEVEL_4), table_with(at_4, LEVEL_3, present()));
    assert_eq!(mapper.walk(PAGE), Translation::Unreadable(LEVEL_3));
    mapper.load_table(PhysFrame::containing_address(LEVEL_4), PageTable::new());
    assert_eq!(mapper.walk(PAGE), Translation::Unmapped);
}

#[test]
fn the_walk_reads_each_level_at_its_own_index() {
    let page: u64 = (1 << 39) | (2 << 30) | (3 << 21) | (4 << 12);
    assert_eq!(indexes(page), [1, 2, 3, 4]);
    let mut mapper = init(
        0,
        PhysFrame::containing_address(LEVEL_4),
        table_with(1, LEVEL_3, present()),
    );
    mapper.load_table(PhysFrame::containing_address(LEVEL_3), table_with(2, LEVEL_2, present()));
    mapper.load_table(PhysFrame::containing_address(LEVEL_2), table_with(3, LEVEL_1, present()));
    mapper.load_table(PhysFrame::containing_address(LEVEL_1), table_with(4, FRAME, present()));
    assert_eq!(mapper.translate(page + 0x10), Some(FRAME + 0x10));
    assert_eq!(mapper.translate(page + 0x1000), None);
    assert_eq!(mapper.translate((1 << 39) | (2 << 30) | (3 << 21) | (5 << 12)), None);
    assert_eq!(mapper.translate((2 << 39) | (2 << 30) | (3 << 21) | (4 << 12)), None);
}

#[test]
fn the_flag_bits_of_an_entry_are_no_part_of_the_frame() {
    let [at_4, at_3, at_2, at_1] = indexes(PAGE);
    let flags = present()
        | PageTableFlags::USER_ACCESSIBLE
        | PageTableFlags::ACCESSED
        | PageTableFlags::DIRTY
        | PageTableFlags::GLOBAL
        | PageTableFlags::NO_EXECUTE;
    let mut mapper = init(
        0,
        PhysFrame::containing_address(LEVEL_4),
        table_with(at_4, LEVEL_3, flags),
    );
    mapper.load_table(PhysFrame::containing_address(LEVEL_3), table_with(at_3, LEVEL_2, flags));
    mapper.load_table(PhysFrame::containing_address(LEVEL_2), table_with(at_2, LEVEL_1, flags));
    mapper.load_table(PhysFrame::containing_address(LEVEL_1), table_with(at_1, FRAME, flags));
    assert_eq!(mapper.translate(PAGE + 0x42), Some(FRAME + 0x42));
}

#[test]
fn the_bits_above_the_48th_take_no_part() {
    let mapper = mapped(0);
    assert_eq!(mapper.walk(PAGE | (0xffff << 48)), Translation::Mapped(FRAME));
    assert_eq!(mapper.walk((PAGE + 0x321) | (0x8000 << 48)), Translation::Mapped(FRAME + 0x321));
    assert_eq!(mapper.walk((PAGE + 0x1000) | (1 << 48)), Translation::Unmapped);
}
