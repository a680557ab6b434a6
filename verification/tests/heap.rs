use capeos::allocator::fixed_size_block::{list_index, FixedSizeBlockAllocator, BLOCK_SIZES};
use std::mem::MaybeUninit;

const HEAP_SIZE: usize = 100 * 1024;

fn heap_memory(size: usize) -> (&'static mut [MaybeUninit<u8>], usize) {
    let memory: &'static mut [MaybeUninit<u8>] =
        Box::leak(vec![MaybeUninit::<u8>::uninit(); size].into_boxed_slice());
    let start = memory.as_ptr() as usize;
    (memory, start)
}

fn new_heap(size: usize) -> (FixedSizeBlockAllocator, usize) {
    let (memory, start) = heap_memory(size);
    let mut allocator = FixedSizeBlockAllocator::new();
    allocator.init(memory);
    (allocator, start)
}

fn apart(a: usize, a_len: usize, b: usize, b_len: usize) -> bool {
    a + a_len <= b || b + b_len <= a
}

#[test]
fn list_index_picks_the_smallest_class_that_fits() {
    assert_eq!(list_index(0, 1), Some(0));
    assert_eq!(list_index(1, 1), Some(0));
    assert_eq!(list_index(8, 8), Some(0));
    assert_eq!(list_index(9, 1), Some(1));
    assert_eq!(list_index(16, 4), Some(1));
    assert_eq!(list_index(17, 4), Some(2));
    assert_eq!(list_index(24, 8), Some(2));
    assert_eq!(list_index(33, 8), Some(3));
    assert_eq!(list_index(100, 8), Some(4));
    assert_eq!(list_index(129, 8), Some(5));
    assert_eq!(list_index(257, 8), Some(6));
    assert_eq!(list_index(513, 8), Some(7));
    assert_eq!(list_index(1024, 8), Some(7));
    assert_eq!(list_index(1025, 8), Some(8));
    assert_eq!(list_index(2048, 8), Some(8));
}

#[test]
fn list_index_goes_by_the_alignment_too() {
    assert_eq!(list_index(1, 16), Some(1));
    assert_eq!(list_index(8, 64), Some(3));
    assert_eq!(list_index(24, 2048), Some(8));
    assert_eq!(list_index(2048, 2048), Some(8));
}

#[test]
fn list_index_has_no_class_above_the_largest_block() {
    assert_eq!(list_index(2049, 1), None);
    assert_eq!(list_index(4096, 8), None);
    assert_eq!(list_index(8, 4096), None);
    assert_eq!(list_index(usize::MAX / 2, 1), None);
}

#[test]
fn list_index_covers_every_size_up_to_the_largest_block() {
    for size in 0..=2048usize {
        let index = list_index(size, 1).unwrap();
        assert!(BLOCK_SIZES[index] >= size);
        if index > 0 {
            assert!(BLOCK_SIZES[index - 1] < size);
        }
    }
}

#[test]
fn a_fresh_allocator_has_no_memory() {
    let mut allocator = FixedSizeBlockAllocator::new();
    assert_eq!(allocator.allocate(24, 8), None);
    assert_eq!(allocator.allocate(5000, 8), None);
    for index in 0..BLOCK_SIZES.len() {
        assert_eq!(allocator.free_blocks(index), 0);
    }
}

#[test]
fn a_small_request_gets_a_block_of_its_class() {
    let (mut allocator, start) = new_heap(HEAP_SIZE);
    let addr = allocator.allocate(24, 8).unwrap();
    assert_ne!(addr, 0);
    assert_eq!(addr % 32, 0);
    assert!(start <= addr && addr + 32 <= start + HEAP_SIZE);
    assert_eq!(allocator.free_blocks(2), 0);
}

#[test]
fn a_block_that_is_given_back_is_reused_first() {
    let (mut allocator, _) = new_heap(HEAP_SIZE);
    let first = allocator.allocate(24, 8).unwrap();
    let before = allocator.free_blocks(2);
    assert!(allocator.deallocate(first, 24, 8));
    assert_eq!(allocator.free_blocks(2), before + 1);
    let second = allocator.allocate(24, 8).unwrap();
    assert_eq!(second, first);
    assert_eq!(allocator.free_blocks(2), before);
}

#[test]
fn blocks_leave_a_free_list_last_in_first_out() {
    let (mut allocator, _) = new_heap(HEAP_SIZE);
    let a = allocator.allocate(64, 8).unwrap();
    let b = allocator.allocate(64, 8).unwrap();
    let c = allocator.allocate(64, 8).unwrap();
    assert!(allocator.deallocate(a, 64, 8));
    assert!(allocator.deallocate(b, 64, 8));
    assert!(allocator.deallocate(c, 64, 8));
    assert_eq!(allocator.free_blocks(3), 3);
    assert_eq!(allocator.allocate(64, 8), Some(c));
    assert_eq!(allocator.allocate(64, 8), Some(b));
    assert_eq!(allocator.allocate(64, 8), Some(a));
    assert_eq!(allocator.free_blocks(3), 0);
}

#[test]
fn a_block_returns_to_the_list_of_its_own_class_only() {
    let (mut allocator, _) = new_heap(HEAP_SIZE);
    let small = allocator.allocate(8, 8).unwrap();
    let large = allocator.allocate(2000, 8).unwrap();
    assert!(allocator.deallocate(small, 8, 8));
    assert!(allocator.deallocate(large, 2000, 8));
    for index in 0..BLOCK_SIZES.len() {
        let expected = if index == 0 || index == 8 { 1 } else { 0 };
        assert_eq!(allocator.free_blocks(index), expected);
    }
    let other = allocator.allocate(16, 8).unwrap();
    assert_ne!(other, small);
    assert_ne!(other, large);
}

#[test]
fn live_blocks_do_not_overlap() {
    let (mut allocator, start) = new_heap(HEAP_SIZE);
    let requests: [(usize, usize); 10] = [
        (1, 1),
        (24, 8),
        (8, 64),
        (100, 4),
        (2048, 8),
        (3000, 16),
        (5000, 8),
        (16, 4096),
        (24, 8),
        (2049, 1),
    ];
    let mut live: Vec<(usize, usize)> = Vec::new();
    for (size, align) in requests {
        let addr = allocator.allocate(size, align).unwrap();
        assert_eq!(addr % align, 0);
        let granted = match list_index(size, align) {
            Some(index) => BLOCK_SIZES[index],
            None => size,
        };
        assert!(start <= addr && addr + granted <= start + HEAP_SIZE);
        for &(other, other_len) in &live {
            assert!(apart(addr, granted, other, other_len));
        }
        live.push((addr, granted));
    }
    let (addr, len) = live.remove(1);
    assert!(allocator.deallocate(addr, 24, 8));
    let again = allocator.allocate(30, 2).unwrap();
    assert_eq!(again, addr);
    for &(other, other_len) in &live {
        assert!(apart(again, len, other, other_len));
    }
}

#[test]
fn a_large_request_leaves_the_free_lists_alone() {
    let (mut allocator, _) = new_heap(HEAP_SIZE);
    let a = allocator.allocate(24, 8).unwrap();
    let b = allocator.allocate(512, 8).unwrap();
    assert!(allocator.deallocate(a, 24, 8));
    assert!(allocator.deallocate(b, 512, 8));
    let before: Vec<usize> = (0..BLOCK_SIZES.len()).map(|i| allocator.free_blocks(i)).collect();
    let large = allocator.allocate(4096, 8).unwrap();
    assert_ne!(large, a);
    assert_ne!(large, b);
    let after: Vec<usize> = (0..BLOCK_SIZES.len()).map(|i| allocator.free_blocks(i)).collect();
    assert_eq!(after, before);
    assert_eq!(allocator.allocate(24, 8), Some(a));
    assert_eq!(allocator.allocate(512, 8), Some(b));
}

#[test]
fn a_large_block_is_owed_to_the_fallback_heap() {
    let (mut allocator, _) = new_heap(HEAP_SIZE);
    let large = allocator.allocate(5000, 8).unwrap();
    assert!(!allocator.deallocate(large, 5000, 8));
    for index in 0..BLOCK_SIZES.len() {
        assert_eq!(allocator.free_blocks(index), 0);
    }
}

#[test]
fn the_fallback_heap_aligns_as_asked() {
    let (mut allocator, start) = new_heap(HEAP_SIZE);
    let addr = allocator.allocate(16, 4096).unwrap();
    assert_eq!(addr % 4096, 0);
    assert!(start <= addr && addr + 16 <= start + HEAP_SIZE);
}

#[test]
fn a_request_larger_than_the_heap_fails() {
    let (mut allocator, _) = new_heap(HEAP_SIZE);
    assert_eq!(allocator.allocate(HEAP_SIZE + 1, 8), None);
    assert_eq!(allocator.allocate(isize::MAX as usize - 7, 8), None);
    assert!(allocator.allocate(24, 8).is_some());
}

#[test]
fn a_heap_of_100_kib_serves_small_and_large_requests_until_it_is_exhausted() {
    let (mut allocator, start) = new_heap(HEAP_SIZE);

    let object = allocator.allocate(24, 8).unwrap();
    assert_eq!(list_index(24, 8), Some(2));
    assert_eq!(BLOCK_SIZES[2], 32);
    assert_eq!(object % 32, 0);

    assert!(allocator.deallocate(object, 24, 8));
    assert_eq!(allocator.free_blocks(2), 1);
    assert_eq!(allocator.allocate(24, 8), Some(object));
    assert_eq!(allocator.free_blocks(2), 0);

    let large = allocator.allocate(5000, 8).unwrap();
    assert!(apart(large, 5000, object, 32));
    assert!(start <= large && large + 5000 <= start + HEAP_SIZE);
    for index in 0..BLOCK_SIZES.len() {
        assert_eq!(allocator.free_blocks(index), 0);
    }

    let mut granted = 0;
    let mut exhausted = false;
    for _ in 0..HEAP_SIZE / 4096 + 1 {
        match allocator.allocate(4096, 8) {
            Some(addr) => {
                assert!(apart(addr, 4096, object, 32));
                assert!(apart(addr, 4096, large, 5000));
                granted += 1;
            }
            None => {
                exhausted = true;
                break;
            }
        }
    }
    assert!(exhausted);
    assert!(granted >= 20);
    assert_eq!(allocator.allocate(4096, 8), None);
}
