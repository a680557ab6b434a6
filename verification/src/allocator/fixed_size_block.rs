//! A fixed-size-block allocator: one free list for each of nine block sizes, and a linked-list
//! heap behind them for every request that no block size covers and for every block that a list
//! cannot supply.
//!
//! The allocator works on addresses. A free list holds the addresses of the free blocks of its
//! size, the block that was given back last on top; the memory behind an address is the heap's
//! or the caller's, never the allocator's own.

use crate::allocator::fallback::{
    align_up, byte_range, first_fit, heap_allocate_first_fit, heap_bottom, heap_empty,
    heap_free_bytes, heap_holes, heap_init_from_slice, heap_len, heap_size, heap_start,
    padded_size, searchable, HOLE_ALIGN, MIN_BLOCK_SIZE, MIN_HEAP_SIZE,
};
use core::mem::MaybeUninit;
use linked_list_allocator::Heap;
use vstd::arithmetic::div_mod::lemma_mod_mod;
use vstd::arithmetic::power2::is_pow2;
use vstd::layout::valid_layout;
use vstd::prelude::*;

verus! {

/// The block sizes to use.
///
/// Each is a power of two, because a block's size is also its alignment.
pub const BLOCK_SIZES: [usize; 9] = [8, 16, 32, 64, 128, 256, 512, 1024, 2048];

/// The number of block sizes, and of free lists.
pub const CLASS_COUNT: usize = 9;

/// The size and the alignment of a pointer: what every block has room for, so that a kernel
/// can keep the link from a free block to the next in the free block itself.
pub const LIST_NODE_SIZE: usize = 8;

/// The size a block must have to serve a request: no less than the bytes asked for, and no less
/// than their alignment, since a block is aligned to its own size.
pub open spec fn required_size(size: usize, align: usize) -> usize {
    if size >= align {
        size
    } else {
        align
    }
}

/// Whether the block size at `index` is large enough for `required` bytes.
pub open spec fn class_fits(required: usize, index: int) -> bool {
    0 <= index < CLASS_COUNT && BLOCK_SIZES[index] >= required
}

/// Whether the block size at `index` is the smallest that is large enough for `required` bytes.
pub open spec fn smallest_fit(required: usize, index: int) -> bool {
    class_fits(required, index) && forall|smaller: int|
        0 <= smaller < index ==> !class_fits(required, smaller)
}

/// The size class of a request: the index of the smallest block size that is large enough, and
/// `None` where even the largest is too small.
pub open spec fn class_for(size: usize, align: usize) -> Option<usize> {
    let required = required_size(size, align);
    if required > BLOCK_SIZES[CLASS_COUNT - 1] {
        None
    } else {
        Some(choose|index: usize| smallest_fit(required, index as int))
    }
}

/// The number of bytes that a request is granted: its class's block size, or, without a class,
/// what it asked for.
pub open spec fn granted_size(size: usize, align: usize) -> usize {
    match class_for(size, align) {
        Some(index) => BLOCK_SIZES[index as int],
        None => size,
    }
}

/// The alignment that a request is granted: its class's block size, or, without a class, what it
/// asked for.
pub open spec fn granted_align(size: usize, align: usize) -> usize {
    match class_for(size, align) {
        Some(index) => BLOCK_SIZES[index as int],
        None => align,
    }
}

/// The free lists after the block on top of list `index` has left it.
pub open spec fn popped(lists: Seq<Seq<usize>>, index: int) -> Seq<Seq<usize>> {
    lists.update(index, lists[index].drop_last())
}

/// The free lists after the block at `addr` went on top of list `index`.
pub open spec fn pushed(lists: Seq<Seq<usize>>, index: int, addr: usize) -> Seq<Seq<usize>> {
    lists.update(index, lists[index].push(addr))
}

/// What a request to the fallback heap for `size` bytes aligned to `align` returns and leaves
/// behind. A request that the heap cannot search for is not made and fails. Any other returns
/// what the heap's search of its holes returns: where that is an address, it is not 0 and
/// aligned, the padded block behind it lay in the holes and has left them, and nothing else
/// has; where it is none, the holes are as they were.
pub open spec fn carved(
    before: Heap,
    after: Heap,
    size: usize,
    align: usize,
    r: Option<usize>,
) -> bool {
    &&& heap_start(after) == heap_start(before)
    &&& heap_len(after) == heap_len(before)
    &&& r == if searchable(before, size, align) {
        first_fit(heap_holes(before), size, align)
    } else {
        None
    }
    &&& match r {
        Some(addr) => {
            &&& addr != 0
            &&& addr % align == 0
            &&& addr + padded_size(size as int) <= usize::MAX
            &&& byte_range(addr as int, padded_size(size as int)).subset_of(heap_free_bytes(before))
            &&& heap_free_bytes(after) == heap_free_bytes(before).difference(
                byte_range(addr as int, padded_size(size as int)),
            )
        },
        None => heap_holes(after) == heap_holes(before),
    }
}

/// Whether `(index, place)` names a block of the free lists.
pub open spec fn listed(lists: Seq<Seq<usize>>, index: int, place: int) -> bool {
    0 <= index < lists.len() && 0 <= place < lists[index].len()
}

/// Every listed block starts at an address that is not 0 and is aligned to the block size of
/// its list, and ends inside the address space.
pub open spec fn blocks_shaped(lists: Seq<Seq<usize>>) -> bool {
    forall|index: int, place: int|
        #![trigger lists[index][place]]
        listed(lists, index, place) ==> {
            &&& lists[index][place] != 0
            &&& lists[index][place] % BLOCK_SIZES[index] == 0
            &&& lists[index][place] + BLOCK_SIZES[index] <= usize::MAX
        }
}

/// No two listed blocks share a byte.
pub open spec fn blocks_apart(lists: Seq<Seq<usize>>) -> bool {
    forall|index: int, place: int, other: int, other_place: int|
        #![trigger lists[index][place], lists[other][other_place]]
        listed(lists, index, place) && listed(lists, other, other_place) && (index != other
            || place != other_place) ==> {
            ||| lists[index][place] + BLOCK_SIZES[index] <= lists[other][other_place]
            ||| lists[other][other_place] + BLOCK_SIZES[other] <= lists[index][place]
        }
}

/// No listed block holds a byte of `bytes`.
pub open spec fn blocks_outside(lists: Seq<Seq<usize>>, bytes: Set<int>) -> bool {
    forall|index: int, place: int, b: int|
        #![trigger lists[index][place], bytes.contains(b)]
        listed(lists, index, place) && lists[index][place] <= b < lists[index][place]
            + BLOCK_SIZES[index] ==> !bytes.contains(b)
}

/// A fixed-size-block allocator with a linked-list heap as its fallback.
///
/// There is one free list for each block size in `BLOCK_SIZES`: a stack of the addresses of the
/// free blocks of that size, the head at the end. Requests that no block size covers, and
/// requests whose list is empty, go to the fallback heap.
pub struct FixedSizeBlockAllocator {
    list_heads: Vec<Vec<usize>>,
    fallback_allocator: Heap,
    live: Ghost<Set<int>>,
}

impl FixedSizeBlockAllocator {
    /// The free lists, one for each block size in the order of `BLOCK_SIZES`; a list's head is
    /// its last element.
    pub closed spec fn lists(&self) -> Seq<Seq<usize>> {
        Seq::new(self.list_heads@.len(), |index: int| self.list_heads@[index]@)
    }

    /// The fallback heap.
    pub closed spec fn fallback(&self) -> Heap {
        self.fallback_allocator
    }

    /// The bytes that are handed out: granted by `allocate` and not yet given back to
    /// `deallocate`.
    pub closed spec fn live(&self) -> Set<int> {
        self.live@
    }

    /// The allocator's invariant: there are as many free lists as block sizes; their blocks are
    /// aligned to their size, lie apart from each other, from the fallback heap's holes and from
    /// every byte that is handed out; and no byte that is handed out lies in a hole.
    pub open spec fn wf(&self) -> bool {
        &&& self.lists().len() == CLASS_COUNT
        &&& blocks_shaped(self.lists())
        &&& blocks_apart(self.lists())
        &&& blocks_outside(self.lists(), heap_free_bytes(self.fallback()))
        &&& blocks_outside(self.lists(), self.live())
        &&& heap_free_bytes(self.fallback()).disjoint(self.live())
    }

    /// The state of an allocator that manages no memory yet: empty lists, a fallback heap that
    /// was not set up, nothing handed out.
    pub open spec fn fresh(&self) -> bool {
        &&& self.lists() == Seq::new(CLASS_COUNT as nat, |index: int| Seq::<usize>::empty())
        &&& heap_start(self.fallback()) == 0
        &&& heap_len(self.fallback()) == 0
        &&& heap_holes(self.fallback()) == Seq::<(usize, usize)>::empty()
        &&& self.live() == Set::<int>::empty()
    }

    /// What `allocate` makes of a request for `size` bytes aligned to `align`: `self` is the
    /// allocator before the call, `after` the allocator after it, `r` what the call returns.
    ///
    /// A request with a size class whose free list is not empty gets the head of that list,
    /// which leaves the list, and the fallback heap is not touched. Any other request goes to
    /// the fallback heap, for a block of its class's size and alignment or, without a class,
    /// as it is, and the free lists are not touched. A block that is granted is not at address
    /// 0, is aligned, ends inside the address space, holds no byte that was handed out, and is
    /// handed out from now on.
    pub open spec fn allocates(
        &self,
        after: &Self,
        size: usize,
        align: usize,
        r: Option<usize>,
    ) -> bool {
        &&& match class_for(size, align) {
            Some(index) if self.lists()[index as int].len() > 0 => {
                &&& r == Some(self.lists()[index as int].last())
                &&& after.lists() == popped(self.lists(), index as int)
                &&& after.fallback() == self.fallback()
            },
            _ => {
                &&& after.lists() == self.lists()
                &&& carved(
                    self.fallback(),
                    after.fallback(),
                    granted_size(size, align),
                    granted_align(size, align),
                    r,
                )
            },
        }
        &&& match r {
            Some(addr) => {
                &&& addr != 0
                &&& addr % align == 0
                &&& addr % granted_align(size, align) == 0
                &&& addr + granted_size(size, align) <= usize::MAX
                &&& byte_range(addr as int, granted_size(size, align) as int).disjoint(self.live())
                &&& after.live() == self.live().union(
                    byte_range(addr as int, granted_size(size, align) as int),
                )
            },
            None => after.live() == self.live(),
        }
    }

    /// What `deallocate` asks of the block at `addr` that is given back for `size` bytes aligned
    /// to `align`: it is the block of a request that was granted with these, so it is not at
    /// address 0, aligned as it was granted, and its bytes are handed out.
    pub open spec fn holds(&self, addr: usize, size: usize, align: usize) -> bool {
        &&& addr != 0
        &&& addr % granted_align(size, align) == 0
        &&& addr + granted_size(size, align) <= usize::MAX
        &&& byte_range(addr as int, granted_size(size, align) as int).subset_of(self.live())
    }

    /// What `deallocate` makes of the block at `addr` that is given back for `size` bytes
    /// aligned to `align`: `self` is the allocator before the call, `after` the allocator after
    /// it, `listed` what the call returns.
    ///
    /// A block with a size class becomes the head of its class's free list. A block without
    /// one changes no list. Either way the block is no longer handed out, and the fallback heap
    /// is not touched.
    pub open spec fn deallocates(
        &self,
        after: &Self,
        addr: usize,
        size: usize,
        align: usize,
        listed: bool,
    ) -> bool {
        &&& listed == class_for(size, align).is_some()
        &&& after.fallback() == self.fallback()
        &&& after.live() == self.live().difference(
            byte_range(addr as int, granted_size(size, align) as int),
        )
        &&& match class_for(size, align) {
            Some(index) => after.lists() == pushed(self.lists(), index as int, addr),
            None => after.lists() == self.lists(),
        }
    }

    /// Creates an empty allocator. Until `init`, every request fails.
    pub fn new() -> (allocator: Self)
        ensures
            allocator.wf(),
            allocator.fresh(),
    {
        let mut list_heads: Vec<Vec<usize>> = Vec::new();
        let mut index: usize = 0;
        while index < CLASS_COUNT
            invariant
                index <= CLASS_COUNT,
                list_heads@.len() == index,
                forall|i: int| 0 <= i < index ==> list_heads@[i]@ == Seq::<usize>::empty(),
            decreases CLASS_COUNT - index,
        {
            list_heads.push(Vec::new());
            index += 1;
        }
        let allocator = FixedSizeBlockAllocator {
            list_heads,
            fallback_allocator: heap_empty(),
            live: Ghost(Set::empty()),
        };
        assert(allocator.lists() =~= Seq::new(CLASS_COUNT as nat, |i: int| Seq::<usize>::empty()));
        allocator
    }

    /// Hands the memory of `mem` to the allocator, which must be fresh: the fallback heap is set
    /// up on it and from then on holds all of it but the bytes before the first address that is
    /// aligned for a hole's header.
    pub fn init(&mut self, mem: &'static mut [MaybeUninit<u8>])
        requires
            old(self).wf(),
            old(self).fresh(),
            old(mem)@.len() >= MIN_HEAP_SIZE,
        ensures
            final(self).wf(),
            final(self).lists() == old(self).lists(),
            final(self).live() == old(self).live(),
            heap_start(final(self).fallback()) != 0,
            heap_len(final(self).fallback()) == old(mem)@.len(),
            heap_start(final(self).fallback()) + heap_len(final(self).fallback()) <= usize::MAX,
            heap_free_bytes(final(self).fallback()) == byte_range(
                align_up(heap_start(final(self).fallback()) as int, HOLE_ALIGN as int),
                heap_start(final(self).fallback()) + heap_len(final(self).fallback()) - align_up(
                    heap_start(final(self).fallback()) as int,
                    HOLE_ALIGN as int,
                ),
            ),
    {
        heap_init_from_slice(&mut self.fallback_allocator, mem);
        proof {
            let holes = heap_holes(self.fallback_allocator);
            let first = align_up(heap_start(self.fallback_allocator) as int, HOLE_ALIGN as int);
            let end = heap_start(self.fallback_allocator) + heap_len(self.fallback_allocator);
            assert(self.lists() =~= old(self).lists());
            assert forall|b: int| first <= b < end implies heap_free_bytes(
                self.fallback_allocator,
            ).contains(b) by {
                assert(holes[0].0 <= b < holes[0].0 + holes[0].1);
            }
            assert(heap_free_bytes(self.fallback_allocator) =~= byte_range(first, end - first));
        }
    }

    /// The number of free blocks on the list of the block size at `index`.
    pub fn free_blocks(&self, index: usize) -> (count: usize)
        requires
            self.wf(),
            index < CLASS_COUNT,
        ensures
            count == self.lists()[index as int].len(),
    {
        self.list_heads[index].len()
    }

    /// Asks the fallback heap for `size` bytes aligned to `align`. A request that the heap could
    /// not search for without passing the end of the address space is not made.
    fn fallback_alloc(&mut self, size: usize, align: usize) -> (r: Option<usize>)
        requires
            valid_layout(size, align),
        ensures
            final(self).lists() == old(self).lists(),
            final(self).live() == old(self).live(),
            carved(old(self).fallback(), final(self).fallback(), size, align, r),
    {
        proof {
            lemma_pow2_positive(align as int);
        }
        let least: usize = if size < MIN_BLOCK_SIZE {
            MIN_BLOCK_SIZE
        } else {
            size
        };
        let padded: usize = least + (HOLE_ALIGN - 1) - (least + (HOLE_ALIGN - 1)) % HOLE_ALIGN;
        assert(padded == padded_size(size as int));
        let bottom: usize = heap_bottom(&self.fallback_allocator);
        let length: usize = heap_size(&self.fallback_allocator);
        let slack: usize = align - 1;
        let in_reach: bool = slack <= isize::MAX as usize && padded <= isize::MAX as usize - slack
            && length <= usize::MAX - bottom && slack <= usize::MAX - (bottom + length) && padded
            <= usize::MAX - (bottom + length) - slack;
        assert(in_reach == searchable(self.fallback_allocator, size, align));
        let r = if in_reach {
            heap_allocate_first_fit(&mut self.fallback_allocator, size, align)
        } else {
            None
        };
        assert(self.lists() =~= old(self).lists());
        r
    }

    /// Allocates `size` bytes aligned to `align` and returns the address of the block, or `None`
    /// if the fallback heap had to be asked and had no memory for it.
    ///
    /// A request with a size class takes the head of its class's free list. If that list is
    /// empty, a new block of the class's size, aligned to that size, comes from the fallback
    /// heap and goes straight to the caller. A request without a size class goes to the fallback
    /// heap as it is.
    pub fn allocate(&mut self, size: usize, align: usize) -> (r: Option<usize>)
        requires
            old(self).wf(),
            valid_layout(size, align),
        ensures
            final(self).wf(),
            old(self).allocates(final(self), size, align, r),
    {
        proof {
            lemma_pow2_positive(align as int);
        }
        match list_index(size, align) {
            Some(index) => {
                proof {
                    lemma_block_sizes();
                    lemma_pow2_divides_block(align as int, index as int);
                }
                match self.list_heads[index].pop() {
                    Some(addr) => {
                        proof {
                            let block = byte_range(addr as int, BLOCK_SIZES[index as int] as int);
                            let lists = old(self).lists();
                            let last = lists[index as int].len() - 1;
                            assert(self.lists() =~= popped(lists, index as int));
                            assert(addr == lists[index as int][last]);
                            assert(listed(lists, index as int, last));
                            lemma_mod_mod(
                                addr as int,
                                align as int,
                                BLOCK_SIZES[index as int] as int / align as int,
                            );
                            assert forall|b: int| block.contains(b) implies !old(
                                self,
                            ).live().contains(b) && !heap_free_bytes(
                                self.fallback_allocator,
                            ).contains(b) by {}
                            self.live = Ghost(self.live@.union(block));
                            lemma_popped_keeps(
                                lists,
                                index as int,
                                old(self).live(),
                                heap_free_bytes(self.fallback_allocator),
                            );
                        }
                        Some(addr)
                    },
                    None => {
                        assert(self.lists() =~= old(self).lists());
                        proof {
                            lemma_block_layout(index as int);
                        }
                        let block_size: usize = BLOCK_SIZES[index];
                        // only works if all block sizes are a power of two
                        let block_align: usize = block_size;
                        let r = self.fallback_alloc(block_size, block_align);
                        proof {
                            if let Some(addr) = r {
                                let block = byte_range(addr as int, block_size as int);
                                lemma_mod_mod(
                                    addr as int,
                                    align as int,
                                    block_size as int / align as int,
                                );
                                lemma_carved_keeps(
                                    self.lists(),
                                    self.live@,
                                    heap_free_bytes(old(self).fallback_allocator),
                                    heap_free_bytes(self.fallback_allocator),
                                    addr,
                                    padded_size(block_size as int),
                                    block_size as int,
                                );
                                self.live = Ghost(self.live@.union(block));
                            }
                        }
                        r
                    },
                }
            },
            None => {
                let r = self.fallback_alloc(size, align);
                proof {
                    if let Some(addr) = r {
                        lemma_carved_keeps(
                            self.lists(),
                            self.live@,
                            heap_free_bytes(old(self).fallback_allocator),
                            heap_free_bytes(self.fallback_allocator),
                            addr,
                            padded_size(size as int),
                            size as int,
                        );
                        self.live = Ghost(self.live@.union(byte_range(addr as int, size as int)));
                    }
                }
                r
            },
        }
    }

    /// Takes back the block at `addr` that `allocate` granted for `size` bytes aligned to
    /// `align`, and returns whether it went on a free list.
    ///
    /// A block with a size class becomes the head of its class's free list; it never returns to
    /// the fallback heap. A block without a size class came from the fallback heap and is due
    /// back there. The heap takes a block back only through a call that trusts its caller with
    /// memory, which this allocator does not make: it returns `false`, the block is no longer
    /// handed out, and the caller gives it to the heap behind `fallback_mut`.
    pub fn deallocate(&mut self, addr: usize, size: usize, align: usize) -> (listed: bool)
        requires
            old(self).wf(),
            valid_layout(size, align),
            old(self).holds(addr, size, align),
        ensures
            final(self).wf(),
            old(self).deallocates(final(self), addr, size, align, listed),
    {
        match list_index(size, align) {
            Some(index) => {
                proof {
                    lemma_block_sizes();
                    lemma_mod_mod(
                        addr as int,
                        LIST_NODE_SIZE as int,
                        BLOCK_SIZES[index as int] as int / LIST_NODE_SIZE as int,
                    );
                }
                // the block has the size and the alignment to hold the link of the list it joins
                assert(LIST_NODE_SIZE <= BLOCK_SIZES[index as int]);
                assert(addr % LIST_NODE_SIZE == 0);
                self.list_heads[index].push(addr);
                proof {
                    let block = byte_range(addr as int, BLOCK_SIZES[index as int] as int);
                    assert(self.lists() =~= pushed(old(self).lists(), index as int, addr));
                    lemma_pushed_keeps(
                        old(self).lists(),
                        index as int,
                        addr,
                        old(self).live(),
                        heap_free_bytes(self.fallback_allocator),
                    );
                    self.live = Ghost(self.live@.difference(block));
                }
                true
            },
            None => {
                proof {
                    self.live = Ghost(self.live@.difference(byte_range(addr as int, size as int)));
                    assert(self.lists() =~= old(self).lists());
                }
                false
            },
        }
    }

    /// The fallback heap, for the one call that the allocator does not make itself: giving back
    /// a block that `deallocate` did not list.
    pub fn fallback_mut(&mut self) -> (heap: &mut Heap)
        ensures
            *heap == old(self).fallback(),
            final(self).fallback() == *final(heap),
            final(self).lists() == old(self).lists(),
            final(self).live() == old(self).live(),
    {
        &mut self.fallback_allocator
    }
}

/// Chooses the block size for a request of `size` bytes aligned to `align`.
///
/// Returns an index into `BLOCK_SIZES`: that of the smallest block size that is at least `size`
/// and at least `align`; `None` if the request needs more than the largest.
pub fn list_index(size: usize, align: usize) -> (r: Option<usize>)
    ensures
        r == class_for(size, align),
        match r {
            Some(index) => {
                &&& index < CLASS_COUNT
                &&& BLOCK_SIZES[index as int] >= size
                &&& BLOCK_SIZES[index as int] >= align
                &&& forall|smaller: int|
                    0 <= smaller < index ==> BLOCK_SIZES[smaller] < size || BLOCK_SIZES[smaller]
                        < align
            },
            None => size > 2048 || align > 2048,
        },
{
    let required: usize = if size >= align {
        size
    } else {
        align
    };
    let mut index: usize = 0;
    while index < CLASS_COUNT
        invariant
            index <= CLASS_COUNT,
            required == required_size(size, align),
            forall|smaller: int| 0 <= smaller < index ==> BLOCK_SIZES[smaller] < required,
        decreases CLASS_COUNT - index,
    {
        if BLOCK_SIZES[index] >= required {
            proof {
                lemma_class_is_smallest_fit(size, align, index);
            }
            return Some(index);
        }
        index += 1;
    }
    None
}

/// The block sizes, one by one.
pub proof fn lemma_block_sizes()
    ensures
        BLOCK_SIZES[0] == 8,
        BLOCK_SIZES[1] == 16,
        BLOCK_SIZES[2] == 32,
        BLOCK_SIZES[3] == 64,
        BLOCK_SIZES[4] == 128,
        BLOCK_SIZES[5] == 256,
        BLOCK_SIZES[6] == 512,
        BLOCK_SIZES[7] == 1024,
        BLOCK_SIZES[8] == 2048,
{
}

/// A request whose smallest fitting block size is the one at `index` has the size class `index`.
proof fn lemma_class_is_smallest_fit(size: usize, align: usize, index: usize)
    requires
        class_fits(required_size(size, align), index as int),
        forall|smaller: int|
            0 <= smaller < index ==> BLOCK_SIZES[smaller] < required_size(size, align),
    ensures
        class_for(size, align) == Some(index),
{
    let required = required_size(size, align);
    assert(smallest_fit(required, index as int));
    let chosen = choose|i: usize| smallest_fit(required, i as int);
    if chosen < index {
        assert(BLOCK_SIZES[chosen as int] < required);
    }
    if index < chosen {
        assert(!class_fits(required, index as int));
    }
}

/// Size classes cover exactly the requests of up to 2048 bytes and alignment: such a request
/// has the class of the smallest block size that is at least its size and at least its
/// alignment, and a larger one has none.
pub proof fn lemma_class_for(size: usize, align: usize)
    ensures
        match class_for(size, align) {
            Some(index) => {
                &&& size <= 2048 && align <= 2048
                &&& index < CLASS_COUNT
                &&& BLOCK_SIZES[index as int] >= size
                &&& BLOCK_SIZES[index as int] >= align
                &&& forall|smaller: int|
                    0 <= smaller < index ==> BLOCK_SIZES[smaller] < size || BLOCK_SIZES[smaller]
                        < align
            },
            None => size > 2048 || align > 2048,
        },
{
    let required = required_size(size, align);
    lemma_block_sizes();
    if required <= 2048 {
        let index: usize = if required <= 8 {
            0
        } else if required <= 16 {
            1
        } else if required <= 32 {
            2
        } else if required <= 64 {
            3
        } else if required <= 128 {
            4
        } else if required <= 256 {
            5
        } else if required <= 512 {
            6
        } else if required <= 1024 {
            7
        } else {
            8
        };
        lemma_class_is_smallest_fit(size, align, index);
    }
}

/// A block with a size class that is given back and asked for again: the second request gets
/// the very block, and the free lists, the fallback heap and the bytes that are handed out are
/// then what they were before the block was given back.
pub proof fn lemma_release_then_reuse(
    start: FixedSizeBlockAllocator,
    released: FixedSizeBlockAllocator,
    reused: FixedSizeBlockAllocator,
    addr: usize,
    size: usize,
    align: usize,
    listed: bool,
    r: Option<usize>,
)
    requires
        start.wf(),
        class_for(size, align) is Some,
        start.holds(addr, size, align),
        start.deallocates(&released, addr, size, align, listed),
        released.allocates(&reused, size, align, r),
    ensures
        listed,
        r == Some(addr),
        released.lists()[class_for(size, align).unwrap() as int].len() == start.lists()[class_for(
            size,
            align,
        ).unwrap() as int].len() + 1,
        reused.lists() == start.lists(),
        reused.fallback() == start.fallback(),
        reused.live() == start.live(),
{
    lemma_class_for(size, align);
    let index = class_for(size, align).unwrap() as int;
    let lists = start.lists();
    let block = byte_range(addr as int, granted_size(size, align) as int);
    assert(lists[index].push(addr).drop_last() =~= lists[index]);
    assert(popped(pushed(lists, index, addr), index) =~= lists);
    assert(start.live().difference(block).union(block) =~= start.live());
}

/// No overlap: a block that is granted lies apart from every block that is handed out at that
/// time. One of the two ends before the other begins.
pub proof fn lemma_granted_block_lies_apart(
    before: FixedSizeBlockAllocator,
    after: FixedSizeBlockAllocator,
    size: usize,
    align: usize,
    addr: usize,
    held: usize,
    held_len: usize,
)
    requires
        before.allocates(&after, size, align, Some(addr)),
        granted_size(size, align) > 0,
        held_len > 0,
        byte_range(held as int, held_len as int).subset_of(before.live()),
    ensures
        held + held_len <= addr || addr + granted_size(size, align) <= held,
        byte_range(addr as int, granted_size(size, align) as int).subset_of(after.live()),
        byte_range(held as int, held_len as int).subset_of(after.live()),
{
    let first: int = if held >= addr {
        held as int
    } else {
        addr as int
    };
    if !(held + held_len <= addr || addr + granted_size(size, align) <= held) {
        assert(byte_range(held as int, held_len as int).contains(first));
        assert(byte_range(addr as int, granted_size(size, align) as int).contains(first));
    }
}

/// A request above the largest block size, such as one for 4096 bytes, has no size class: it
/// is served by the fallback heap alone and leaves every free list as it was.
pub proof fn lemma_large_request_spares_the_lists(
    before: FixedSizeBlockAllocator,
    after: FixedSizeBlockAllocator,
    size: usize,
    align: usize,
    r: Option<usize>,
)
    requires
        size > 2048 || align > 2048,
        before.allocates(&after, size, align, r),
    ensures
        class_for(size, align) is None,
        after.lists() == before.lists(),
        carved(before.fallback(), after.fallback(), size, align, r),
{
    lemma_class_for(size, align);
}

proof fn lemma_pow2_positive(n: int)
    requires
        is_pow2(n),
    ensures
        n > 0,
{
    reveal(is_pow2);
}

proof fn lemma_pow2_divides_block(align: int, index: int)
    requires
        is_pow2(align),
        0 <= index < CLASS_COUNT,
        align <= BLOCK_SIZES[index],
    ensures
        align > 0,
        BLOCK_SIZES[index] as int % align == 0,
        BLOCK_SIZES[index] == align * (BLOCK_SIZES[index] as int / align),
        BLOCK_SIZES[index] as int / align > 0,
{
    lemma_small_pow2(align);
    lemma_block_sizes();
}

proof fn lemma_small_pow2(n: int)
    requires
        is_pow2(n),
        n <= 2048,
    ensures
        n == 1 || n == 2 || n == 4 || n == 8 || n == 16 || n == 32 || n == 64 || n == 128 || n
            == 256 || n == 512 || n == 1024 || n == 2048,
    decreases n,
{
    reveal(is_pow2);
    if n > 1 {
        lemma_small_pow2(n / 2);
    }
}

proof fn lemma_block_layout(index: int)
    requires
        0 <= index < CLASS_COUNT,
    ensures
        valid_layout(BLOCK_SIZES[index], BLOCK_SIZES[index]),
        padded_size(BLOCK_SIZES[index] as int) >= BLOCK_SIZES[index],
{
    lemma_block_sizes();
    reveal_with_fuel(is_pow2, 13);
    assert(is_pow2(8));
    assert(is_pow2(16));
    assert(is_pow2(32));
    assert(is_pow2(64));
    assert(is_pow2(128));
    assert(is_pow2(256));
    assert(is_pow2(512));
    assert(is_pow2(1024));
    assert(is_pow2(2048));
}

proof fn lemma_popped_keeps(lists: Seq<Seq<usize>>, index: int, live: Set<int>, free: Set<int>)
    requires
        lists.len() == CLASS_COUNT,
        0 <= index < CLASS_COUNT,
        lists[index].len() > 0,
        blocks_shaped(lists),
        blocks_apart(lists),
        blocks_outside(lists, free),
        blocks_outside(lists, live),
        free.disjoint(live),
    ensures
        blocks_shaped(popped(lists, index)),
        blocks_apart(popped(lists, index)),
        blocks_outside(popped(lists, index), free),
        blocks_outside(
            popped(lists, index),
            live.union(byte_range(lists[index].last() as int, BLOCK_SIZES[index] as int)),
        ),
        free.disjoint(
            live.union(byte_range(lists[index].last() as int, BLOCK_SIZES[index] as int)),
        ),
{
    let after = popped(lists, index);
    let last = lists[index].len() - 1;
    let head = lists[index][last];
    let block = byte_range(head as int, BLOCK_SIZES[index] as int);
    assert(listed(lists, index, last));
    assert forall|i: int, k: int| listed(after, i, k) implies listed(lists, i, k) && after[i][k]
        == lists[i][k] && (i != index || k != last) by {}
    assert forall|i: int, k: int, b: int|
        listed(after, i, k) && after[i][k] <= b < after[i][k] + BLOCK_SIZES[i] implies !live.union(
        block).contains(b) by {
        assert(listed(lists, i, k) && after[i][k] == lists[i][k]);
        assert(!live.contains(b));
        assert(lists[i][k] + BLOCK_SIZES[i] <= lists[index][last] || lists[index][last]
            + BLOCK_SIZES[index] <= lists[i][k]);
    }
    assert forall|b: int| free.contains(b) implies !live.union(block).contains(b) by {
        if block.contains(b) {
            assert(lists[index][last] <= b < lists[index][last] + BLOCK_SIZES[index]);
        }
    }
}

proof fn lemma_carved_keeps(
    lists: Seq<Seq<usize>>,
    live: Set<int>,
    free: Set<int>,
    free_after: Set<int>,
    addr: usize,
    padded: int,
    granted: int,
)
    requires
        blocks_outside(lists, free),
        blocks_outside(lists, live),
        free.disjoint(live),
        byte_range(addr as int, padded).subset_of(free),
        free_after == free.difference(byte_range(addr as int, padded)),
        granted <= padded,
    ensures
        blocks_outside(lists, free_after),
        blocks_outside(lists, live.union(byte_range(addr as int, granted))),
        free_after.disjoint(live.union(byte_range(addr as int, granted))),
        byte_range(addr as int, granted).disjoint(live),
{
    let block = byte_range(addr as int, granted);
    assert forall|b: int| block.contains(b) implies free.contains(b) && !free_after.contains(b) by {
        assert(byte_range(addr as int, padded).contains(b));
    }
    assert forall|i: int, k: int, b: int|
        listed(lists, i, k) && lists[i][k] <= b < lists[i][k] + BLOCK_SIZES[i] implies !live.union(
        block).contains(b) by {
        assert(!free.contains(b));
        assert(!live.contains(b));
    }
}

proof fn lemma_pushed_keeps(
    lists: Seq<Seq<usize>>,
    index: int,
    addr: usize,
    live: Set<int>,
    free: Set<int>,
)
    requires
        lists.len() == CLASS_COUNT,
        0 <= index < CLASS_COUNT,
        blocks_shaped(lists),
        blocks_apart(lists),
        blocks_outside(lists, free),
        blocks_outside(lists, live),
        free.disjoint(live),
        addr != 0,
        addr % BLOCK_SIZES[index] == 0,
        addr + BLOCK_SIZES[index] <= usize::MAX,
        byte_range(addr as int, BLOCK_SIZES[index] as int).subset_of(live),
    ensures
        blocks_shaped(pushed(lists, index, addr)),
        blocks_apart(pushed(lists, index, addr)),
        blocks_outside(pushed(lists, index, addr), free),
        blocks_outside(
            pushed(lists, index, addr),
            live.difference(byte_range(addr as int, BLOCK_SIZES[index] as int)),
        ),
        free.disjoint(live.difference(byte_range(addr as int, BLOCK_SIZES[index] as int))),
{
    lemma_block_sizes();
    let after = pushed(lists, index, addr);
    let top = lists[index].len() as int;
    let block = byte_range(addr as int, BLOCK_SIZES[index] as int);
    assert forall|i: int, k: int| listed(after, i, k) implies (i == index && k == top
        && after[i][k] == addr) || (listed(lists, i, k) && after[i][k] == lists[i][k]) by {}
    // a block of the lists holds no byte that is handed out, the new block holds only such
    assert forall|i: int, k: int| listed(lists, i, k) implies lists[i][k] + BLOCK_SIZES[i] <= addr
        || addr + BLOCK_SIZES[index] <= lists[i][k] by {
        let first: int = if lists[i][k] >= addr {
            lists[i][k] as int
        } else {
            addr as int
        };
        if !(lists[i][k] + BLOCK_SIZES[i] <= addr || addr + BLOCK_SIZES[index] <= lists[i][k]) {
            assert(block.contains(first));
            assert(live.contains(first));
            assert(lists[i][k] <= first < lists[i][k] + BLOCK_SIZES[i]);
        }
    }
    assert forall|i: int, k: int, j: int, l: int|
        listed(after, i, k) && listed(after, j, l) && (i != j || k != l) implies after[i][k]
        + BLOCK_SIZES[i] <= after[j][l] || after[j][l] + BLOCK_SIZES[j] <= after[i][k] by {
        if i == index && k == top {
            assert(listed(lists, j, l));
        } else if j == index && l == top {
            assert(listed(lists, i, k));
        } else {
            assert(listed(lists, i, k) && listed(lists, j, l));
            assert(lists[i][k] + BLOCK_SIZES[i] <= lists[j][l] || lists[j][l] + BLOCK_SIZES[j]
                <= lists[i][k]);
        }
    }
    assert forall|i: int, k: int, b: int|
        listed(after, i, k) && after[i][k] <= b < after[i][k] + BLOCK_SIZES[i] implies {
        &&& !free.contains(b)
        &&& !live.difference(block).contains(b)
    } by {
        if i == index && k == top {
            assert(block.contains(b));
            assert(live.contains(b));
        } else {
            assert(listed(lists, i, k) && after[i][k] == lists[i][k]);
            assert(!live.contains(b));
            assert(!free.contains(b));
        }
    }
}

} // verus!
