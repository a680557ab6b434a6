//! The fallback heap, `linked_list_allocator::Heap`, as the rest of the allocator sees it.
//!
//! Nothing in this file is proved. Each function hands its arguments to the heap and states what
//! the heap's source says of the outcome, over four names: the heap's holes, the address and the
//! length that the heap was set up with, and the address that a search of the holes returns.
//! The sizes are those of a machine whose words have eight bytes.

use core::mem::MaybeUninit;
use linked_list_allocator::Heap;
use vstd::arithmetic::power2::is_pow2;
use vstd::prelude::*;

verus! {

/// `linked_list_allocator::Heap`: a heap of which only the names below are known.
#[verifier::external_type_specification]
#[verifier::external_body]
pub struct ExHeap(Heap);

/// The heap's holes, its free memory, in the order of its list: each hole by the address of its
/// first byte and the number of its bytes.
pub uninterp spec fn heap_holes(heap: Heap) -> Seq<(usize, usize)>;

/// The address that the heap was set up at; 0 as long as it was not.
pub uninterp spec fn heap_start(heap: Heap) -> usize;

/// The number of bytes that the heap was set up with.
pub uninterp spec fn heap_len(heap: Heap) -> usize;

/// The address that `Heap::allocate_first_fit` returns on a heap with the holes `holes` for the
/// layout of `size` bytes aligned to `align`, and `None` where it returns its error.
pub uninterp spec fn first_fit(holes: Seq<(usize, usize)>, size: usize, align: usize) -> Option<
    usize,
>;

/// The smallest block that the heap hands out or takes back: a hole's own header, two words.
pub const MIN_BLOCK_SIZE: usize = 16;

/// The alignment of a hole's header, to which the heap rounds every size and its own start.
pub const HOLE_ALIGN: usize = 8;

/// The smallest slice that a heap can be set up on: it has room for a hole's header, wherever
/// the slice starts.
pub const MIN_HEAP_SIZE: usize = 23;

/// The addresses `start`, `start + 1`, ..., `start + len - 1`.
pub open spec fn byte_range(start: int, len: int) -> Set<int> {
    Set::new(|b: int| start <= b < start + len)
}

/// The addresses of the bytes that lie in one of the holes.
pub open spec fn hole_bytes(holes: Seq<(usize, usize)>) -> Set<int> {
    Set::new(
        |b: int|
            exists|i: int|
                0 <= i < holes.len() && (#[trigger] holes[i]).0 <= b < holes[i].0 + holes[i].1,
    )
}

/// The addresses of the heap's free bytes.
pub open spec fn heap_free_bytes(heap: Heap) -> Set<int> {
    hole_bytes(heap_holes(heap))
}

/// The least multiple of `align` that is at least `n`.
pub open spec fn align_up(n: int, align: int) -> int {
    if n % align == 0 {
        n
    } else {
        n + align - n % align
    }
}

/// The number of bytes that the heap takes out of a hole for a request of `size` bytes: at
/// least a hole's header, rounded up to the header's alignment.
pub open spec fn padded_size(size: int) -> int {
    align_up(
        if size < MIN_BLOCK_SIZE {
            MIN_BLOCK_SIZE as int
        } else {
            size
        },
        HOLE_ALIGN as int,
    )
}

/// Whether the heap can look for `size` bytes aligned to `align` without leaving the range of
/// its integers: the padded request is a layout, and no address that the search forms from a
/// hole inside the heap passes the end of the address space.
pub open spec fn searchable(heap: Heap, size: usize, align: usize) -> bool {
    &&& is_pow2(align as int)
    &&& padded_size(size as int) + align - 1 <= isize::MAX
    &&& heap_start(heap) + heap_len(heap) + align - 1 + padded_size(size as int) <= usize::MAX
}

/// `Heap::empty`: a heap without holes, set up nowhere.
#[verifier::external_body]
pub(crate) fn heap_empty() -> (heap: Heap)
    ensures
        heap_holes(heap) == Seq::<(usize, usize)>::empty(),
        heap_start(heap) == 0,
        heap_len(heap) == 0,
{
    Heap::empty()
}

/// `Heap::init_from_slice`: sets a heap that was not set up before on the memory of `mem`. The
/// heap then starts at the slice's address, which is not 0, and has its length. Its one hole
/// reaches from the first address at or after its start that is aligned for a hole's header to
/// its end. The slice must have room for that header, and the heap panics if it was set up
/// already.
#[verifier::external_body]
pub(crate) fn heap_init_from_slice(heap: &mut Heap, mem: &'static mut [MaybeUninit<u8>])
    requires
        heap_start(*old(heap)) == 0,
        old(mem)@.len() >= MIN_HEAP_SIZE,
    ensures
        heap_start(*final(heap)) != 0,
        heap_len(*final(heap)) == old(mem)@.len(),
        heap_start(*final(heap)) + heap_len(*final(heap)) <= usize::MAX,
        heap_holes(*final(heap)).len() == 1,
        heap_holes(*final(heap))[0].0 == align_up(
            heap_start(*final(heap)) as int,
            HOLE_ALIGN as int,
        ),
        heap_holes(*final(heap))[0].0 + heap_holes(*final(heap))[0].1 == heap_start(*final(heap))
            + heap_len(*final(heap)),
{
    heap.init_from_slice(mem)
}

/// `Heap::allocate_first_fit`, for the layout of `size` bytes aligned to `align`. The result is
/// `first_fit` of the heap's holes. Where it is an address, that address is not 0, is aligned as
/// asked and starts `padded_size(size)` bytes that lay in the holes and inside the heap's range,
/// and exactly these bytes have left the holes. Where it is none, the holes are as before.
#[verifier::external_body]
pub(crate) fn heap_allocate_first_fit(heap: &mut Heap, size: usize, align: usize) -> (r: Option<
    usize,
>)
    requires
        searchable(*old(heap), size, align),
    ensures
        r == first_fit(heap_holes(*old(heap)), size, align),
        heap_start(*final(heap)) == heap_start(*old(heap)),
        heap_len(*final(heap)) == heap_len(*old(heap)),
        match r {
            Some(addr) => {
                &&& addr != 0
                &&& addr % align == 0
                &&& heap_start(*old(heap)) <= addr
                &&& addr + padded_size(size as int) <= heap_start(*old(heap)) + heap_len(*old(heap))
                &&& byte_range(addr as int, padded_size(size as int)).subset_of(
                    heap_free_bytes(*old(heap)),
                )
                &&& heap_free_bytes(*final(heap)) == heap_free_bytes(*old(heap)).difference(
                    byte_range(addr as int, padded_size(size as int)),
                )
            },
            None => heap_holes(*final(heap)) == heap_holes(*old(heap)),
        },
{
    let layout = core::alloc::Layout::from_size_align(size, align).ok()?;
    heap.allocate_first_fit(layout).ok().map(|ptr| ptr.addr().get())
}

/// `Heap::bottom`: the address that the heap was set up at.
#[verifier::external_body]
pub(crate) fn heap_bottom(heap: &Heap) -> (bottom: usize)
    ensures
        bottom == heap_start(*heap),
{
    heap.bottom()
}

/// `Heap::size`: the number of bytes that the heap was set up with.
#[verifier::external_body]
pub(crate) fn heap_size(heap: &Heap) -> (size: usize)
    ensures
        size == heap_len(*heap),
{
    heap.size()
}

} // verus!
