//! The kernel heap: size-class free lists in front of a first-fit fallback heap, and the pages
//! that the heap's range of virtual memory is made of.

pub mod fallback;
pub mod fixed_size_block;

use crate::memory::{usable_frames, BootInfoFrameAllocator, PhysFrame, FRAME_SIZE};
use vstd::prelude::*;

verus! {

/// Why the heap could not be set up.
#[derive(Clone, Copy, Debug, PartialEq, Eq, Structural)]
pub enum HeapInitError {
    /// The frame allocator had no frame left for a page of the heap.
    FrameAllocationFailed,
}

/// The number of pages that hold a byte of the `heap_size` bytes from `heap_start` on.
pub open spec fn heap_page_count(heap_start: u64, heap_size: u64) -> int {
    (heap_start + heap_size - 1) / (FRAME_SIZE as int) - heap_start / FRAME_SIZE + 1
}

/// The start address of the heap's page at place `n`, counted from the page of `heap_start`.
pub open spec fn heap_page(heap_start: u64, n: int) -> int {
    (heap_start / FRAME_SIZE + n) * FRAME_SIZE
}

/// The pages of a heap on their way to being mapped: each gets a fresh frame, one page after
/// the other, from the page that holds the heap's first byte to the page that holds its last.
pub struct HeapPages {
    heap_start: u64,
    next_page: u64,
    end_page: u64,
}

impl HeapPages {
    /// The address of the heap's first byte.
    pub closed spec fn heap_start(&self) -> u64 {
        self.heap_start
    }

    /// The number of the heap's pages.
    pub closed spec fn count(&self) -> int {
        self.end_page - self.heap_start / FRAME_SIZE
    }

    /// The number of pages that have their frame.
    pub closed spec fn served(&self) -> int {
        self.next_page - self.heap_start / FRAME_SIZE
    }

    /// The invariant: no more pages are served than there are, and every page is one of the
    /// address space.
    pub closed spec fn wf(&self) -> bool {
        &&& self.heap_start / FRAME_SIZE <= self.next_page <= self.end_page
        &&& self.end_page * FRAME_SIZE <= u64::MAX + 1
    }

    /// The pages of the heap of `heap_size` bytes at `heap_start`, none of them served.
    pub fn new(heap_start: u64, heap_size: u64) -> (pages: Self)
        requires
            heap_size > 0,
            heap_start + heap_size - 1 <= u64::MAX,
        ensures
            pages.wf(),
            pages.heap_start() == heap_start,
            pages.count() == heap_page_count(heap_start, heap_size),
            pages.served() == 0,
    {
        let heap_end: u64 = heap_start + (heap_size - 1);
        HeapPages {
            heap_start,
            next_page: heap_start / FRAME_SIZE,
            end_page: heap_end / FRAME_SIZE + 1,
        }
    }

    /// Takes a frame for the next page of the heap and returns the page's start address with
    /// the frame: the mapping that is to be made next. Returns `None` when every page has its
    /// frame; the frame allocator is then not asked. Fails when the frame allocator has no
    /// frame left; the page then still waits for one.
    pub fn next(&mut self, frame_allocator: &mut BootInfoFrameAllocator) -> (r: Result<
        Option<(u64, PhysFrame)>,
        HeapInitError,
    >)
        requires
            old(self).wf(),
            old(frame_allocator).wf(),
            old(frame_allocator).next() < usize::MAX,
        ensures
            final(self).wf(),
            final(self).heap_start() == old(self).heap_start(),
            final(self).count() == old(self).count(),
            final(frame_allocator).wf(),
            final(frame_allocator).regions() == old(frame_allocator).regions(),
            old(self).served() == old(self).count() ==> {
                &&& r == Ok::<Option<(u64, PhysFrame)>, HeapInitError>(None)
                &&& final(self).served() == old(self).served()
                &&& final(frame_allocator).next() == old(frame_allocator).next()
            },
            old(self).served() < old(self).count() ==> {
                &&& final(frame_allocator).next() == old(frame_allocator).next() + 1
                &&& match r {
                    Ok(Some((page, frame))) => {
                        &&& page == heap_page(old(self).heap_start(), old(self).served())
                        &&& old(frame_allocator).next() < usable_frames(
                            old(frame_allocator).regions(),
                        ).len()
                        &&& frame.start() == usable_frames(old(frame_allocator).regions())[old(
                            frame_allocator,
                        ).next() as int]
                        &&& final(self).served() == old(self).served() + 1
                    },
                    Ok(None) => false,
                    Err(error) => {
                        &&& error == HeapInitError::FrameAllocationFailed
                        &&& old(frame_allocator).next() >= usable_frames(
                            old(frame_allocator).regions(),
                        ).len()
                        &&& final(self).served() == old(self).served()
                    },
                }
            },
    {
        if self.next_page == self.end_page {
            return Ok(None);
        }
        match frame_allocator.allocate_frame() {
            Some(frame) => {
                let page: u64 = self.next_page * FRAME_SIZE;
                self.next_page += 1;
                Ok(Some((page, frame)))
            },
            None => Err(HeapInitError::FrameAllocationFailed),
        }
    }
}

} // verus!
