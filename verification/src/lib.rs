//! The memory-management core of a small x86_64 kernel: a frame allocator fed by the boot-time
//! memory map, the four-level page-table walk, and a fixed-size-block heap allocator that falls
//! back on a linked-list heap.

pub mod allocator;
pub mod memory;
pub mod task;
