//! Kernel memory management: physical frame allocation over a bitmap, page
//! tables, address spaces with per-area fault policies (direct, lazy,
//! copy-on-write), the kernel heap, kernel stacks, and a no-MMU variant of
//! the address space for targets without hardware paging.

pub mod consts;
pub mod frame_alloc;
pub mod paging;
pub mod phys_mem;
pub mod memory_set;
pub mod heap;
pub mod no_mmu;
