//! Build-time configuration: page geometry, the physical memory window, and
//! the sizes of the kernel heap and of kernel stacks.

use vstd::prelude::*;

verus! {

/// Size in bytes of one physical frame and of one virtual page.
pub const PAGE_SIZE: usize = 4096;

/// Physical address at which the frame-managed memory window begins; frame
/// index 0 translates to this address.
pub const MEMORY_OFFSET: usize = 0x8000_0000;

/// Size in bytes of every kernel stack; also its required alignment.
pub const STACK_SIZE: usize = 0x8000;

/// Lowest address of the statically reserved kernel heap region.
pub const KERNEL_HEAP_BASE: usize = 0x4000_0000;

/// Size in bytes of the statically reserved kernel heap region.
pub const KERNEL_HEAP_SIZE: usize = 0x0080_0000;

} // verus!
