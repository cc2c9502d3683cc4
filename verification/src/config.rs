//! Constants of the kernel's memory layout and scheduler.
use vstd::prelude::*;

verus! {

/// Bytes per page.
pub const PAGE_SIZE: usize = 0x1000;

/// Bytes of one kernel stack.
pub const KERNEL_STACK_SIZE: usize = 0x2000;

/// The trampoline page: the highest page of the address space.
pub const TRAMPOLINE: usize = usize::MAX - PAGE_SIZE + 1;

/// The page that holds a task's trap context, just below the trampoline.
pub const TRAP_CONTEXT_BASE: usize = TRAMPOLINE - PAGE_SIZE;

/// Virtual addresses keep their low 39 bits (Sv39).
pub const VA_SPACE: u64 = 0x80_0000_0000;

} // verus!
