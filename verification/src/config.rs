//! Constants fixed by the platform and by the kernel's address-space layout.
//!
//! The target is a 64-bit machine, so addresses and sizes are carried as
//! `u64` throughout the crate.

use vstd::prelude::*;

verus! {

/// Bytes in one page.
pub const PAGE_SIZE: u64 = 4096;
/// log2 of `PAGE_SIZE`.
pub const PAGE_SIZE_BITS: u64 = 12;

/// Size of each user stack.
pub const USER_STACK_SIZE: u64 = 4096 * 2;
/// Size of each per-task kernel stack.
pub const KERNEL_STACK_SIZE: u64 = 4096 * 2;
/// Size of the kernel heap.
pub const KERNEL_HEAP_SIZE: u64 = 0x30_0000;

/// End of usable physical memory.
pub const MEMORY_END: u64 = 0x80800000;

/// Virtual address of the shared trampoline page: the highest page.
pub const TRAMPOLINE: u64 = 0xFFFF_FFFF_FFFF_F000;
/// Virtual address of a task's trap-context page: just below the trampoline.
pub const TRAP_CONTEXT: u64 = TRAMPOLINE - PAGE_SIZE;

/// Timer frequency of the platform clock, in ticks per second.
pub const CLOCK_FREQ: u64 = 12500000;
/// Timer interrupts per second.
pub const TICKS_PER_SEC: u64 = 100;
/// Microseconds per second.
pub const MICRO_PER_SEC: u64 = 1_000_000;

/// Virtual address range `[bottom, top)` of the kernel stack of task
/// `app_id`, placed below the trampoline with one guard page between
/// consecutive stacks.
pub fn kernel_stack_position(app_id: u64) -> (r: (u64, u64))
    requires
        (app_id + 1) * (KERNEL_STACK_SIZE + PAGE_SIZE) <= TRAMPOLINE,
    ensures
        r.1 == TRAMPOLINE - app_id * (KERNEL_STACK_SIZE + PAGE_SIZE),
        r.0 == r.1 - KERNEL_STACK_SIZE,
{
    proof {
        assert((app_id + 1) * (KERNEL_STACK_SIZE + PAGE_SIZE)
            == app_id * (KERNEL_STACK_SIZE + PAGE_SIZE) + (KERNEL_STACK_SIZE + PAGE_SIZE))
            by (nonlinear_arith);
    }
    let top: u64 = TRAMPOLINE - app_id * (KERNEL_STACK_SIZE + PAGE_SIZE);
    let bottom: u64 = top - KERNEL_STACK_SIZE;
    (bottom, top)
}

} // verus!
