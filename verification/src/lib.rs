//! Core of a small Sv39 virtual-memory, round-robin multitasking kernel:
//! physical frame allocation, three-level page tables, address spaces built
//! from ELF images, task control blocks and the trap-driven scheduler.
//!
//! All machine access (CSRs, raw physical memory, SBI calls) lives outside
//! this crate; here physical frames are modelled as owned data, so that the
//! page-table and scheduling logic can be stated and proved.

pub mod address;
pub mod config;
pub mod elf;
pub mod frame_allocator;
pub mod memory_set;
pub mod page_table;
pub mod task;
pub mod timer;
pub mod trap;
pub mod trap_context;
