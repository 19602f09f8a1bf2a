//! The syscall-facing boundary of a small process-isolated kernel.
//!
//! Kernel code never dereferences an address that a user task hands over.
//! A user buffer is first turned into page-bounded segments of physical
//! memory by the address translator; mapping requests are validated in full
//! before any page table entry changes; file descriptors are checked for
//! presence and capability before any byte moves. Whatever a task asks for,
//! the worst that can happen is that its own syscall fails.
//!
//! The modules, from the ground up:
//!
//! - [`config`], [`address`], [`fault`]: sizes, user addresses and page
//!   arithmetic, and the kinds of failure.
//! - [`memory`], [`page_table`]: the frames of physical memory with their
//!   allocator, and the page table of one address space.
//! - [`translate`]: the address translator and the copies that go through
//!   its segments.
//! - [`space`]: the mapped areas and the heap of a task, with the requests
//!   to map, to unmap and to move the program break.
//! - [`fs`], [`file`]: the file namespace, file handles, the console and
//!   the descriptor table.
//! - [`task`], [`kernel`]: the running state of a task, and the kernel
//!   state that a syscall works on.
//! - [`record`]: the byte layout of the records that syscalls hand out.
//! - [`fileops`], [`syscall`]: what a task does with its descriptors, and
//!   the syscall entry points.
//!
//! Every function states in its contract what it returns and what it
//! changes; a request that is refused changes nothing.

pub mod config;
pub mod address;
pub mod fault;
pub mod memory;
pub mod page_table;
pub mod translate;
pub mod space;
pub mod fs;
pub mod file;
pub mod task;
pub mod kernel;
pub mod record;
pub mod fileops;
pub mod syscall;
