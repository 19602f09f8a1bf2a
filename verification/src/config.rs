//! Sizes that the whole kernel agrees on.

use vstd::prelude::*;

verus! {

/// Bytes in one page of virtual memory and in one physical frame.
pub const PAGE_SIZE: usize = 4096;

/// Number of distinct syscall ids whose invocations are counted per task.
pub const MAX_SYSCALL_NUM: usize = 500;

/// Microseconds in one second.
pub const MICROS_PER_SEC: usize = 1_000_000;

} // verus!
