//! User addresses and the page arithmetic on them.

use vstd::prelude::*;
use crate::config::PAGE_SIZE;

verus! {

/// An address in the virtual address space of a user task, as it arrives in
/// a syscall argument.
///
/// It is a plain number to the kernel: the only way from a `UserAddr` to
/// bytes leads through the address translator.
#[derive(Clone, Copy, Debug, PartialEq, Eq, Structural)]
pub struct UserAddr(pub usize);

/// Number of the page that holds `addr`.
pub open spec fn page_number(addr: int) -> int {
    addr / (PAGE_SIZE as int)
}

/// Position of `addr` inside its page.
pub open spec fn page_offset(addr: int) -> int {
    addr % (PAGE_SIZE as int)
}

/// Whether `addr` is the first byte of a page.
pub open spec fn page_aligned(addr: int) -> bool {
    addr % (PAGE_SIZE as int) == 0
}

/// Number of the first page that starts at or above `addr`.
pub open spec fn page_ceil(addr: int) -> int {
    (addr + PAGE_SIZE - 1) / (PAGE_SIZE as int)
}

impl UserAddr {
    /// The address as a mathematical integer.
    pub open spec fn value(self) -> int {
        self.0 as int
    }

    /// Number of the page that holds the address.
    pub fn page(self) -> (vpn: usize)
        ensures
            vpn == page_number(self.value()),
    {
        self.0 / PAGE_SIZE
    }

    /// Position of the address inside its page.
    pub fn offset(self) -> (off: usize)
        ensures
            off == page_offset(self.value()),
            off < PAGE_SIZE,
    {
        self.0 % PAGE_SIZE
    }

    /// Whether the address is the first byte of a page.
    pub fn is_aligned(self) -> (aligned: bool)
        ensures
            aligned == page_aligned(self.value()),
    {
        self.0 % PAGE_SIZE == 0
    }
}

/// Number of the first page that starts at or above `addr`.
pub fn page_ceil_of(addr: usize) -> (vpn: usize)
    ensures
        vpn == page_ceil(addr as int),
        vpn * PAGE_SIZE >= addr,
        vpn >= addr / PAGE_SIZE,
{
    if addr % PAGE_SIZE == 0 {
        addr / PAGE_SIZE
    } else {
        addr / PAGE_SIZE + 1
    }
}

} // verus!
