//! The ways in which a request of a user task can fail.

use vstd::prelude::*;

verus! {

/// Why a request was turned down. At the syscall boundary every fault
/// becomes the same negative return value; inside the kernel the kind is
/// kept.
#[derive(Clone, Copy, Debug, PartialEq, Eq, Structural)]
pub enum Fault {
    /// The descriptor is beyond the table or names an empty slot.
    InvalidDescriptor,
    /// The file handle lacks the capability that the operation needs.
    CapabilityDenied,
    /// A user address range is not fully backed by pages that allow the
    /// access, or names another address space.
    AddressFault,
    /// An address that must be page-aligned is not.
    AlignmentViolation,
    /// A requested mapping collides with an existing one.
    OverlapViolation,
    /// A range to unmap is not fully covered by mapped areas.
    RangeNotMapped,
    /// A path lookup, link or unlink failed in the file namespace.
    NamespaceError,
    /// A flag or permission field carries an illegal value.
    InvalidArgument,
    /// No free frame is left to back a new page.
    OutOfMemory,
}

} // verus!
