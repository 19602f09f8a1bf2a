//! The page table of one address space: which virtual page lies in which
//! frame, and what a user task may do with it.

use vstd::prelude::*;
use std::collections::HashMap;

verus! {

broadcast use vstd::std_specs::hash::group_hash_axioms;

/// Opaque identifier of a task's page table root. Every translation names
/// the address space it means by its token.
#[derive(Clone, Copy, Debug, PartialEq, Eq, Structural)]
pub struct AddressSpaceToken(pub usize);

/// The kind of access that the kernel is about to make to user memory.
#[derive(Clone, Copy, Debug, PartialEq, Eq, Structural)]
pub enum Access {
    /// The kernel reads what the user task stored.
    Read,
    /// The kernel stores something for the user task to read.
    Write,
}

/// What may be done with a mapped page.
///
/// A mapping request carries three bits, from the lowest: readable,
/// writable, executable. In a page table entry the same three, in the same
/// order, occupy bits 1 to 3, and bit 4 marks the page as accessible from
/// user mode.
#[derive(Clone, Copy, Debug, PartialEq, Eq, Structural)]
pub struct MapPermission {
    pub read: bool,
    pub write: bool,
    pub execute: bool,
    pub user: bool,
}

impl MapPermission {
    /// Whether `port` is a legal permission field of a mapping request: some
    /// access is asked for, and no bit beyond the three is set.
    pub open spec fn port_valid(port: int) -> bool {
        1 <= port <= 7
    }

    /// The permission that the request field `port` stands for. A page
    /// mapped on request is always accessible from user mode.
    pub open spec fn of_port(port: int) -> MapPermission {
        MapPermission {
            read: port % 2 == 1,
            write: (port / 2) % 2 == 1,
            execute: (port / 4) % 2 == 1,
            user: true,
        }
    }

    /// The page table encoding of the permission.
    pub open spec fn spec_bits(self) -> int {
        (if self.read { 2int } else { 0 }) + (if self.write { 4int } else { 0 }) + (if self.execute { 8int } else { 0 }) + (if self.user { 16int } else { 0 })
    }

    /// Whether a page with this permission may be accessed in the given way
    /// on behalf of a user task.
    pub open spec fn allows(self, access: Access) -> bool {
        self.user && match access {
            Access::Read => self.read,
            Access::Write => self.write,
        }
    }

    /// The permission of a heap page: readable and writable from user mode.
    pub open spec fn heap() -> MapPermission {
        MapPermission { read: true, write: true, execute: false, user: true }
    }

    /// Decodes the permission field of a mapping request.
    pub fn from_port(port: usize) -> (perm: Option<MapPermission>)
        ensures
            perm == if Self::port_valid(port as int) {
                Some(Self::of_port(port as int))
            } else {
                None::<MapPermission>
            },
    {
        if port == 0 || port > 7 {
            None
        } else {
            Some(
                MapPermission {
                    read: port % 2 == 1,
                    write: (port / 2) % 2 == 1,
                    execute: (port / 4) % 2 == 1,
                    user: true,
                },
            )
        }
    }

    /// The page table encoding of the permission.
    pub fn bits(self) -> (b: u8)
        ensures
            b == self.spec_bits(),
    {
        let mut b: u8 = 0;
        if self.read {
            b = b + 2;
        }
        if self.write {
            b = b + 4;
        }
        if self.execute {
            b = b + 8;
        }
        if self.user {
            b = b + 16;
        }
        b
    }

    /// Whether a page with this permission may be accessed in the given way
    /// on behalf of a user task.
    pub fn permits(self, access: Access) -> (ok: bool)
        ensures
            ok == self.allows(access),
    {
        self.user && match access {
            Access::Read => self.read,
            Access::Write => self.write,
        }
    }

    /// The permission of a heap page.
    pub fn for_heap() -> (perm: MapPermission)
        ensures
            perm == Self::heap(),
    {
        MapPermission { read: true, write: true, execute: false, user: true }
    }

    /// The encoding of a decoded request field is the field with the user
    /// bit set above it, shifted up by one.
    pub proof fn lemma_bits_of_port(port: usize)
        requires
            Self::port_valid(port as int),
        ensures
            Self::of_port(port as int).spec_bits() == 2 * port + 16,
            Self::of_port(port as int).spec_bits() == ((port | 8) << 1),
    {
        assert(((port | 8) << 1) == 2 * port + 16) by (bit_vector)
            requires
                1 <= port <= 7,
        ;
    }
}

/// One entry of a page table.
#[derive(Clone, Copy, Debug, PartialEq, Eq, Structural)]
pub struct PageTableEntry {
    /// Number of the frame that backs the page.
    pub frame: usize,
    /// What may be done with the page.
    pub perm: MapPermission,
}

/// The page table of one address space.
pub struct PageTable {
    token: AddressSpaceToken,
    entries: HashMap<usize, PageTableEntry>,
}

impl View for PageTable {
    type V = Map<usize, PageTableEntry>;

    /// The mapped pages, by page number.
    closed spec fn view(&self) -> Map<usize, PageTableEntry> {
        self.entries@
    }
}

impl PageTable {
    /// The token that identifies this page table.
    pub closed spec fn spec_token(&self) -> AddressSpaceToken {
        self.token
    }

    /// An empty page table under the given token.
    pub fn new(token: AddressSpaceToken) -> (table: Self)
        ensures
            table@ == Map::<usize, PageTableEntry>::empty(),
            table.spec_token() == token,
    {
        PageTable { token, entries: HashMap::new() }
    }

    /// The token that identifies this page table.
    pub fn token(&self) -> (token: AddressSpaceToken)
        ensures
            token == self.spec_token(),
    {
        self.token
    }

    /// The entry of page `vpn`, or `None` where the page is not mapped.
    pub fn lookup(&self, vpn: usize) -> (entry: Option<PageTableEntry>)
        ensures
            entry == if self@.contains_key(vpn) {
                Some(self@[vpn])
            } else {
                None::<PageTableEntry>
            },
    {
        match self.entries.get(&vpn) {
            Some(e) => Some(*e),
            None => None,
        }
    }

    /// Maps page `vpn` to `frame` with permission `perm`.
    pub fn map(&mut self, vpn: usize, frame: usize, perm: MapPermission)
        requires
            !old(self)@.contains_key(vpn),
        ensures
            final(self)@ == old(self)@.insert(vpn, PageTableEntry { frame, perm }),
            final(self).spec_token() == old(self).spec_token(),
    {
        self.entries.insert(vpn, PageTableEntry { frame, perm });
    }

    /// Removes the mapping of page `vpn` and returns the entry it had.
    pub fn unmap(&mut self, vpn: usize) -> (entry: Option<PageTableEntry>)
        ensures
            final(self)@ == old(self)@.remove(vpn),
            final(self).spec_token() == old(self).spec_token(),
            entry == if old(self)@.contains_key(vpn) {
                Some(old(self)@[vpn])
            } else {
                None::<PageTableEntry>
            },
    {
        self.entries.remove(&vpn)
    }
}

} // verus!
