//! Open files: the handles, the console behind the first three
//! descriptors, and the descriptor table of a task.

use vstd::prelude::*;
use crate::fault::Fault;

verus! {

/// A handle on an open file, as a descriptor slot holds it.
#[derive(Clone, Copy, Debug, PartialEq, Eq, Structural)]
pub enum FileHandle {
    /// The console's input.
    Stdin,
    /// The console's output.
    Stdout,
    /// A file of the namespace, with the position of the next transfer and
    /// the capabilities that the open request asked for.
    Regular { inode: usize, offset: usize, readable: bool, writable: bool },
}

impl FileHandle {
    /// Whether the handle may be read from.
    pub open spec fn readable(self) -> bool {
        match self {
            FileHandle::Stdin => true,
            FileHandle::Stdout => false,
            FileHandle::Regular { readable, .. } => readable,
        }
    }

    /// Whether the handle may be written to.
    pub open spec fn writable(self) -> bool {
        match self {
            FileHandle::Stdin => false,
            FileHandle::Stdout => true,
            FileHandle::Regular { writable, .. } => writable,
        }
    }

    /// Whether the handle may be read from.
    pub fn can_read(&self) -> (yes: bool)
        ensures
            yes == self.readable(),
    {
        match self {
            FileHandle::Stdin => true,
            FileHandle::Stdout => false,
            FileHandle::Regular { readable, .. } => *readable,
        }
    }

    /// Whether the handle may be written to.
    pub fn can_write(&self) -> (yes: bool)
        ensures
            yes == self.writable(),
    {
        match self {
            FileHandle::Stdin => false,
            FileHandle::Stdout => true,
            FileHandle::Regular { writable, .. } => *writable,
        }
    }
}

/// The console as contracts see it.
pub struct ConsoleView {
    /// Input that has arrived and was not read yet.
    pub pending: Seq<u8>,
    /// Everything written so far.
    pub output: Seq<u8>,
}

/// The console: input queued by the platform for tasks to read, and
/// output collected from tasks for the platform to show.
pub struct Console {
    input: Vec<u8>,
    taken: usize,
    output: Vec<u8>,
}

impl View for Console {
    type V = ConsoleView;

    closed spec fn view(&self) -> ConsoleView {
        ConsoleView { pending: self.input@.skip(self.taken as int), output: self.output@ }
    }
}

impl Console {
    /// The invariant of the input queue.
    pub closed spec fn wf(&self) -> bool {
        self.taken <= self.input@.len()
    }

    /// A console with no input and no output.
    pub fn new() -> (console: Self)
        ensures
            console.wf(),
            console@.pending == Seq::<u8>::empty(),
            console@.output == Seq::<u8>::empty(),
    {
        let console = Console { input: Vec::new(), taken: 0, output: Vec::new() };
        assert(console@.pending =~= Seq::<u8>::empty());
        console
    }

    /// Queues `bytes` behind the input that is already pending.
    pub fn feed(&mut self, bytes: &[u8])
        requires
            old(self).wf(),
        ensures
            final(self).wf(),
            final(self)@.pending == old(self)@.pending + bytes@,
            final(self)@.output == old(self)@.output,
    {
        let mut i: usize = 0;
        while i < bytes.len()
            invariant
                i <= bytes@.len(),
                self.wf(),
                self.taken == old(self).taken,
                self.output == old(self).output,
                self.input@ == old(self).input@ + bytes@.take(i as int),
            decreases bytes.len() - i,
        {
            self.input.push(bytes[i]);
            proof {
                assert(bytes@.take(i as int).push(bytes@[i as int]) =~= bytes@.take(i + 1));
                assert(self.input@ =~= old(self).input@ + bytes@.take(i + 1));
            }
            i = i + 1;
        }
        proof {
            assert(bytes@.take(i as int) =~= bytes@);
            assert(self@.pending =~= old(self)@.pending + bytes@);
        }
    }

    /// Number of input bytes that are pending.
    pub fn pending_len(&self) -> (n: usize)
        requires
            self.wf(),
        ensures
            n == self@.pending.len(),
    {
        self.input.len() - self.taken
    }

    /// The first `n` pending input bytes.
    pub fn peek(&self, n: usize) -> (bytes: &[u8])
        requires
            self.wf(),
            n <= self@.pending.len(),
        ensures
            bytes@ == self@.pending.take(n as int),
    {
        let total: usize = self.input.len();
        assert(self.taken + n <= total);
        let bytes = vstd::slice::slice_subrange(self.input.as_slice(), self.taken, self.taken + n);
        proof {
            assert(bytes@ =~= self@.pending.take(n as int));
        }
        bytes
    }

    /// Drops the first `n` pending input bytes.
    pub fn consume(&mut self, n: usize)
        requires
            old(self).wf(),
            n <= old(self)@.pending.len(),
        ensures
            final(self).wf(),
            final(self)@.pending == old(self)@.pending.skip(n as int),
            final(self)@.output == old(self)@.output,
    {
        let total: usize = self.input.len();
        assert(self.taken + n <= total);
        self.taken = self.taken + n;
        proof {
            assert(self@.pending =~= old(self)@.pending.skip(n as int));
        }
    }

    /// Appends `bytes` to the output.
    pub fn print(&mut self, bytes: &[u8])
        requires
            old(self).wf(),
        ensures
            final(self).wf(),
            final(self)@.output == old(self)@.output + bytes@,
            final(self)@.pending == old(self)@.pending,
    {
        let mut i: usize = 0;
        while i < bytes.len()
            invariant
                i <= bytes@.len(),
                self.wf(),
                self.taken == old(self).taken,
                self.input == old(self).input,
                self.output@ == old(self).output@ + bytes@.take(i as int),
            decreases bytes.len() - i,
        {
            self.output.push(bytes[i]);
            proof {
                assert(bytes@.take(i as int).push(bytes@[i as int]) =~= bytes@.take(i + 1));
                assert(self.output@ =~= old(self).output@ + bytes@.take(i + 1));
            }
            i = i + 1;
        }
        proof {
            assert(bytes@.take(i as int) =~= bytes@);
        }
    }

    /// Hands over everything written so far and starts the output anew.
    pub fn drain_output(&mut self) -> (bytes: Vec<u8>)
        requires
            old(self).wf(),
        ensures
            final(self).wf(),
            bytes@ == old(self)@.output,
            final(self)@.output == Seq::<u8>::empty(),
            final(self)@.pending == old(self)@.pending,
    {
        let mut bytes: Vec<u8> = Vec::new();
        std::mem::swap(&mut bytes, &mut self.output);
        bytes
    }

    /// Everything written so far.
    pub fn output(&self) -> (bytes: &[u8])
        ensures
            bytes@ == self@.output,
    {
        self.output.as_slice()
    }
}

/// Whether `fd` is the lowest free descriptor of `slots`: every slot
/// below it is taken, and it is either an empty slot or the first
/// number beyond the table.
pub open spec fn lowest_free(slots: Seq<Option<FileHandle>>, fd: int) -> bool {
    &&& 0 <= fd <= slots.len()
    &&& forall|i: int| 0 <= i < fd ==> (#[trigger] slots[i]) is Some
    &&& fd < slots.len() ==> slots[fd] is None
}

/// The handle behind descriptor `fd`, if the descriptor is in the table and
/// its slot is taken.
pub open spec fn handle_at(slots: Seq<Option<FileHandle>>, fd: int) -> Option<FileHandle> {
    if 0 <= fd < slots.len() {
        slots[fd]
    } else {
        None
    }
}

/// The table with room for descriptor `fd`: one empty slot more where `fd`
/// is the first number beyond it.
pub open spec fn with_room(slots: Seq<Option<FileHandle>>, fd: int) -> Seq<Option<FileHandle>> {
    if fd == slots.len() {
        slots.push(None)
    } else {
        slots
    }
}

/// The descriptor table of a task: a sparse table of file handles, indexed
/// by descriptor.
pub struct FdTable {
    slots: Vec<Option<FileHandle>>,
}

impl View for FdTable {
    type V = Seq<Option<FileHandle>>;

    closed spec fn view(&self) -> Seq<Option<FileHandle>> {
        self.slots@
    }
}

impl FdTable {
    /// The table of a new task: the console's input behind descriptor 0,
    /// its output behind descriptors 1 and 2.
    pub fn new() -> (table: Self)
        ensures
            table@ == seq![
                Some(FileHandle::Stdin),
                Some(FileHandle::Stdout),
                Some(FileHandle::Stdout),
            ],
    {
        let mut slots: Vec<Option<FileHandle>> = Vec::new();
        slots.push(Some(FileHandle::Stdin));
        slots.push(Some(FileHandle::Stdout));
        slots.push(Some(FileHandle::Stdout));
        let table = FdTable { slots };
        assert(table@ =~= seq![
            Some(FileHandle::Stdin),
            Some(FileHandle::Stdout),
            Some(FileHandle::Stdout),
        ]);
        table
    }

    /// Number of slots in the table, taken or free.
    pub fn len(&self) -> (n: usize)
        ensures
            n == self@.len(),
    {
        self.slots.len()
    }

    /// The lowest free descriptor, without reserving it.
    pub fn next_free(&self) -> (fd: usize)
        ensures
            lowest_free(self@, fd as int),
    {
        let mut fd: usize = 0;
        while fd < self.slots.len()
            invariant
                fd <= self.slots@.len(),
                forall|i: int| 0 <= i < fd ==> (#[trigger] self.slots@[i]) is Some,
            decreases self.slots.len() - fd,
        {
            if self.slots[fd].is_none() {
                return fd;
            }
            fd = fd + 1;
        }
        fd
    }

    /// Reserves the lowest free descriptor: an empty slot if there is one,
    /// else a new slot at the end of the table.
    pub fn alloc_fd(&mut self) -> (fd: usize)
        ensures
            lowest_free(old(self)@, fd as int),
            final(self)@ == with_room(old(self)@, fd as int),
            fd < final(self)@.len(),
            final(self)@[fd as int] is None,
    {
        let fd = self.next_free();
        if fd == self.slots.len() {
            self.slots.push(None);
        }
        fd
    }

    /// Drops every handle, without closing any: the table is left without a
    /// slot.
    pub fn clear(&mut self)
        ensures
            final(self)@ == Seq::<Option<FileHandle>>::empty(),
    {
        self.slots.clear();
    }

    /// The handle behind descriptor `fd`.
    pub fn get(&self, fd: usize) -> (out: Result<FileHandle, Fault>)
        ensures
            out == match handle_at(self@, fd as int) {
                Some(handle) => Ok::<FileHandle, Fault>(handle),
                None => Err(Fault::InvalidDescriptor),
            },
    {
        if fd >= self.slots.len() {
            return Err(Fault::InvalidDescriptor);
        }
        match self.slots[fd] {
            Some(handle) => Ok(handle),
            None => Err(Fault::InvalidDescriptor),
        }
    }

    /// Puts `handle` behind descriptor `fd`, whatever was there.
    pub fn install(&mut self, fd: usize, handle: FileHandle)
        requires
            fd < old(self)@.len(),
        ensures
            final(self)@ == old(self)@.update(fd as int, Some(handle)),
    {
        self.slots.set(fd, Some(handle));
    }

    /// Frees descriptor `fd`. Fails where `fd` is beyond the table or its
    /// slot is already free; the table is then as it was.
    pub fn close(&mut self, fd: usize) -> (out: Result<(), Fault>)
        ensures
            out is Ok <==> handle_at(old(self)@, fd as int) is Some,
            out is Ok ==> final(self)@ == old(self)@.update(fd as int, None),
            out matches Err(fault) ==> fault == Fault::InvalidDescriptor && *final(self) == *old(self),
    {
        if fd >= self.slots.len() {
            return Err(Fault::InvalidDescriptor);
        }
        if self.slots[fd].is_none() {
            return Err(Fault::InvalidDescriptor);
        }
        self.slots.set(fd, None);
        Ok(())
    }
}

} // verus!
