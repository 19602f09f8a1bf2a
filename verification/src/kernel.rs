//! The kernel state that a syscall works on, and the copies between kernel
//! and user memory that every syscall goes through.

use vstd::prelude::*;
use crate::address::UserAddr;
use crate::fault::Fault;
use crate::file::{Console, FdTable, FileHandle};
use crate::fs::FileSystem;
use crate::memory::PhysMemory;
use crate::page_table::{Access, AddressSpaceToken};
use crate::space::AddressSpace;
use crate::task::{Task, TaskStatus};
use crate::translate::{
    byte_mapped, lemma_segments_split_at_page_boundaries,
    lemma_store_reaches_user_range, phys_addr, read_segments, span_accessible,
    translate, user_bytes, write_segments, Pages,
};

verus! {

/// The kernel as one task sees it: the machine's memory, the task's own
/// address space and descriptor table, the file namespace, the console and
/// the clock.
pub struct Kernel {
    /// Physical memory and its frame allocator.
    pub mem: PhysMemory,
    /// The address space of the current task.
    pub space: AddressSpace,
    /// The descriptor table of the current task.
    pub fds: FdTable,
    /// The file namespace.
    pub fs: FileSystem,
    /// The console.
    pub console: Console,
    /// The running state of the current task.
    pub task: Task,
    /// Microseconds since the machine was started.
    pub clock_us: usize,
}

/// Every handle on a file of the namespace names a file that exists.
pub open spec fn handles_valid(slots: Seq<Option<FileHandle>>, file_count: nat) -> bool {
    forall|fd: int|
        0 <= fd < slots.len() ==> match #[trigger] slots[fd] {
            Some(FileHandle::Regular { inode, .. }) => inode < file_count,
            _ => true,
        }
}

/// Two states of the memory hand out the same frames.
pub open spec fn same_frames(before: &PhysMemory, after: &PhysMemory) -> bool {
    &&& after.wf() == before.wf()
    &&& after.frame_count() == before.frame_count()
    &&& after.free_frames() == before.free_frames()
    &&& after@.len() == before@.len()
    &&& forall|q: int| after.is_allocated(q) == before.is_allocated(q)
}

/// Memory `after` is memory `before` with `data` stored at user address
/// `ptr`: the bytes of the range are those of `data`, every other byte
/// that the task can see is as before, and so is every byte of physical
/// memory that lies behind no address of the range.
pub open spec fn user_store(pages: Pages, before: Seq<u8>, after: Seq<u8>, ptr: int, data: Seq<u8>) -> bool {
    &&& after.len() == before.len()
    &&& forall|va: int| #[trigger]
        byte_mapped(pages, va) ==> after[phys_addr(pages, va)] == if ptr <= va < ptr + data.len() {
            data[va - ptr]
        } else {
            before[phys_addr(pages, va)]
        }
    &&& forall|pa: int|
        0 <= pa < before.len() && (forall|va: int|
            ptr <= va < ptr + data.len() ==> #[trigger] phys_addr(pages, va) != pa) ==> #[trigger] after[pa]
            == before[pa]
}

impl Kernel {
    /// The invariant of the kernel state.
    pub open spec fn wf(&self) -> bool {
        &&& self.mem.wf()
        &&& self.space.wf(&self.mem)
        &&& self.fs@.wf()
        &&& handles_valid(self.fds@, self.fs@.files.len())
        &&& self.console.wf()
        &&& self.task.wf()
        &&& self.task@.started_us <= self.clock_us
    }

    /// The mapped pages of the current task.
    pub open spec fn pages(&self) -> Pages {
        self.space@.pages
    }

    /// A kernel over `frames` frames of memory, with one task whose heap
    /// starts at `heap_bottom`, an empty namespace, a silent console and the
    /// clock at zero. `None` where the memory is too large to address or
    /// `heap_bottom` is not a page-aligned address of the lower half of the
    /// address range.
    pub fn new(frames: usize, heap_bottom: usize) -> (made: Option<Self>)
        ensures
            made is Some <==> frames * crate::config::PAGE_SIZE <= isize::MAX && crate::address::page_aligned(
                heap_bottom as int,
            ) && heap_bottom <= isize::MAX,
            made matches Some(kernel) ==> {
                &&& kernel.wf()
                &&& kernel.mem.frame_count() == frames
                &&& kernel.mem.free_frames() == frames
                &&& kernel.space@.token == AddressSpaceToken(1)
                &&& kernel.space@.pages == Map::<usize, crate::page_table::PageTableEntry>::empty()
                &&& kernel.space@.areas == Seq::<crate::space::Vma>::empty()
                &&& kernel.space@.heap_bottom == heap_bottom
                &&& kernel.space@.brk == heap_bottom
                &&& kernel.fds@ == seq![
                    Some(FileHandle::Stdin),
                    Some(FileHandle::Stdout),
                    Some(FileHandle::Stdout),
                ]
                &&& kernel.fs@.links.len() == 0
                &&& kernel.fs@.files.len() == 0
                &&& kernel.console@.pending.len() == 0
                &&& kernel.console@.output.len() == 0
                &&& kernel.clock_us == 0
                &&& kernel.task@.status == TaskStatus::Running
                &&& kernel.task@.exit_code == 0
                &&& kernel.task@.started_us == 0
                &&& forall|id: int| 0 <= id < kernel.task@.syscall_times.len() ==> kernel.task@.syscall_times[id] == 0
                &&& forall|i: int| 0 <= i < kernel.mem@.len() ==> kernel.mem@[i] == 0
            },
    {
        let mem = match PhysMemory::new(frames) {
            Some(mem) => mem,
            None => {
                return None;
            },
        };
        let space = match AddressSpace::new(AddressSpaceToken(1), heap_bottom) {
            Some(space) => space,
            None => {
                return None;
            },
        };
        let kernel = Kernel {
            mem,
            space,
            fds: FdTable::new(),
            fs: FileSystem::new(),
            console: Console::new(),
            task: Task::new(0),
            clock_us: 0,
        };
        proof {
            assert(kernel.space.wf(&kernel.mem));
        }
        Some(kernel)
    }

    /// Moves the clock on by `micros` microseconds; a clock that is full
    /// stays full.
    pub fn tick(&mut self, micros: usize)
        requires
            old(self).wf(),
        ensures
            final(self).wf(),
            final(self).clock_us == if old(self).clock_us + micros <= usize::MAX {
                (old(self).clock_us + micros) as usize
            } else {
                usize::MAX
            },
            final(self).mem == old(self).mem,
            final(self).space == old(self).space,
            final(self).fds == old(self).fds,
            final(self).fs == old(self).fs,
            final(self).console == old(self).console,
            final(self).task == old(self).task,
    {
        self.clock_us = if micros <= usize::MAX - self.clock_us {
            self.clock_us + micros
        } else {
            usize::MAX
        };
    }

    /// Puts a task that waits for its turn back on the processor; a task
    /// that runs or has exited is left as it is.
    pub fn resume(&mut self)
        requires
            old(self).wf(),
        ensures
            final(self).wf(),
            final(self).task@.status == if old(self).task@.status == TaskStatus::Ready {
                TaskStatus::Running
            } else {
                old(self).task@.status
            },
            final(self).task@.exit_code == old(self).task@.exit_code,
            final(self).task@.syscall_times == old(self).task@.syscall_times,
            final(self).task@.started_us == old(self).task@.started_us,
            final(self).mem == old(self).mem,
            final(self).space == old(self).space,
            final(self).fds == old(self).fds,
            final(self).fs == old(self).fs,
            final(self).console == old(self).console,
            final(self).clock_us == old(self).clock_us,
    {
        match self.task.status() {
            TaskStatus::Ready => {
                let code = self.task.exit_code();
                self.task.set_status(TaskStatus::Running, code);
            },
            _ => {},
        }
    }

    /// Reads the `len` bytes at user address `ptr` into kernel memory, after
    /// checking that the task may read all of them.
    pub fn copy_from_user(&self, ptr: UserAddr, len: usize) -> (out: Result<Vec<u8>, Fault>)
        requires
            self.wf(),
        ensures
            out is Ok <==> span_accessible(self.pages(), ptr.value(), len as int, Access::Read),
            out matches Ok(bytes) ==> bytes@ == user_bytes(self.pages(), self.mem@, ptr.value(), len as int),
            out matches Err(fault) ==> fault == Fault::AddressFault,
    {
        let token = self.space.token();
        let segs = match translate(self.space.table(), &self.mem, token, ptr, len, Access::Read) {
            Ok(segs) => segs,
            Err(fault) => {
                return Err(fault);
            },
        };
        proof {
            self.mem.lemma_size();
            lemma_segments_split_at_page_boundaries(
                self.pages(),
                self.mem@,
                self.mem.frame_count(),
                ptr.value(),
                len as int,
                Access::Read,
            );
        }
        Ok(read_segments(&self.mem, &segs))
    }

    /// Stores `bytes` at user address `ptr`, after checking that the task
    /// may write all of the range: either every byte is stored or, on a
    /// fault, none.
    pub fn copy_to_user(&mut self, ptr: UserAddr, bytes: &[u8]) -> (out: Result<(), Fault>)
        requires
            old(self).wf(),
        ensures
            final(self).wf(),
            out is Ok <==> span_accessible(old(self).pages(), ptr.value(), bytes@.len() as int, Access::Write),
            out matches Err(fault) ==> fault == Fault::AddressFault && *final(self) == *old(self),
            out is Ok ==> {
                &&& user_store(old(self).pages(), old(self).mem@, final(self).mem@, ptr.value(), bytes@)
                &&& same_frames(&old(self).mem, &final(self).mem)
                &&& final(self).space == old(self).space
                &&& final(self).fds == old(self).fds
                &&& final(self).fs == old(self).fs
                &&& final(self).console == old(self).console
                &&& final(self).task == old(self).task
                &&& final(self).clock_us == old(self).clock_us
            },
    {
        let token = self.space.token();
        let segs = match translate(self.space.table(), &self.mem, token, ptr, bytes.len(), Access::Write) {
            Ok(segs) => segs,
            Err(fault) => {
                return Err(fault);
            },
        };
        proof {
            self.mem.lemma_size();
            lemma_segments_split_at_page_boundaries(
                self.pages(),
                self.mem@,
                self.mem.frame_count(),
                ptr.value(),
                bytes@.len() as int,
                Access::Write,
            );
            lemma_store_reaches_user_range(
                self.pages(),
                self.mem@,
                self.mem.frame_count(),
                ptr.value(),
                bytes@.len() as int,
                Access::Write,
                bytes@,
            );
        }
        let stored = write_segments(&mut self.mem, &segs, bytes);
        Ok(())
    }
}

} // verus!
