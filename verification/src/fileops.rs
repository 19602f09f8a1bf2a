//! What a task does with its descriptors: open, close, read, write, stat,
//! and the two namespace operations link and unlink.

use vstd::prelude::*;
use crate::address::UserAddr;
use crate::fault::Fault;
use crate::file::{handle_at, lowest_free, with_room, FileHandle};
use crate::fs::{named, overwritten, readout, stat_of, OpenFlags, Stat, StatMode};
use crate::kernel::{same_frames, user_store, Kernel};
use crate::page_table::Access;
use crate::record::{encode_stat, stat_bytes, STAT_SIZE};
use crate::translate::{
    lemma_segments_split_at_page_boundaries, lemma_store_reaches_user_range, span_accessible, translate,
    user_bytes, write_segments,
};

verus! {

/// The lowest free descriptor of a table.
pub open spec fn first_free(slots: Seq<Option<FileHandle>>) -> int {
    choose|fd: int| lowest_free(slots, fd)
}

/// A table has one lowest free descriptor and no other.
pub proof fn lemma_first_free(slots: Seq<Option<FileHandle>>, fd: int)
    requires
        lowest_free(slots, fd),
    ensures
        first_free(slots) == fd,
{
    let other = first_free(slots);
    assert(lowest_free(slots, other));
    if other < fd {
        assert(slots[other] is Some);
    } else if fd < other {
        assert(slots[fd] is Some);
    }
}

/// The metadata that a handle reports: a console is a file of no kind
/// with one link, a file of the namespace reports what the namespace
/// knows of it.
pub open spec fn stat_for(kernel: &Kernel, handle: FileHandle) -> Stat {
    match handle {
        FileHandle::Regular { inode, .. } => stat_of(kernel.fs@, inode),
        _ => Stat { dev: 0, ino: 0, mode: StatMode::Null, nlink: 1 },
    }
}

/// Why an open request is refused, if it is.
pub open spec fn open_refusal(kernel: &Kernel, name: Seq<u8>, flags: OpenFlags) -> Option<Fault> {
    if first_free(kernel.fds@) > isize::MAX {
        Some(Fault::OutOfMemory)
    } else if kernel.fs@.opened(name, flags) is None {
        Some(Fault::NamespaceError)
    } else {
        None
    }
}

/// What a granted open request does: the namespace is as the open leaves
/// it, and the handle on the file, at position zero and with the
/// capabilities asked for, sits behind the lowest descriptor that was
/// free.
pub open spec fn open_effect(pre: &Kernel, post: &Kernel, name: Seq<u8>, flags: OpenFlags, fd: int) -> bool {
    &&& fd == first_free(pre.fds@)
    &&& post.fs@ == pre.fs@.after_open(name, flags)
    &&& post.fds@ == with_room(pre.fds@, fd).update(
        fd,
        Some(
            FileHandle::Regular {
                inode: pre.fs@.opened(name, flags).unwrap(),
                offset: 0,
                readable: flags.readable(),
                writable: flags.writable(),
            },
        ),
    )
    &&& post.mem == pre.mem
    &&& post.space == pre.space
    &&& post.console == pre.console
    &&& post.task == pre.task
    &&& post.clock_us == pre.clock_us
}

/// Why a write request is refused, if it is.
pub open spec fn write_refusal(kernel: &Kernel, fd: int, buf: int, len: int) -> Option<Fault> {
    match handle_at(kernel.fds@, fd) {
        None => Some(Fault::InvalidDescriptor),
        Some(handle) => if !handle.writable() {
            Some(Fault::CapabilityDenied)
        } else if len > isize::MAX || !span_accessible(kernel.pages(), buf, len, Access::Read) {
            Some(Fault::AddressFault)
        } else if (handle matches FileHandle::Regular { offset, .. } && offset + len > usize::MAX) {
            Some(Fault::InvalidArgument)
        } else {
            None
        },
    }
}

/// What a granted write request does: the bytes of the user buffer are
/// appended to the console's output, or written into the file at the
/// position of the handle, which moves on behind them.
pub open spec fn write_effect(pre: &Kernel, post: &Kernel, fd: int, buf: int, len: int) -> bool {
    let data = user_bytes(pre.pages(), pre.mem@, buf, len);
    &&& post.mem == pre.mem
    &&& post.space == pre.space
    &&& post.task == pre.task
    &&& post.clock_us == pre.clock_us
    &&& match handle_at(pre.fds@, fd) {
        Some(FileHandle::Regular { inode, offset, readable, writable }) => {
            &&& post.console == pre.console
            &&& post.fs@.links == pre.fs@.links
            &&& post.fs@.files == pre.fs@.files.update(
                inode as int,
                overwritten(pre.fs@.files[inode as int], offset as int, data),
            )
            &&& post.fds@ == pre.fds@.update(
                fd,
                Some(FileHandle::Regular { inode, offset: (offset + len) as usize, readable, writable }),
            )
        },
        _ => {
            &&& post.console@.output == pre.console@.output + data
            &&& post.console@.pending == pre.console@.pending
            &&& post.fs == pre.fs
            &&& post.fds == pre.fds
        },
    }
}

/// Why a read request is refused, if it is.
pub open spec fn read_refusal(kernel: &Kernel, fd: int, buf: int, len: int) -> Option<Fault> {
    match handle_at(kernel.fds@, fd) {
        None => Some(Fault::InvalidDescriptor),
        Some(handle) => if !handle.readable() {
            Some(Fault::CapabilityDenied)
        } else if len > isize::MAX || !span_accessible(kernel.pages(), buf, len, Access::Write) {
            Some(Fault::AddressFault)
        } else {
            None
        },
    }
}

/// The bytes that a read of up to `len` bytes from descriptor `fd`
/// transfers: from a file, what it holds from the position of the handle
/// on; from the console, the input that is pending; in both cases as far as
/// it and `len` reach.
pub open spec fn read_data(kernel: &Kernel, fd: int, len: int) -> Seq<u8> {
    match handle_at(kernel.fds@, fd) {
        Some(FileHandle::Regular { inode, offset, .. }) => readout(
            kernel.fs@.files[inode as int],
            offset as int,
            len,
        ),
        _ => if kernel.console@.pending.len() <= len {
            kernel.console@.pending
        } else {
            kernel.console@.pending.take(len)
        },
    }
}

/// What a granted read request does: the bytes read lie at the start of
/// the user buffer, no other byte of memory changes, and the position of the
/// handle, or the console's pending input, moves on behind them.
pub open spec fn read_effect(pre: &Kernel, post: &Kernel, fd: int, buf: int, len: int) -> bool {
    let data = read_data(pre, fd, len);
    &&& user_store(pre.pages(), pre.mem@, post.mem@, buf, data)
    &&& same_frames(&pre.mem, &post.mem)
    &&& post.space == pre.space
    &&& post.fs == pre.fs
    &&& post.task == pre.task
    &&& post.clock_us == pre.clock_us
    &&& match handle_at(pre.fds@, fd) {
        Some(FileHandle::Regular { inode, offset, readable, writable }) => {
            &&& post.console == pre.console
            &&& post.fds@ == pre.fds@.update(
                fd,
                Some(
                    FileHandle::Regular { inode, offset: (offset + data.len()) as usize, readable, writable },
                ),
            )
        },
        _ => {
            &&& post.console@.pending == pre.console@.pending.skip(data.len() as int)
            &&& post.console@.output == pre.console@.output
            &&& post.fds == pre.fds
        },
    }
}

/// Why a stat request is refused, if it is.
pub open spec fn stat_refusal(kernel: &Kernel, fd: int, ptr: int) -> Option<Fault> {
    if handle_at(kernel.fds@, fd) is None {
        Some(Fault::InvalidDescriptor)
    } else if !span_accessible(kernel.pages(), ptr, STAT_SIZE as int, Access::Write) {
        Some(Fault::AddressFault)
    } else {
        None
    }
}

/// The state after a record of `bytes` was stored at user address `ptr`:
/// the record lies there in full, and nothing else has changed.
pub open spec fn record_stored(pre: &Kernel, post: &Kernel, ptr: int, bytes: Seq<u8>) -> bool {
    &&& user_store(pre.pages(), pre.mem@, post.mem@, ptr, bytes)
    &&& same_frames(&pre.mem, &post.mem)
    &&& post.space == pre.space
    &&& post.fds == pre.fds
    &&& post.fs == pre.fs
    &&& post.console == pre.console
    &&& post.task == pre.task
    &&& post.clock_us == pre.clock_us
}

impl Kernel {
    /// Opens the file `name` with `flags` and returns its descriptor: the
    /// lowest that is free, in a slot added to the table where none is.
    pub fn open(&mut self, name: &[u8], flags: OpenFlags) -> (out: Result<usize, Fault>)
        requires
            old(self).wf(),
        ensures
            final(self).wf(),
            out is Ok <==> open_refusal(old(self), name@, flags) is None,
            out matches Err(fault) ==> Some(fault) == open_refusal(old(self), name@, flags) && *final(self)
                == *old(self),
            out matches Ok(fd) ==> fd <= isize::MAX && open_effect(old(self), final(self), name@, flags, fd as int),
    {
        let fd = self.fds.next_free();
        proof {
            lemma_first_free(self.fds@, fd as int);
        }
        if fd > isize::MAX as usize {
            return Err(Fault::OutOfMemory);
        }
        let inode = match self.fs.lookup(name) {
            Some(inode) => inode,
            None => {
                if !flags.create {
                    return Err(Fault::NamespaceError);
                }
                0
            },
        };
        let opened = self.fs.open_file(name, flags);
        let inode = match opened {
            Some(inode) => inode,
            None => {
                proof {
                    assert(false);
                }
                return Err(Fault::NamespaceError);
            },
        };
        let got = self.fds.alloc_fd();
        proof {
            lemma_first_free(old(self).fds@, got as int);
        }
        self.fds.install(
            got,
            FileHandle::Regular { inode, offset: 0, readable: flags.can_read(), writable: flags.can_write() },
        );
        Ok(got)
    }

    /// Frees descriptor `fd`. Pending transfers are not waited for.
    pub fn close(&mut self, fd: usize) -> (out: Result<(), Fault>)
        requires
            old(self).wf(),
        ensures
            final(self).wf(),
            out is Ok <==> handle_at(old(self).fds@, fd as int) is Some,
            out matches Err(fault) ==> fault == Fault::InvalidDescriptor && *final(self) == *old(self),
            out is Ok ==> {
                &&& final(self).fds@ == old(self).fds@.update(fd as int, None)
                &&& final(self).mem == old(self).mem
                &&& final(self).space == old(self).space
                &&& final(self).fs == old(self).fs
                &&& final(self).console == old(self).console
                &&& final(self).task == old(self).task
                &&& final(self).clock_us == old(self).clock_us
            },
    {
        if self.fds.get(fd).is_err() {
            return Err(Fault::InvalidDescriptor);
        }
        let closed = self.fds.close(fd);
        Ok(())
    }

    /// Writes the `len` bytes at user address `buf` to descriptor `fd` and
    /// returns how many were written: all of them.
    pub fn write(&mut self, fd: usize, buf: UserAddr, len: usize) -> (out: Result<usize, Fault>)
        requires
            old(self).wf(),
        ensures
            final(self).wf(),
            out == match write_refusal(old(self), fd as int, buf.value(), len as int) {
                Some(fault) => Err::<usize, Fault>(fault),
                None => Ok(len),
            },
            out is Err ==> *final(self) == *old(self),
            out is Ok ==> write_effect(old(self), final(self), fd as int, buf.value(), len as int),
    {
        let handle = match self.fds.get(fd) {
            Ok(handle) => handle,
            Err(fault) => {
                return Err(fault);
            },
        };
        if !handle.can_write() {
            return Err(Fault::CapabilityDenied);
        }
        if len > isize::MAX as usize {
            return Err(Fault::AddressFault);
        }
        let data = match self.copy_from_user(buf, len) {
            Ok(data) => data,
            Err(fault) => {
                return Err(fault);
            },
        };
        match handle {
            FileHandle::Regular { inode, offset, readable, writable } => {
                if offset > usize::MAX - len {
                    return Err(Fault::InvalidArgument);
                }
                assert(inode < self.fs@.files.len());
                self.fs.write_at(inode, offset, data.as_slice());
                self.fds.install(fd, FileHandle::Regular { inode, offset: offset + len, readable, writable });
            },
            _ => {
                self.console.print(data.as_slice());
            },
        }
        Ok(len)
    }

    /// Reads up to `len` bytes from descriptor `fd` into user memory at
    /// `buf` and returns how many were read; fewer than `len` where the file
    /// ends, or the console's pending input runs out, before that.
    pub fn read(&mut self, fd: usize, buf: UserAddr, len: usize) -> (out: Result<usize, Fault>)
        requires
            old(self).wf(),
        ensures
            final(self).wf(),
            out == match read_refusal(old(self), fd as int, buf.value(), len as int) {
                Some(fault) => Err::<usize, Fault>(fault),
                None => Ok(read_data(old(self), fd as int, len as int).len() as usize),
            },
            out is Err ==> *final(self) == *old(self),
            out is Ok ==> read_effect(old(self), final(self), fd as int, buf.value(), len as int),
            out matches Ok(n) ==> n <= len,
    {
        let handle = match self.fds.get(fd) {
            Ok(handle) => handle,
            Err(fault) => {
                return Err(fault);
            },
        };
        if !handle.can_read() {
            return Err(Fault::CapabilityDenied);
        }
        if len > isize::MAX as usize {
            return Err(Fault::AddressFault);
        }
        let token = self.space.token();
        let segs = match translate(self.space.table(), &self.mem, token, buf, len, Access::Write) {
            Ok(segs) => segs,
            Err(fault) => {
                return Err(fault);
            },
        };
        proof {
            self.mem.lemma_size();
            lemma_segments_split_at_page_boundaries(
                self.pages(),
                self.mem@,
                self.mem.frame_count(),
                buf.value(),
                len as int,
                Access::Write,
            );
            lemma_store_reaches_user_range(
                self.pages(),
                self.mem@,
                self.mem.frame_count(),
                buf.value(),
                len as int,
                Access::Write,
                read_data(self, fd as int, len as int),
            );
        }
        match handle {
            FileHandle::Regular { inode, offset, readable, writable } => {
                assert(inode < self.fs@.files.len());
                let size = self.fs.size(inode);
                let n: usize = if offset >= size {
                    0
                } else if size - offset <= len {
                    size - offset
                } else {
                    len
                };
                let from: usize = if n == 0 {
                    0
                } else {
                    offset
                };
                let chunk = vstd::slice::slice_subrange(self.fs.contents(inode), from, from + n);
                proof {
                    assert(chunk@ =~= read_data(self, fd as int, len as int));
                }
                let stored = write_segments(&mut self.mem, &segs, chunk);
                self.fds.install(fd, FileHandle::Regular { inode, offset: offset + n, readable, writable });
                Ok(n)
            },
            _ => {
                let pending = self.console.pending_len();
                let n: usize = if pending <= len {
                    pending
                } else {
                    len
                };
                let chunk = self.console.peek(n);
                proof {
                    assert(chunk@ =~= read_data(self, fd as int, len as int));
                }
                let stored = write_segments(&mut self.mem, &segs, chunk);
                self.console.consume(n);
                Ok(n)
            },
        }
    }

    /// Stores the metadata of the file behind descriptor `fd` at user
    /// address `ptr`, in full or, on a fault, not at all.
    pub fn stat(&mut self, fd: usize, ptr: UserAddr) -> (out: Result<(), Fault>)
        requires
            old(self).wf(),
        ensures
            final(self).wf(),
            out == match stat_refusal(old(self), fd as int, ptr.value()) {
                Some(fault) => Err::<(), Fault>(fault),
                None => Ok(()),
            },
            out is Err ==> *final(self) == *old(self),
            out is Ok ==> record_stored(
                old(self),
                final(self),
                ptr.value(),
                stat_bytes(stat_for(old(self), handle_at(old(self).fds@, fd as int).unwrap())),
            ),
    {
        let handle = match self.fds.get(fd) {
            Ok(handle) => handle,
            Err(fault) => {
                return Err(fault);
            },
        };
        let st = match handle {
            FileHandle::Regular { inode, .. } => self.fs.stat(inode),
            _ => Stat { dev: 0, ino: 0, mode: StatMode::Null, nlink: 1 },
        };
        let bytes = encode_stat(&st);
        match self.copy_to_user(ptr, bytes.as_slice()) {
            Ok(()) => Ok(()),
            Err(fault) => Err(fault),
        }
    }

    /// Makes `new_name` a second name for the file of `old_name`.
    pub fn link(&mut self, old_name: &[u8], new_name: &[u8]) -> (out: Result<(), Fault>)
        requires
            old(self).wf(),
        ensures
            final(self).wf(),
            out is Ok <==> named(old(self).fs@.links, old_name@) && !named(old(self).fs@.links, new_name@),
            out matches Err(fault) ==> fault == Fault::NamespaceError && *final(self) == *old(self),
            out is Ok ==> {
                &&& final(self).fs@ == old(self).fs@.after_link(old_name@, new_name@)
                &&& final(self).mem == old(self).mem
                &&& final(self).space == old(self).space
                &&& final(self).fds == old(self).fds
                &&& final(self).console == old(self).console
                &&& final(self).task == old(self).task
                &&& final(self).clock_us == old(self).clock_us
            },
    {
        if self.fs.lookup(old_name).is_none() || self.fs.lookup(new_name).is_some() {
            return Err(Fault::NamespaceError);
        }
        let linked = self.fs.link(old_name, new_name);
        Ok(())
    }

    /// Removes `name` from the namespace.
    pub fn unlink(&mut self, name: &[u8]) -> (out: Result<(), Fault>)
        requires
            old(self).wf(),
        ensures
            final(self).wf(),
            out is Ok <==> named(old(self).fs@.links, name@),
            out matches Err(fault) ==> fault == Fault::NamespaceError && *final(self) == *old(self),
            out is Ok ==> {
                &&& final(self).fs@ == old(self).fs@.after_unlink(name@)
                &&& final(self).mem == old(self).mem
                &&& final(self).space == old(self).space
                &&& final(self).fds == old(self).fds
                &&& final(self).console == old(self).console
                &&& final(self).task == old(self).task
                &&& final(self).clock_us == old(self).clock_us
            },
    {
        if self.fs.lookup(name).is_none() {
            return Err(Fault::NamespaceError);
        }
        let removed = self.fs.unlink(name);
        Ok(())
    }
}

/// Every table has a lowest free descriptor.
pub proof fn lemma_lowest_free_exists(slots: Seq<Option<FileHandle>>)
    ensures
        lowest_free(slots, first_free(slots)),
{
    lemma_scan_for_free(slots, 0);
}

/// Where every slot below `from` is taken, the table has a lowest free
/// descriptor, at `from` or above.
proof fn lemma_scan_for_free(slots: Seq<Option<FileHandle>>, from: int)
    requires
        0 <= from <= slots.len(),
        forall|i: int| 0 <= i < from ==> (#[trigger] slots[i]) is Some,
    ensures
        exists|fd: int| lowest_free(slots, fd),
    decreases slots.len() - from,
{
    if from == slots.len() || slots[from] is None {
        assert(lowest_free(slots, from));
    } else {
        lemma_scan_for_free(slots, from + 1);
    }
}

/// An open request never hands out a descriptor that is still in use: the
/// descriptor it returns was free and no lower one was, and every other
/// descriptor leads to the handle it led to before.
pub proof fn lemma_open_takes_lowest_free(pre: &Kernel, post: &Kernel, name: Seq<u8>, flags: OpenFlags, fd: int)
    requires
        open_effect(pre, post, name, flags, fd),
    ensures
        handle_at(pre.fds@, fd) is None,
        forall|lower: int| 0 <= lower < fd ==> handle_at(pre.fds@, lower) is Some,
        handle_at(post.fds@, fd) is Some,
        forall|other: int| other != fd ==> handle_at(post.fds@, other) == handle_at(pre.fds@, other),
{
    lemma_lowest_free_exists(pre.fds@);
    assert forall|lower: int| 0 <= lower < fd implies handle_at(pre.fds@, lower) is Some by {
        assert(pre.fds@[lower] is Some);
    }
}

/// A descriptor that was closed is of no use until it is handed out
/// again: reading, writing and stat on it are refused as on an invalid
/// descriptor, whatever the buffer.
pub proof fn lemma_closed_descriptor_refused(pre: &Kernel, post: &Kernel, fd: int, buf: int, len: int)
    requires
        0 <= fd < pre.fds@.len(),
        post.fds@ == pre.fds@.update(fd, None),
    ensures
        read_refusal(post, fd, buf, len) == Some(Fault::InvalidDescriptor),
        write_refusal(post, fd, buf, len) == Some(Fault::InvalidDescriptor),
        stat_refusal(post, fd, buf) == Some(Fault::InvalidDescriptor),
{
}

/// Reading at the position at which bytes were written finds those
/// bytes.
pub proof fn lemma_readout_of_overwritten(data: Seq<u8>, offset: int, bytes: Seq<u8>)
    requires
        0 <= offset,
    ensures
        readout(overwritten(data, offset, bytes), offset, bytes.len() as int) == bytes,
{
    assert(readout(overwritten(data, offset, bytes), offset, bytes.len() as int) =~= bytes);
}

/// What is written comes back. After `len` bytes of user memory at `src`
/// were written to a file, a read of `len` bytes from the position at which
/// the write began transfers all `len` bytes, and the user memory at `dst`
/// then holds what the user memory at `src` held when it was written,
/// however many pages either buffer touches.
pub proof fn lemma_write_then_read_round_trip(
    pre: &Kernel,
    mid: &Kernel,
    post: &Kernel,
    write_fd: int,
    read_fd: int,
    src: int,
    dst: int,
    len: int,
)
    requires
        0 <= src,
        0 <= dst,
        0 <= len,
        pre.wf(),
        handle_at(pre.fds@, write_fd) is Some,
        handle_at(pre.fds@, write_fd).unwrap() is Regular,
        write_refusal(pre, write_fd, src, len) is None,
        write_effect(pre, mid, write_fd, src, len),
        handle_at(mid.fds@, read_fd) is Some,
        handle_at(mid.fds@, read_fd).unwrap() is Regular,
        handle_at(mid.fds@, read_fd).unwrap()->inode == handle_at(pre.fds@, write_fd).unwrap()->inode,
        handle_at(mid.fds@, read_fd).unwrap()->offset == handle_at(pre.fds@, write_fd).unwrap()->offset,
        read_refusal(mid, read_fd, dst, len) is None,
        read_effect(mid, post, read_fd, dst, len),
    ensures
        read_data(mid, read_fd, len) == user_bytes(pre.pages(), pre.mem@, src, len),
        user_bytes(post.pages(), post.mem@, dst, len) == user_bytes(pre.pages(), pre.mem@, src, len),
{
    let data = user_bytes(pre.pages(), pre.mem@, src, len);
    let inode = handle_at(pre.fds@, write_fd).unwrap()->inode;
    let offset = handle_at(pre.fds@, write_fd).unwrap()->offset;
    assert(pre.fds@[write_fd] == handle_at(pre.fds@, write_fd));
    assert(inode < pre.fs@.files.len());
    lemma_readout_of_overwritten(pre.fs@.files[inode as int], offset as int, data);
    assert(read_data(mid, read_fd, len) == data);
    assert forall|i: int| 0 <= i < len implies #[trigger] user_bytes(post.pages(), post.mem@, dst, len)[i]
        == data[i] by {
        let va = dst + i;
        assert(crate::translate::byte_accessible(mid.pages(), va, Access::Write));
        assert(crate::translate::byte_mapped(mid.pages(), va));
    }
    assert(user_bytes(post.pages(), post.mem@, dst, len) =~= data);
}

} // verus!
