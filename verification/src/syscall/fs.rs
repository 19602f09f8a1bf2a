//! File and namespace syscalls.

use vstd::prelude::*;
use crate::address::UserAddr;
use crate::fault::Fault;
use crate::file::handle_at;
use crate::fileops::{
    first_free, open_effect, open_refusal, read_data, read_effect, read_refusal, record_stored, stat_for,
    stat_refusal, write_effect, write_refusal,
};
use crate::fs::{named, OpenFlags};
use crate::kernel::Kernel;
use crate::record::stat_bytes;
use crate::translate::{read_user_string, user_string};

verus! {

/// Writes the `len` bytes at user address `buf` to descriptor `fd`.
/// Returns the number of bytes written, or -1 where the descriptor is not
/// open or not writable, or the task may not read all of the buffer; then
/// nothing has changed.
pub fn sys_write(kernel: &mut Kernel, fd: usize, buf: UserAddr, len: usize) -> (ret: isize)
    requires
        old(kernel).wf(),
    ensures
        final(kernel).wf(),
        ret == match write_refusal(old(kernel), fd as int, buf.value(), len as int) {
            Some(_) => -1,
            None => len as int,
        },
        write_refusal(old(kernel), fd as int, buf.value(), len as int) is Some ==> *final(kernel) == *old(
            kernel,
        ),
        write_refusal(old(kernel), fd as int, buf.value(), len as int) is None ==> write_effect(
            old(kernel),
            final(kernel),
            fd as int,
            buf.value(),
            len as int,
        ),
{
    match kernel.write(fd, buf, len) {
        Ok(n) => n as isize,
        Err(_) => -1,
    }
}

/// Reads up to `len` bytes from descriptor `fd` into user memory at `buf`.
/// Returns the number of bytes read, or -1 where the descriptor is not open
/// or not readable, or the task may not write all of the buffer; then
/// nothing has changed.
pub fn sys_read(kernel: &mut Kernel, fd: usize, buf: UserAddr, len: usize) -> (ret: isize)
    requires
        old(kernel).wf(),
    ensures
        final(kernel).wf(),
        ret == match read_refusal(old(kernel), fd as int, buf.value(), len as int) {
            Some(_) => -1,
            None => read_data(old(kernel), fd as int, len as int).len() as int,
        },
        read_refusal(old(kernel), fd as int, buf.value(), len as int) is Some ==> *final(kernel) == *old(
            kernel,
        ),
        read_refusal(old(kernel), fd as int, buf.value(), len as int) is None ==> read_effect(
            old(kernel),
            final(kernel),
            fd as int,
            buf.value(),
            len as int,
        ),
{
    match kernel.read(fd, buf, len) {
        Ok(n) => n as isize,
        Err(_) => -1,
    }
}

/// Why an open syscall fails, if it does: there is no string at `path`
/// that the task may read, the flags carry an illegal bit, or the open
/// request itself is refused.
pub open spec fn sys_open_refusal(kernel: &Kernel, path: int, flags: int) -> Option<Fault> {
    match user_string(kernel.pages(), kernel.mem@, path) {
        None => Some(Fault::AddressFault),
        Some(name) => if !OpenFlags::bits_valid(flags) {
            Some(Fault::InvalidArgument)
        } else {
            open_refusal(kernel, name, OpenFlags::of_bits(flags))
        },
    }
}

/// Opens the file named by the string at user address `path`. Returns the
/// new descriptor, or -1 on a fault; then nothing has changed.
pub fn sys_open(kernel: &mut Kernel, path: UserAddr, flags: u32) -> (ret: isize)
    requires
        old(kernel).wf(),
    ensures
        final(kernel).wf(),
        ret == match sys_open_refusal(old(kernel), path.value(), flags as int) {
            Some(_) => -1,
            None => first_free(old(kernel).fds@),
        },
        sys_open_refusal(old(kernel), path.value(), flags as int) is Some ==> *final(kernel) == *old(kernel),
        sys_open_refusal(old(kernel), path.value(), flags as int) is None ==> open_effect(
            old(kernel),
            final(kernel),
            user_string(old(kernel).pages(), old(kernel).mem@, path.value()).unwrap(),
            OpenFlags::of_bits(flags as int),
            ret as int,
        ),
{
    let token = kernel.space.token();
    let name = match read_user_string(kernel.space.table(), &kernel.mem, token, path) {
        Ok(name) => name,
        Err(_) => {
            return -1;
        },
    };
    let flags = match OpenFlags::from_bits(flags) {
        Some(flags) => flags,
        None => {
            return -1;
        },
    };
    match kernel.open(name.as_slice(), flags) {
        Ok(fd) => fd as isize,
        Err(_) => -1,
    }
}

/// Closes descriptor `fd`. Returns 0, or -1 where `fd` is not open; then
/// nothing has changed.
pub fn sys_close(kernel: &mut Kernel, fd: usize) -> (ret: isize)
    requires
        old(kernel).wf(),
    ensures
        final(kernel).wf(),
        ret == if handle_at(old(kernel).fds@, fd as int) is Some {
            0int
        } else {
            -1
        },
        ret == -1 ==> *final(kernel) == *old(kernel),
        ret == 0 ==> {
            &&& final(kernel).fds@ == old(kernel).fds@.update(fd as int, None)
            &&& final(kernel).mem == old(kernel).mem
            &&& final(kernel).space == old(kernel).space
            &&& final(kernel).fs == old(kernel).fs
            &&& final(kernel).console == old(kernel).console
            &&& final(kernel).task == old(kernel).task
            &&& final(kernel).clock_us == old(kernel).clock_us
        },
{
    match kernel.close(fd) {
        Ok(()) => 0,
        Err(_) => -1,
    }
}

/// Stores the metadata of the file behind descriptor `fd` at user address
/// `st`. Returns 0, or -1 where `fd` is not open or the task may not write
/// all of the record's bytes; then nothing has changed.
pub fn sys_fstat(kernel: &mut Kernel, fd: usize, st: UserAddr) -> (ret: isize)
    requires
        old(kernel).wf(),
    ensures
        final(kernel).wf(),
        ret == if stat_refusal(old(kernel), fd as int, st.value()) is Some {
            -1
        } else {
            0int
        },
        ret == -1 ==> *final(kernel) == *old(kernel),
        ret == 0 ==> record_stored(
            old(kernel),
            final(kernel),
            st.value(),
            stat_bytes(stat_for(old(kernel), handle_at(old(kernel).fds@, fd as int).unwrap())),
        ),
{
    match kernel.stat(fd, st) {
        Ok(()) => 0,
        Err(_) => -1,
    }
}

/// Why a link syscall fails, if it does. Two equal path addresses are
/// turned down before the namespace is asked.
pub open spec fn sys_linkat_refusal(kernel: &Kernel, old_path: int, new_path: int) -> Option<Fault> {
    if old_path == new_path {
        Some(Fault::InvalidArgument)
    } else {
        match (
            user_string(kernel.pages(), kernel.mem@, old_path),
            user_string(kernel.pages(), kernel.mem@, new_path),
        ) {
            (Some(old_name), Some(new_name)) => if named(kernel.fs@.links, old_name) && !named(
                kernel.fs@.links,
                new_name,
            ) {
                None
            } else {
                Some(Fault::NamespaceError)
            },
            _ => Some(Fault::AddressFault),
        }
    }
}

/// Makes the string at user address `new_path` a second name for the file
/// named by the string at `old_path`. Returns 0, or -1 on a fault; then
/// nothing has changed.
pub fn sys_linkat(kernel: &mut Kernel, old_path: UserAddr, new_path: UserAddr) -> (ret: isize)
    requires
        old(kernel).wf(),
    ensures
        final(kernel).wf(),
        ret == if sys_linkat_refusal(old(kernel), old_path.value(), new_path.value()) is Some {
            -1
        } else {
            0int
        },
        ret == -1 ==> *final(kernel) == *old(kernel),
        ret == 0 ==> {
            &&& final(kernel).fs@ == old(kernel).fs@.after_link(
                user_string(old(kernel).pages(), old(kernel).mem@, old_path.value()).unwrap(),
                user_string(old(kernel).pages(), old(kernel).mem@, new_path.value()).unwrap(),
            )
            &&& final(kernel).mem == old(kernel).mem
            &&& final(kernel).space == old(kernel).space
            &&& final(kernel).fds == old(kernel).fds
            &&& final(kernel).console == old(kernel).console
            &&& final(kernel).task == old(kernel).task
            &&& final(kernel).clock_us == old(kernel).clock_us
        },
{
    if old_path.0 == new_path.0 {
        return -1;
    }
    let token = kernel.space.token();
    let old_name = match read_user_string(kernel.space.table(), &kernel.mem, token, old_path) {
        Ok(name) => name,
        Err(_) => {
            return -1;
        },
    };
    let new_name = match read_user_string(kernel.space.table(), &kernel.mem, token, new_path) {
        Ok(name) => name,
        Err(_) => {
            return -1;
        },
    };
    match kernel.link(old_name.as_slice(), new_name.as_slice()) {
        Ok(()) => 0,
        Err(_) => -1,
    }
}

/// Why an unlink syscall fails, if it does.
pub open spec fn sys_unlinkat_refusal(kernel: &Kernel, path: int) -> Option<Fault> {
    match user_string(kernel.pages(), kernel.mem@, path) {
        None => Some(Fault::AddressFault),
        Some(name) => if named(kernel.fs@.links, name) {
            None
        } else {
            Some(Fault::NamespaceError)
        },
    }
}

/// Removes the name given by the string at user address `path`. Returns
/// 0, or -1 on a fault; then nothing has changed.
pub fn sys_unlinkat(kernel: &mut Kernel, path: UserAddr) -> (ret: isize)
    requires
        old(kernel).wf(),
    ensures
        final(kernel).wf(),
        ret == if sys_unlinkat_refusal(old(kernel), path.value()) is Some {
            -1
        } else {
            0int
        },
        ret == -1 ==> *final(kernel) == *old(kernel),
        ret == 0 ==> {
            &&& final(kernel).fs@ == old(kernel).fs@.after_unlink(
                user_string(old(kernel).pages(), old(kernel).mem@, path.value()).unwrap(),
            )
            &&& final(kernel).mem == old(kernel).mem
            &&& final(kernel).space == old(kernel).space
            &&& final(kernel).fds == old(kernel).fds
            &&& final(kernel).console == old(kernel).console
            &&& final(kernel).task == old(kernel).task
            &&& final(kernel).clock_us == old(kernel).clock_us
        },
{
    let token = kernel.space.token();
    let name = match read_user_string(kernel.space.table(), &kernel.mem, token, path) {
        Ok(name) => name,
        Err(_) => {
            return -1;
        },
    };
    match kernel.unlink(name.as_slice()) {
        Ok(()) => 0,
        Err(_) => -1,
    }
}

} // verus!
