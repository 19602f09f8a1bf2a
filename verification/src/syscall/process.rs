//! Process, time and memory syscalls.

use vstd::prelude::*;
use crate::address::{page_aligned, UserAddr};
use crate::config::MICROS_PER_SEC;
use crate::fault::Fault;
use crate::file::FileHandle;
use crate::fileops::record_stored;
use crate::kernel::Kernel;
use crate::page_table::{Access, MapPermission, PageTableEntry};
use crate::record::{
    encode_task_info, encode_time_val, task_info_bytes, time_val_bytes, TASK_INFO_SIZE, TIME_VAL_SIZE,
};
use crate::space::{
    brk_effect, brk_refused, mmap_effect, mmap_refusal, munmap_effect, munmap_refusal, Vma,
};
use crate::task::{TaskInfo, TaskStatus};
use crate::translate::span_accessible;

verus! {

/// A point in time: whole seconds, and the microseconds beyond them.
#[derive(Clone, Copy, Debug, PartialEq, Eq, Structural)]
pub struct TimeVal {
    pub sec: usize,
    pub usec: usize,
}

impl TimeVal {
    /// The time `micros` microseconds after the start of the clock.
    pub open spec fn of_micros(micros: int) -> TimeVal {
        TimeVal {
            sec: (micros / (MICROS_PER_SEC as int)) as usize,
            usec: (micros % (MICROS_PER_SEC as int)) as usize,
        }
    }

    /// The time `micros` microseconds after the start of the clock.
    pub fn from_micros(micros: usize) -> (tv: TimeVal)
        ensures
            tv == Self::of_micros(micros as int),
            tv.usec < MICROS_PER_SEC,
            tv.sec * MICROS_PER_SEC + tv.usec == micros,
    {
        TimeVal { sec: micros / MICROS_PER_SEC, usec: micros % MICROS_PER_SEC }
    }
}

/// Ends the current task with `exit_code`. Everything it has mapped is
/// unmapped and the frames are taken back; its descriptors are dropped, not
/// closed. The task does not run again: the caller hands the processor to
/// the scheduler.
pub fn sys_exit(kernel: &mut Kernel, exit_code: i32)
    requires
        old(kernel).wf(),
    ensures
        final(kernel).wf(),
        final(kernel).task@.status == TaskStatus::Exited,
        final(kernel).task@.exit_code == exit_code,
        final(kernel).task@.syscall_times == old(kernel).task@.syscall_times,
        final(kernel).task@.started_us == old(kernel).task@.started_us,
        final(kernel).space@.token == old(kernel).space@.token,
        final(kernel).space@.heap_bottom == old(kernel).space@.heap_bottom,
        final(kernel).space@.brk == old(kernel).space@.heap_bottom,
        final(kernel).space@.areas == Seq::<Vma>::empty(),
        final(kernel).space@.pages == Map::<usize, PageTableEntry>::empty(),
        final(kernel).fds@ == Seq::<Option<FileHandle>>::empty(),
        final(kernel).mem@ == old(kernel).mem@,
        final(kernel).mem.frame_count() == old(kernel).mem.frame_count(),
        forall|q: int| final(kernel).mem.is_allocated(q) ==> old(kernel).mem.is_allocated(q),
        forall|vpn: usize|
            old(kernel).pages().contains_key(vpn) ==> !final(kernel).mem.is_allocated(
                (#[trigger] old(kernel).pages()[vpn]).frame as int,
            ),
        final(kernel).fs == old(kernel).fs,
        final(kernel).console == old(kernel).console,
        final(kernel).clock_us == old(kernel).clock_us,
{
    kernel.space.teardown(&mut kernel.mem);
    kernel.fds.clear();
    kernel.task.set_status(TaskStatus::Exited, exit_code);
}

/// Gives the processor up: the current task waits for its next turn.
/// Returns 0.
pub fn sys_yield(kernel: &mut Kernel) -> (ret: isize)
    requires
        old(kernel).wf(),
    ensures
        final(kernel).wf(),
        ret == 0,
        final(kernel).task@.status == TaskStatus::Ready,
        final(kernel).task@.exit_code == old(kernel).task@.exit_code,
        final(kernel).task@.syscall_times == old(kernel).task@.syscall_times,
        final(kernel).task@.started_us == old(kernel).task@.started_us,
        final(kernel).mem == old(kernel).mem,
        final(kernel).space == old(kernel).space,
        final(kernel).fds == old(kernel).fds,
        final(kernel).fs == old(kernel).fs,
        final(kernel).console == old(kernel).console,
        final(kernel).clock_us == old(kernel).clock_us,
{
    let code = kernel.task.exit_code();
    kernel.task.set_status(TaskStatus::Ready, code);
    0
}

/// Stores the time of the clock, as seconds and microseconds, at user
/// address `ts`; `tz` is ignored. Returns 0, or -1 where the task may not
/// write all of the record's bytes; then nothing has changed.
pub fn sys_get_time(kernel: &mut Kernel, ts: UserAddr, tz: usize) -> (ret: isize)
    requires
        old(kernel).wf(),
    ensures
        final(kernel).wf(),
        ret == if span_accessible(old(kernel).pages(), ts.value(), TIME_VAL_SIZE as int, Access::Write) {
            0int
        } else {
            -1
        },
        ret == -1 ==> *final(kernel) == *old(kernel),
        ret == 0 ==> record_stored(
            old(kernel),
            final(kernel),
            ts.value(),
            time_val_bytes(
                TimeVal::of_micros(old(kernel).clock_us as int).sec as nat,
                TimeVal::of_micros(old(kernel).clock_us as int).usec as nat,
            ),
        ),
{
    let tv = TimeVal::from_micros(kernel.clock_us);
    let bytes = encode_time_val(tv.sec, tv.usec);
    match kernel.copy_to_user(ts, bytes.as_slice()) {
        Ok(()) => 0,
        Err(_) => -1,
    }
}

/// The snapshot of the current task: its status, its syscall counters,
/// and the milliseconds since it was started.
pub open spec fn task_snapshot_bytes(kernel: &Kernel) -> Seq<u8> {
    task_info_bytes(
        kernel.task@.status,
        kernel.task@.syscall_times,
        ((kernel.clock_us - kernel.task@.started_us) / 1000) as nat,
    )
}

/// Stores a snapshot of the current task at user address `ti`. Returns 0,
/// or -1 where the task may not write all of the record's bytes; then
/// nothing has changed.
pub fn sys_task_info(kernel: &mut Kernel, ti: UserAddr) -> (ret: isize)
    requires
        old(kernel).wf(),
    ensures
        final(kernel).wf(),
        ret == if span_accessible(old(kernel).pages(), ti.value(), TASK_INFO_SIZE as int, Access::Write) {
            0int
        } else {
            -1
        },
        ret == -1 ==> *final(kernel) == *old(kernel),
        ret == 0 ==> record_stored(old(kernel), final(kernel), ti.value(), task_snapshot_bytes(old(kernel))),
{
    let info = TaskInfo {
        status: kernel.task.status(),
        syscall_times: kernel.task.syscall_times(),
        time: (kernel.clock_us - kernel.task.started_us()) / 1000,
    };
    let bytes = encode_task_info(&info);
    match kernel.copy_to_user(ti, bytes.as_slice()) {
        Ok(()) => 0,
        Err(_) => -1,
    }
}

/// Why a mapping syscall fails, if it does: the start is not page-aligned,
/// the permission field asks for no access or sets a bit beyond the three,
/// or the mapping request itself is refused.
pub open spec fn sys_mmap_refusal(kernel: &Kernel, start: int, len: int, port: int) -> Option<Fault> {
    if !page_aligned(start) {
        Some(Fault::AlignmentViolation)
    } else if !MapPermission::port_valid(port) {
        Some(Fault::InvalidArgument)
    } else {
        mmap_refusal(kernel.space@, kernel.mem.free_frames(), start, len, MapPermission::of_port(port))
    }
}

/// Maps `[start, start + len)` with the permission that `port` stands
/// for. Returns 0, or -1 on a fault; then nothing has changed.
pub fn sys_mmap(kernel: &mut Kernel, start: usize, len: usize, port: usize) -> (ret: isize)
    requires
        old(kernel).wf(),
    ensures
        final(kernel).wf(),
        ret == if sys_mmap_refusal(old(kernel), start as int, len as int, port as int) is Some {
            -1
        } else {
            0int
        },
        ret == -1 ==> *final(kernel) == *old(kernel),
        ret == 0 ==> {
            &&& mmap_effect(
                old(kernel).space@,
                final(kernel).space@,
                &old(kernel).mem,
                &final(kernel).mem,
                start as int,
                len as int,
                MapPermission::of_port(port as int),
            )
            &&& final(kernel).fds == old(kernel).fds
            &&& final(kernel).fs == old(kernel).fs
            &&& final(kernel).console == old(kernel).console
            &&& final(kernel).task == old(kernel).task
            &&& final(kernel).clock_us == old(kernel).clock_us
        },
{
    if !UserAddr(start).is_aligned() {
        return -1;
    }
    let perm = match MapPermission::from_port(port) {
        Some(perm) => perm,
        None => {
            return -1;
        },
    };
    match kernel.space.mmap(&mut kernel.mem, start, len, perm) {
        Ok(()) => 0,
        Err(_) => -1,
    }
}

/// Unmaps `[start, start + len)`. Returns 0, or -1 where the start is not
/// page-aligned or a page of the range belongs to no area; then nothing has
/// changed.
pub fn sys_munmap(kernel: &mut Kernel, start: usize, len: usize) -> (ret: isize)
    requires
        old(kernel).wf(),
    ensures
        final(kernel).wf(),
        ret == if munmap_refusal(old(kernel).space@, start as int, len as int) is Some {
            -1
        } else {
            0int
        },
        ret == -1 ==> *final(kernel) == *old(kernel),
        ret == 0 ==> {
            &&& munmap_effect(
                old(kernel).space@,
                final(kernel).space@,
                &old(kernel).mem,
                &final(kernel).mem,
                start as int,
                len as int,
            )
            &&& final(kernel).fds == old(kernel).fds
            &&& final(kernel).fs == old(kernel).fs
            &&& final(kernel).console == old(kernel).console
            &&& final(kernel).task == old(kernel).task
            &&& final(kernel).clock_us == old(kernel).clock_us
        },
{
    match kernel.space.munmap(&mut kernel.mem, start, len) {
        Ok(()) => 0,
        Err(_) => -1,
    }
}

/// Moves the program break by `size` bytes. Returns the break as it was
/// before, or -1 where the move is refused; then nothing has changed.
pub fn sys_sbrk(kernel: &mut Kernel, size: i32) -> (ret: isize)
    requires
        old(kernel).wf(),
    ensures
        final(kernel).wf(),
        ret == if brk_refused(old(kernel).space@, old(kernel).mem.free_frames(), size as int) {
            -1
        } else {
            old(kernel).space@.brk
        },
        ret == -1 ==> *final(kernel) == *old(kernel),
        ret != -1 ==> {
            &&& brk_effect(
                old(kernel).space@,
                final(kernel).space@,
                &old(kernel).mem,
                &final(kernel).mem,
                size as int,
            )
            &&& final(kernel).fds == old(kernel).fds
            &&& final(kernel).fs == old(kernel).fs
            &&& final(kernel).console == old(kernel).console
            &&& final(kernel).task == old(kernel).task
            &&& final(kernel).clock_us == old(kernel).clock_us
        },
{
    match kernel.space.brk(&mut kernel.mem, size) {
        Some(old_break) => old_break as isize,
        None => -1,
    }
}

/// A request to map or to unmap from an address that is not page-aligned
/// fails, whatever its length and permission.
pub proof fn lemma_misaligned_start_refused(kernel: &Kernel, start: int, len: int, port: int)
    requires
        !page_aligned(start),
    ensures
        sys_mmap_refusal(kernel, start, len, port) == Some(Fault::AlignmentViolation),
        munmap_refusal(kernel.space@, start, len) == Some(Fault::AlignmentViolation),
{
}

/// The permission field decides. Of a request to map that would be granted
/// with every permission, one that asks for no access fails, and so does
/// one with a bit beyond the three; one that asks for any access of read,
/// write and execute is granted.
pub proof fn lemma_permission_decides(kernel: &Kernel, start: int, len: int, port: int)
    requires
        0 <= port,
        mmap_refusal(
            kernel.space@,
            kernel.mem.free_frames(),
            start,
            len,
            MapPermission { read: true, write: true, execute: true, user: true },
        ) is None,
    ensures
        port == 0 ==> sys_mmap_refusal(kernel, start, len, port) == Some(Fault::InvalidArgument),
        1 <= port <= 7 ==> sys_mmap_refusal(kernel, start, len, port) is None,
        port > 7 ==> sys_mmap_refusal(kernel, start, len, port) == Some(Fault::InvalidArgument),
{
}

} // verus!
