//! The fixed-size records that syscalls hand to user tasks, and their
//! layout in bytes. Every number is stored with its lowest byte first.

use vstd::prelude::*;
use crate::fs::{Stat, StatMode};
use crate::task::{TaskInfo, TaskStatus};

verus! {

/// Bytes in an encoded `Stat`.
pub const STAT_SIZE: usize = 80;

/// Bytes in an encoded time value.
pub const TIME_VAL_SIZE: usize = 16;

/// Bytes in an encoded `TaskInfo` with 500 counters.
pub const TASK_INFO_SIZE: usize = 2016;

/// The lowest `n` bytes of `x`, lowest first.
pub open spec fn le_bytes(x: nat, n: nat) -> Seq<u8>
    decreases n,
{
    if n == 0 {
        Seq::empty()
    } else {
        seq![(x % 256) as u8] + le_bytes(x / 256, (n - 1) as nat)
    }
}

/// `le_bytes` yields as many bytes as asked for.
pub proof fn lemma_le_bytes_len(x: nat, n: nat)
    ensures
        le_bytes(x, n).len() == n,
    decreases n,
{
    if n > 0 {
        lemma_le_bytes_len(x / 256, (n - 1) as nat);
    }
}

/// Appends the lowest `n` bytes of `x` to `out`, lowest first.
pub fn push_le(out: &mut Vec<u8>, x: u64, n: usize)
    ensures
        final(out)@ == old(out)@ + le_bytes(x as nat, n as nat),
        final(out)@.len() == old(out)@.len() + n,
{
    let mut rest: u64 = x;
    let mut i: usize = 0;
    proof {
        assert(out@ + le_bytes(x as nat, n as nat) =~= old(out)@ + le_bytes(x as nat, n as nat));
    }
    while i < n
        invariant
            i <= n,
            out@.len() == old(out)@.len() + i,
            old(out)@ + le_bytes(x as nat, n as nat) == out@ + le_bytes(rest as nat, (n - i) as nat),
        decreases n - i,
    {
        let b: u8 = (rest % 256) as u8;
        proof {
            assert(out@.push(b) + le_bytes((rest / 256) as nat, (n - i - 1) as nat) =~= out@ + (seq![b]
                + le_bytes((rest / 256) as nat, (n - i - 1) as nat)));
        }
        out.push(b);
        rest = rest / 256;
        i = i + 1;
    }
    proof {
        assert(out@ + le_bytes(rest as nat, 0) =~= out@);
        lemma_le_bytes_len(x as nat, n as nat);
    }
}

/// The number that stands for a file kind in an encoded `Stat`.
pub open spec fn mode_bits(mode: StatMode) -> nat {
    match mode {
        StatMode::Null => 0,
        StatMode::Dir => 0o040000,
        StatMode::File => 0o100000,
    }
}

/// The reserved tail of an encoded `Stat`: seven words of eight bytes, each
/// holding the number one.
pub open spec fn stat_reserved() -> Seq<u8> {
    Seq::new(
        56,
        |i: int|
            if i % 8 == 0 {
                1u8
            } else {
                0u8
            },
    )
}

/// The encoding of a `Stat`: device (8 bytes), inode (8), kind (4), link
/// count (4), reserved (56).
pub open spec fn stat_bytes(st: Stat) -> Seq<u8> {
    le_bytes(st.dev as nat, 8) + le_bytes(st.ino as nat, 8) + le_bytes(mode_bits(st.mode), 4) + le_bytes(
        st.nlink as nat,
        4,
    ) + stat_reserved()
}

/// Encodes a `Stat`.
pub fn encode_stat(st: &Stat) -> (out: Vec<u8>)
    ensures
        out@ == stat_bytes(*st),
        out@.len() == STAT_SIZE,
{
    let mut out: Vec<u8> = Vec::new();
    push_le(&mut out, st.dev, 8);
    push_le(&mut out, st.ino, 8);
    let mode: u64 = match st.mode {
        StatMode::Null => 0,
        StatMode::Dir => 0o040000,
        StatMode::File => 0o100000,
    };
    push_le(&mut out, mode, 4);
    push_le(&mut out, st.nlink as u64, 4);
    let ghost head = out@;
    let mut i: usize = 0;
    while i < 56
        invariant
            i <= 56,
            out@.len() == head.len() + i,
            head.len() == 24,
            forall|k: int| 0 <= k < head.len() ==> out@[k] == head[k],
            forall|k: int| 0 <= k < i ==> out@[head.len() + k] == stat_reserved()[k],
        decreases 56 - i,
    {
        out.push(if i % 8 == 0 {
            1u8
        } else {
            0u8
        });
        i = i + 1;
    }
    proof {
        assert(out@ =~= head + stat_reserved());
        assert(Seq::<u8>::empty() + le_bytes(st.dev as nat, 8) =~= le_bytes(st.dev as nat, 8));
    }
    out
}

/// The encoding of a time of `sec` seconds and `usec` microseconds: each
/// in 8 bytes.
pub open spec fn time_val_bytes(sec: nat, usec: nat) -> Seq<u8> {
    le_bytes(sec, 8) + le_bytes(usec, 8)
}

/// Encodes a time of `sec` seconds and `usec` microseconds.
pub fn encode_time_val(sec: usize, usec: usize) -> (out: Vec<u8>)
    ensures
        out@ == time_val_bytes(sec as nat, usec as nat),
        out@.len() == TIME_VAL_SIZE,
{
    let mut out: Vec<u8> = Vec::new();
    push_le(&mut out, sec as u64, 8);
    push_le(&mut out, usec as u64, 8);
    proof {
        assert(Seq::<u8>::empty() + le_bytes(sec as nat, 8) =~= le_bytes(sec as nat, 8));
    }
    out
}

/// The number that stands for a task status in an encoded `TaskInfo`.
pub open spec fn status_code(status: TaskStatus) -> u8 {
    match status {
        TaskStatus::Ready => 1,
        TaskStatus::Running => 2,
        TaskStatus::Exited => 3,
    }
}

/// The counters, each in 4 bytes, one after the other.
pub open spec fn counters_bytes(times: Seq<u32>) -> Seq<u8>
    decreases times.len(),
{
    if times.len() == 0 {
        Seq::empty()
    } else {
        counters_bytes(times.drop_last()) + le_bytes(times.last() as nat, 4)
    }
}

/// The encoding of a task snapshot: the status in one byte and three bytes
/// of padding, the counters in 4 bytes each, four bytes of padding, and the
/// time in 8 bytes.
pub open spec fn task_info_bytes(status: TaskStatus, times: Seq<u32>, time: nat) -> Seq<u8> {
    seq![status_code(status), 0u8, 0u8, 0u8] + counters_bytes(times) + seq![0u8, 0u8, 0u8, 0u8] + le_bytes(
        time,
        8,
    )
}

/// Encodes a task snapshot.
pub fn encode_task_info(info: &TaskInfo) -> (out: Vec<u8>)
    ensures
        out@ == task_info_bytes(info.status, info.syscall_times@, info.time as nat),
        out@.len() == 16 + 4 * info.syscall_times@.len(),
{
    let mut out: Vec<u8> = Vec::new();
    out.push(
        match info.status {
            TaskStatus::Ready => 1u8,
            TaskStatus::Running => 2u8,
            TaskStatus::Exited => 3u8,
        },
    );
    out.push(0u8);
    out.push(0u8);
    out.push(0u8);
    let ghost head = out@;
    assert(head =~= seq![status_code(info.status), 0u8, 0u8, 0u8]);
    let mut i: usize = 0;
    proof {
        assert(info.syscall_times@.take(0) =~= Seq::<u32>::empty());
        assert(head + counters_bytes(info.syscall_times@.take(0)) =~= head);
    }
    while i < info.syscall_times.len()
        invariant
            i <= info.syscall_times@.len(),
            head.len() == 4,
            out@ == head + counters_bytes(info.syscall_times@.take(i as int)),
            out@.len() == 4 + 4 * i,
        decreases info.syscall_times.len() - i,
    {
        let ghost before = out@;
        push_le(&mut out, info.syscall_times[i] as u64, 4);
        proof {
            let next = info.syscall_times@.take(i + 1);
            assert(next.drop_last() =~= info.syscall_times@.take(i as int));
            assert(next.last() == info.syscall_times@[i as int]);
            assert(out@ =~= head + counters_bytes(next));
        }
        i = i + 1;
    }
    proof {
        assert(info.syscall_times@.take(i as int) =~= info.syscall_times@);
    }
    out.push(0u8);
    out.push(0u8);
    out.push(0u8);
    out.push(0u8);
    proof {
        assert(out@ =~= head + counters_bytes(info.syscall_times@) + seq![0u8, 0u8, 0u8, 0u8]);
    }
    push_le(&mut out, info.time as u64, 8);
    out
}

} // verus!
