//! What the kernel keeps about the running of a task: its status, how
//! often it made each syscall, and since when it runs.

use vstd::prelude::*;
use crate::config::MAX_SYSCALL_NUM;

verus! {

/// Where a task stands with the scheduler.
#[derive(Clone, Copy, Debug, PartialEq, Eq, Structural)]
pub enum TaskStatus {
    /// Waiting for its turn.
    Ready,
    /// On the processor.
    Running,
    /// Gone, with an exit code left behind.
    Exited,
}

/// A snapshot of a task for monitoring.
pub struct TaskInfo {
    /// Where the task stands with the scheduler.
    pub status: TaskStatus,
    /// Number of invocations of each syscall, by syscall id.
    pub syscall_times: Vec<u32>,
    /// Milliseconds since the task was started.
    pub time: usize,
}

/// The running state of a task as contracts see it.
pub struct TaskView {
    pub status: TaskStatus,
    pub exit_code: i32,
    pub syscall_times: Seq<u32>,
    pub started_us: usize,
}

/// The running state of a task.
pub struct Task {
    status: TaskStatus,
    exit_code: i32,
    syscall_times: Vec<u32>,
    started_us: usize,
}

impl View for Task {
    type V = TaskView;

    closed spec fn view(&self) -> TaskView {
        TaskView {
            status: self.status,
            exit_code: self.exit_code,
            syscall_times: self.syscall_times@,
            started_us: self.started_us,
        }
    }
}

/// The counters with one more invocation of syscall `id`. A counter that
/// is full stays full, and an id beyond the counters counts nowhere.
pub open spec fn counted(times: Seq<u32>, id: int) -> Seq<u32> {
    if 0 <= id < times.len() && times[id] < u32::MAX {
        times.update(id, (times[id] + 1) as u32)
    } else {
        times
    }
}

impl Task {
    /// There is one counter for each syscall id.
    pub open spec fn wf(&self) -> bool {
        self@.syscall_times.len() == MAX_SYSCALL_NUM
    }

    /// A task that starts running at `now_us`, with all counters at zero.
    pub fn new(now_us: usize) -> (task: Self)
        ensures
            task.wf(),
            task@.status == TaskStatus::Running,
            task@.exit_code == 0,
            task@.started_us == now_us,
            forall|i: int| 0 <= i < MAX_SYSCALL_NUM ==> task@.syscall_times[i] == 0,
    {
        let mut syscall_times: Vec<u32> = Vec::new();
        let mut i: usize = 0;
        while i < MAX_SYSCALL_NUM
            invariant
                i <= MAX_SYSCALL_NUM,
                syscall_times@.len() == i,
                forall|k: int| 0 <= k < i ==> syscall_times@[k] == 0,
            decreases MAX_SYSCALL_NUM - i,
        {
            syscall_times.push(0u32);
            i = i + 1;
        }
        Task { status: TaskStatus::Running, exit_code: 0, syscall_times, started_us: now_us }
    }

    /// Where the task stands with the scheduler.
    pub fn status(&self) -> (status: TaskStatus)
        ensures
            status == self@.status,
    {
        self.status
    }

    /// The exit code; zero as long as the task has not exited.
    pub fn exit_code(&self) -> (code: i32)
        ensures
            code == self@.exit_code,
    {
        self.exit_code
    }

    /// The time at which the task was started, in microseconds.
    pub fn started_us(&self) -> (us: usize)
        ensures
            us == self@.started_us,
    {
        self.started_us
    }

    /// Number of invocations of syscall `id` so far.
    pub fn syscall_count(&self, id: usize) -> (n: u32)
        requires
            id < self@.syscall_times.len(),
        ensures
            n == self@.syscall_times[id as int],
    {
        self.syscall_times[id]
    }

    /// A copy of all counters.
    pub fn syscall_times(&self) -> (times: Vec<u32>)
        ensures
            times@ == self@.syscall_times,
    {
        let mut times: Vec<u32> = Vec::new();
        let mut i: usize = 0;
        while i < self.syscall_times.len()
            invariant
                i <= self.syscall_times@.len(),
                times@ == self.syscall_times@.take(i as int),
            decreases self.syscall_times.len() - i,
        {
            times.push(self.syscall_times[i]);
            proof {
                assert(self.syscall_times@.take(i as int).push(self.syscall_times@[i as int])
                    =~= self.syscall_times@.take(i + 1));
            }
            i = i + 1;
        }
        proof {
            assert(self.syscall_times@.take(i as int) =~= self.syscall_times@);
        }
        times
    }

    /// Counts one invocation of syscall `id`.
    pub fn record_syscall(&mut self, id: usize)
        ensures
            final(self)@.syscall_times == counted(old(self)@.syscall_times, id as int),
            final(self)@.status == old(self)@.status,
            final(self)@.exit_code == old(self)@.exit_code,
            final(self)@.started_us == old(self)@.started_us,
    {
        if id < self.syscall_times.len() {
            let n = self.syscall_times[id];
            if n < u32::MAX {
                self.syscall_times.set(id, n + 1);
            }
        }
    }

    /// Sets the status, and the exit code with it.
    pub fn set_status(&mut self, status: TaskStatus, exit_code: i32)
        ensures
            final(self)@.status == status,
            final(self)@.exit_code == exit_code,
            final(self)@.syscall_times == old(self)@.syscall_times,
            final(self)@.started_us == old(self)@.started_us,
    {
        self.status = status;
        self.exit_code = exit_code;
    }
}

} // verus!
