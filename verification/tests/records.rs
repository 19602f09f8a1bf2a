use syscore::address::UserAddr;
use syscore::config::{MAX_SYSCALL_NUM, MICROS_PER_SEC, PAGE_SIZE};
use syscore::fs::{Stat, StatMode};
use syscore::kernel::Kernel;
use syscore::record::{encode_stat, encode_task_info, encode_time_val, push_le, STAT_SIZE, TASK_INFO_SIZE, TIME_VAL_SIZE};
use syscore::syscall::process::{sys_exit, sys_get_time, sys_mmap, sys_task_info, sys_yield, TimeVal};
use syscore::task::{Task, TaskInfo, TaskStatus};

#[test]
fn configuration_is_consistent() {
    assert_eq!(PAGE_SIZE, 4096);
    assert_eq!(MAX_SYSCALL_NUM, 500);
    assert_eq!(MICROS_PER_SEC, 1_000_000);
    assert_eq!(TASK_INFO_SIZE, 16 + 4 * MAX_SYSCALL_NUM);
}

#[test]
fn numbers_are_stored_lowest_byte_first() {
    let mut out = vec![0xffu8];
    push_le(&mut out, 0x0102_0304_0506_0708, 8);
    assert_eq!(out, vec![0xff, 8, 7, 6, 5, 4, 3, 2, 1]);
    let mut short = Vec::new();
    push_le(&mut short, 0x1_0000_0201, 4);
    assert_eq!(short, vec![1, 2, 0, 0]);
    push_le(&mut short, 7, 0);
    assert_eq!(short.len(), 4);
}

#[test]
fn stat_record_has_its_layout() {
    let st = Stat { dev: 3, ino: 0x0a0b, mode: StatMode::Dir, nlink: 0x01020304 };
    let bytes = encode_stat(&st);
    assert_eq!(bytes.len(), STAT_SIZE);
    assert_eq!(&bytes[0..8], &[3, 0, 0, 0, 0, 0, 0, 0]);
    assert_eq!(&bytes[8..16], &[0x0b, 0x0a, 0, 0, 0, 0, 0, 0]);
    assert_eq!(&bytes[16..20], &[0, 0x40, 0, 0]);
    assert_eq!(&bytes[20..24], &[4, 3, 2, 1]);
    for word in 0..7 {
        assert_eq!(&bytes[24 + 8 * word..32 + 8 * word], &[1, 0, 0, 0, 0, 0, 0, 0]);
    }
    let file = encode_stat(&Stat { dev: 0, ino: 0, mode: StatMode::File, nlink: 1 });
    assert_eq!(&file[16..20], &[0, 0x80, 0, 0]);
    let null = encode_stat(&Stat { dev: 0, ino: 0, mode: StatMode::Null, nlink: 1 });
    assert_eq!(&null[16..20], &[0, 0, 0, 0]);
}

#[test]
fn time_value_splits_microseconds() {
    assert_eq!(TimeVal::from_micros(0), TimeVal { sec: 0, usec: 0 });
    assert_eq!(TimeVal::from_micros(999_999), TimeVal { sec: 0, usec: 999_999 });
    assert_eq!(TimeVal::from_micros(3_000_123), TimeVal { sec: 3, usec: 123 });
    let bytes = encode_time_val(3, 0x0102);
    assert_eq!(bytes.len(), TIME_VAL_SIZE);
    assert_eq!(bytes, vec![3, 0, 0, 0, 0, 0, 0, 0, 2, 1, 0, 0, 0, 0, 0, 0]);
}

#[test]
fn get_time_stores_the_clock_across_a_page_boundary() {
    let mut kernel = Kernel::new(8, 0x100000).unwrap();
    assert_eq!(sys_mmap(&mut kernel, 0x10000, 2 * 4096, 0b011), 0);
    kernel.tick(3_000_123);
    kernel.tick(2_000_000);
    assert_eq!(kernel.clock_us, 5_000_123);
    assert_eq!(sys_get_time(&mut kernel, UserAddr(0x10ffc), 0), 0);
    assert_eq!(
        kernel.copy_from_user(UserAddr(0x10ffc), 16).unwrap(),
        vec![5, 0, 0, 0, 0, 0, 0, 0, 123, 0, 0, 0, 0, 0, 0, 0]
    );
    // the time zone argument is ignored
    assert_eq!(sys_get_time(&mut kernel, UserAddr(0x10000), 12345), 0);
    // a record that does not fit is not written at all
    assert_eq!(sys_get_time(&mut kernel, UserAddr(0x11ff8), 0), -1);
    assert_eq!(kernel.copy_from_user(UserAddr(0x11ff8), 8).unwrap(), vec![0u8; 8]);
    assert_eq!(sys_get_time(&mut kernel, UserAddr(0x90000), 0), -1);
    kernel.tick(usize::MAX);
    assert_eq!(kernel.clock_us, usize::MAX);
}

#[test]
fn task_counts_syscalls_and_keeps_its_status() {
    let mut task = Task::new(40);
    assert_eq!(task.status(), TaskStatus::Running);
    assert_eq!(task.exit_code(), 0);
    assert_eq!(task.started_us(), 40);
    assert_eq!(task.syscall_count(64), 0);
    task.record_syscall(64);
    task.record_syscall(64);
    task.record_syscall(499);
    task.record_syscall(500);
    assert_eq!(task.syscall_count(64), 2);
    assert_eq!(task.syscall_count(499), 1);
    let times = task.syscall_times();
    assert_eq!(times.len(), MAX_SYSCALL_NUM);
    assert_eq!(times.iter().map(|n| *n as usize).sum::<usize>(), 3);
    task.set_status(TaskStatus::Exited, -3);
    assert_eq!(task.status(), TaskStatus::Exited);
    assert_eq!(task.exit_code(), -3);
}

#[test]
fn task_info_record_has_its_layout() {
    let mut times = vec![0u32; 3];
    times[1] = 0x0102;
    let info = TaskInfo { status: TaskStatus::Exited, syscall_times: times, time: 0x0a0b0c };
    assert_eq!(
        encode_task_info(&info),
        vec![
            3, 0, 0, 0, // status
            0, 0, 0, 0, 2, 1, 0, 0, 0, 0, 0, 0, // three counters
            0, 0, 0, 0, // padding
            0x0c, 0x0b, 0x0a, 0, 0, 0, 0, 0, // time
        ]
    );
}

#[test]
fn task_info_stores_a_snapshot_of_the_task() {
    let mut kernel = Kernel::new(8, 0x100000).unwrap();
    assert_eq!(sys_mmap(&mut kernel, 0x10000, 2 * 4096, 0b011), 0);
    kernel.task.record_syscall(222);
    kernel.task.record_syscall(410);
    kernel.task.record_syscall(410);
    kernel.tick(1_234_567);
    assert_eq!(sys_task_info(&mut kernel, UserAddr(0x10f00)), 0);
    let record = kernel.copy_from_user(UserAddr(0x10f00), TASK_INFO_SIZE).unwrap();
    let mut expected = vec![0u8; TASK_INFO_SIZE];
    expected[0] = 2; // running
    expected[4 + 4 * 222] = 1;
    expected[4 + 4 * 410] = 2;
    expected[2008] = (1234 % 256) as u8; // milliseconds since the start
    expected[2009] = (1234 / 256) as u8;
    assert_eq!(record, expected);
    assert_eq!(sys_task_info(&mut kernel, UserAddr(0x11900)), -1);
    assert_eq!(kernel.copy_from_user(UserAddr(0x11900), 0x700).unwrap(), vec![0u8; 0x700]);
}

#[test]
fn yield_and_exit_change_the_status() {
    let mut kernel = Kernel::new(4, 0x100000).unwrap();
    assert_eq!(kernel.task.status(), TaskStatus::Running);
    assert_eq!(sys_yield(&mut kernel), 0);
    assert_eq!(kernel.task.status(), TaskStatus::Ready);
    kernel.resume();
    assert_eq!(kernel.task.status(), TaskStatus::Running);
    kernel.resume();
    assert_eq!(kernel.task.status(), TaskStatus::Running);
    sys_exit(&mut kernel, 17);
    assert_eq!(kernel.task.status(), TaskStatus::Exited);
    assert_eq!(kernel.task.exit_code(), 17);
    kernel.resume();
    assert_eq!(kernel.task.status(), TaskStatus::Exited);
}

#[test]
fn exit_gives_up_memory_and_descriptors() {
    let mut kernel = Kernel::new(8, 0x100000).unwrap();
    assert_eq!(sys_mmap(&mut kernel, 0x10000, 2 * 4096, 0b011), 0);
    assert_eq!(sys_mmap(&mut kernel, 0x20000, 4096, 0b101), 0);
    assert_eq!(syscore::syscall::process::sys_sbrk(&mut kernel, 5000), 0x100000);
    assert_eq!(kernel.copy_to_user(UserAddr(0x10000), b"name\0"), Ok(()));
    assert_eq!(syscore::syscall::fs::sys_open(&mut kernel, UserAddr(0x10000), 514), 3);
    assert_eq!(kernel.mem.available(), 3);

    sys_exit(&mut kernel, -2);
    assert_eq!(kernel.task.exit_code(), -2);
    assert_eq!(kernel.mem.available(), 8);
    assert_eq!(kernel.space.area_count(), 0);
    assert_eq!(kernel.space.program_break(), 0x100000);
    assert_eq!(kernel.space.table().lookup(0x10), None);
    assert_eq!(kernel.space.table().lookup(0x100), None);
    assert_eq!(kernel.fds.len(), 0);
    assert_eq!(syscore::syscall::fs::sys_close(&mut kernel, 3), -1);
    assert!(kernel.copy_from_user(UserAddr(0x10000), 1).is_err());
    // the file itself outlives the task
    assert_eq!(kernel.fs.lookup(b"name"), Some(0));
}
