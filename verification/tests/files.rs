use syscore::address::UserAddr;
use syscore::fault::Fault;
use syscore::file::{Console, FdTable, FileHandle};
use syscore::fs::{copy_bytes, same_bytes, FileSystem, OpenFlags, Stat, StatMode, O_CREATE, O_RDWR, O_TRUNC, O_WRONLY};
use syscore::kernel::Kernel;
use syscore::syscall::fs::{sys_close, sys_fstat, sys_linkat, sys_open, sys_read, sys_unlinkat, sys_write};
use syscore::syscall::process::sys_mmap;

const CREATE_RDWR: OpenFlags = OpenFlags { write_only: false, read_write: true, create: true, truncate: false };
const READ_ONLY: OpenFlags = OpenFlags { write_only: false, read_write: false, create: false, truncate: false };

fn files_kernel() -> Kernel {
    let mut kernel = Kernel::new(16, 0x100000).unwrap();
    assert_eq!(sys_mmap(&mut kernel, 0x10000, 2 * 4096, 0b011), 0);
    kernel
}

fn files_put(kernel: &mut Kernel, addr: usize, bytes: &[u8]) -> UserAddr {
    assert_eq!(kernel.copy_to_user(UserAddr(addr), bytes), Ok(()));
    UserAddr(addr)
}

#[test]
fn open_flags_decode_and_grant_capabilities() {
    assert_eq!(OpenFlags::from_bits(0), Some(READ_ONLY));
    assert_eq!(OpenFlags::from_bits(O_CREATE | O_RDWR), Some(CREATE_RDWR));
    assert_eq!(
        OpenFlags::from_bits(O_WRONLY | O_TRUNC),
        Some(OpenFlags { write_only: true, read_write: false, create: false, truncate: true })
    );
    assert_eq!(OpenFlags::from_bits(4), None);
    assert_eq!(OpenFlags::from_bits(256), None);
    assert_eq!(OpenFlags::from_bits(2048), None);
    assert_eq!(OpenFlags::from_bits(u32::MAX), None);
    assert_eq!(CREATE_RDWR.bits(), 514);
    assert_eq!(READ_ONLY.bits(), 0);
    assert_eq!(OpenFlags::from_bits(3).unwrap().bits(), 3);
    assert_eq!(OpenFlags::from_bits(1027).unwrap().bits(), 1027);
    assert_eq!(OpenFlags::from_bits(1539).unwrap().bits(), 1539);
    assert!(READ_ONLY.can_read() && !READ_ONLY.can_write());
    assert!(CREATE_RDWR.can_read() && CREATE_RDWR.can_write());
    let write_only = OpenFlags::from_bits(O_WRONLY).unwrap();
    assert!(!write_only.can_read() && write_only.can_write());
}

#[test]
fn byte_strings_compare_and_copy() {
    assert!(same_bytes(b"abc", b"abc"));
    assert!(!same_bytes(b"abc", b"abd"));
    assert!(!same_bytes(b"abc", b"ab"));
    assert!(same_bytes(b"", b""));
    assert_eq!(copy_bytes(b"copy"), b"copy".to_vec());
}

#[test]
fn namespace_creates_links_and_unlinks() {
    let mut fs = FileSystem::new();
    assert_eq!(fs.lookup(b"a"), None);
    assert_eq!(fs.open_file(b"a", READ_ONLY), None);
    assert_eq!(fs.open_file(b"a", CREATE_RDWR), Some(0));
    assert_eq!(fs.open_file(b"b", CREATE_RDWR), Some(1));
    assert_eq!(fs.file_count(), 2);
    assert_eq!(fs.lookup(b"b"), Some(1));

    fs.write_at(0, 0, b"content");
    assert_eq!(fs.contents(0), b"content");
    assert_eq!(fs.size(0), 7);

    assert_eq!(fs.link(b"a", b"c"), Ok(()));
    assert_eq!(fs.lookup(b"c"), Some(0));
    assert_eq!(fs.count_links(0), 2);
    assert_eq!(fs.stat(0), Stat { dev: 0, ino: 0, mode: StatMode::File, nlink: 2 });
    assert_eq!(fs.link(b"a", b"b"), Err(Fault::NamespaceError));
    assert_eq!(fs.link(b"a", b"a"), Err(Fault::NamespaceError));
    assert_eq!(fs.link(b"missing", b"d"), Err(Fault::NamespaceError));

    assert_eq!(fs.unlink(b"a"), Ok(()));
    assert_eq!(fs.lookup(b"a"), None);
    assert_eq!(fs.contents(0), b"content");
    assert_eq!(fs.count_links(0), 1);
    assert_eq!(fs.unlink(b"a"), Err(Fault::NamespaceError));
    // the last name gone, the file is emptied
    assert_eq!(fs.unlink(b"c"), Ok(()));
    assert_eq!(fs.count_links(0), 0);
    assert_eq!(fs.size(0), 0);
    assert_eq!(fs.lookup(b"b"), Some(1));
}

#[test]
fn file_writes_overwrite_extend_and_pad() {
    let mut fs = FileSystem::new();
    assert_eq!(fs.open_file(b"f", CREATE_RDWR), Some(0));
    fs.write_at(0, 0, b"hello world");
    fs.write_at(0, 6, b"there, reader");
    assert_eq!(fs.contents(0), b"hello there, reader");
    fs.write_at(0, 0, b"J");
    assert_eq!(fs.contents(0), b"Jello there, reader");
    fs.write_at(0, 21, b"!");
    assert_eq!(fs.contents(0), b"Jello there, reader\0\0!");
    fs.write_at(0, 100, b"");
    assert_eq!(fs.size(0), 22);
    // opening with creation or truncation empties an existing file
    assert_eq!(fs.open_file(b"f", READ_ONLY), Some(0));
    assert_eq!(fs.size(0), 22);
    assert_eq!(fs.open_file(b"f", OpenFlags::from_bits(O_TRUNC).unwrap()), Some(0));
    assert_eq!(fs.size(0), 0);
    fs.write_at(0, 0, b"again");
    assert_eq!(fs.open_file(b"f", CREATE_RDWR), Some(0));
    assert_eq!(fs.size(0), 0);
    assert_eq!(fs.file_count(), 1);
}

#[test]
fn descriptor_table_allocates_the_lowest_free_slot() {
    let mut table = FdTable::new();
    assert_eq!(table.len(), 3);
    assert_eq!(table.get(0), Ok(FileHandle::Stdin));
    assert_eq!(table.get(1), Ok(FileHandle::Stdout));
    assert_eq!(table.get(2), Ok(FileHandle::Stdout));
    assert_eq!(table.get(3), Err(Fault::InvalidDescriptor));
    assert_eq!(table.next_free(), 3);
    assert_eq!(table.alloc_fd(), 3);
    assert_eq!(table.len(), 4);
    assert_eq!(table.get(3), Err(Fault::InvalidDescriptor));
    let handle = FileHandle::Regular { inode: 0, offset: 0, readable: true, writable: false };
    table.install(3, handle);
    assert_eq!(table.get(3), Ok(handle));
    assert_eq!(table.close(1), Ok(()));
    assert_eq!(table.close(1), Err(Fault::InvalidDescriptor));
    assert_eq!(table.close(9), Err(Fault::InvalidDescriptor));
    assert_eq!(table.alloc_fd(), 1);
    assert_eq!(table.len(), 4);
    assert!(handle.can_read() && !handle.can_write());
    assert!(FileHandle::Stdin.can_read() && !FileHandle::Stdin.can_write());
    assert!(!FileHandle::Stdout.can_read() && FileHandle::Stdout.can_write());
}

#[test]
fn console_queues_input_and_collects_output() {
    let mut console = Console::new();
    assert_eq!(console.pending_len(), 0);
    console.feed(b"abc");
    console.feed(b"de");
    assert_eq!(console.pending_len(), 5);
    assert_eq!(console.peek(2), b"ab");
    console.consume(2);
    assert_eq!(console.peek(3), b"cde");
    console.print(b"out");
    console.print(b"put");
    assert_eq!(console.output(), b"output");
    assert_eq!(console.pending_len(), 3);
}

#[test]
fn write_to_stdout_and_read_from_stdin() {
    let mut kernel = files_kernel();
    let text = files_put(&mut kernel, 0x10ffd, b"hi there");
    assert_eq!(sys_write(&mut kernel, 1, text, 8), 8);
    assert_eq!(sys_write(&mut kernel, 2, text, 2), 2);
    assert_eq!(kernel.console.output(), b"hi therehi");
    assert_eq!(sys_read(&mut kernel, 1, text, 1), -1);
    assert_eq!(sys_write(&mut kernel, 0, text, 1), -1);

    assert_eq!(sys_read(&mut kernel, 0, UserAddr(0x10100), 4), 0);
    kernel.console.feed(b"typed");
    assert_eq!(sys_read(&mut kernel, 0, UserAddr(0x10100), 3), 3);
    assert_eq!(sys_read(&mut kernel, 0, UserAddr(0x10103), 30), 2);
    assert_eq!(kernel.copy_from_user(UserAddr(0x10100), 6).unwrap(), b"typed\0".to_vec());
}

#[test]
fn reads_are_short_at_the_end_of_the_file() {
    let mut kernel = files_kernel();
    let path = files_put(&mut kernel, 0x10000, b"short\0");
    let data = files_put(&mut kernel, 0x10100, b"0123456789");
    assert_eq!(sys_open(&mut kernel, path, O_CREATE | O_RDWR), 3);
    assert_eq!(sys_write(&mut kernel, 3, data, 10), 10);
    // the position is at the end now
    assert_eq!(sys_read(&mut kernel, 3, UserAddr(0x10200), 4), 0);
    assert_eq!(sys_open(&mut kernel, path, 0), 4);
    assert_eq!(sys_read(&mut kernel, 4, UserAddr(0x10200), 4), 4);
    assert_eq!(sys_read(&mut kernel, 4, UserAddr(0x10204), 100), 6);
    assert_eq!(sys_read(&mut kernel, 4, UserAddr(0x10210), 100), 0);
    assert_eq!(kernel.copy_from_user(UserAddr(0x10200), 12).unwrap(), b"0123456789\0\0".to_vec());
    assert_eq!(sys_read(&mut kernel, 4, UserAddr(0x10200), 0), 0);
    // consecutive writes follow one another
    assert_eq!(sys_write(&mut kernel, 3, data, 3), 3);
    assert_eq!(kernel.fs.contents(0), b"0123456789012");
}

#[test]
fn capabilities_are_checked_before_the_buffer() {
    let mut kernel = files_kernel();
    let path = files_put(&mut kernel, 0x10000, b"caps\0");
    assert_eq!(sys_open(&mut kernel, path, O_CREATE | O_WRONLY), 3);
    assert_eq!(sys_open(&mut kernel, path, 0), 4);
    assert_eq!(kernel.read(3, UserAddr(0x10100), 1), Err(Fault::CapabilityDenied));
    assert_eq!(kernel.write(4, UserAddr(0x10100), 1), Err(Fault::CapabilityDenied));
    assert_eq!(kernel.read(3, UserAddr(0x90000), 1), Err(Fault::CapabilityDenied));
    assert_eq!(kernel.read(9, UserAddr(0x10100), 1), Err(Fault::InvalidDescriptor));
    assert_eq!(kernel.write(9, UserAddr(0x10100), 1), Err(Fault::InvalidDescriptor));
    assert_eq!(kernel.stat(9, UserAddr(0x10100)), Err(Fault::InvalidDescriptor));
    assert_eq!(kernel.write(3, UserAddr(0x90000), 1), Err(Fault::AddressFault));
    assert_eq!(kernel.write(3, UserAddr(0x11fff), 2), Err(Fault::AddressFault));
    assert_eq!(kernel.read(4, UserAddr(0x11fff), 2), Err(Fault::AddressFault));
    assert_eq!(kernel.read(4, UserAddr(0x10100), usize::MAX), Err(Fault::AddressFault));
    assert_eq!(kernel.stat(4, UserAddr(0x11fff)), Err(Fault::AddressFault));
    assert_eq!(kernel.close(9), Err(Fault::InvalidDescriptor));
    // a position from which the bytes would reach beyond any file
    let far = FileHandle::Regular { inode: 0, offset: usize::MAX - 1, readable: true, writable: true };
    let fd = kernel.fds.alloc_fd();
    kernel.fds.install(fd, far);
    assert_eq!(kernel.write(fd, UserAddr(0x10100), 2), Err(Fault::InvalidArgument));
    assert_eq!(kernel.write(fd, UserAddr(0x10100), 0), Ok(0));
    assert_eq!(kernel.read(fd, UserAddr(0x10100), 2), Ok(0));
    assert_eq!(kernel.fs.size(0), 0);
    assert_eq!(sys_write(&mut kernel, 3, UserAddr(0x10100), 0), 0);
}

#[test]
fn open_fails_without_a_readable_path_valid_flags_or_an_existing_file() {
    let mut kernel = files_kernel();
    let path = files_put(&mut kernel, 0x10000, b"nothing\0");
    assert_eq!(sys_open(&mut kernel, path, 0), -1);
    assert_eq!(sys_open(&mut kernel, path, 4), -1);
    assert_eq!(sys_open(&mut kernel, UserAddr(0x90000), O_CREATE), -1);
    assert_eq!(kernel.open(b"nothing", READ_ONLY), Err(Fault::NamespaceError));
    assert_eq!(kernel.fs.file_count(), 0);
    assert_eq!(kernel.fds.len(), 3);
    assert_eq!(kernel.open(b"nothing", CREATE_RDWR), Ok(3));
    assert_eq!(
        kernel.fds.get(3),
        Ok(FileHandle::Regular { inode: 0, offset: 0, readable: true, writable: true })
    );
}

#[test]
fn fstat_reports_the_file_behind_the_descriptor() {
    let mut kernel = files_kernel();
    let path = files_put(&mut kernel, 0x10000, b"one\0");
    let other = files_put(&mut kernel, 0x10010, b"two\0");
    let third = files_put(&mut kernel, 0x10020, b"three\0");
    assert_eq!(sys_open(&mut kernel, path, O_CREATE | O_RDWR), 3);
    assert_eq!(sys_open(&mut kernel, other, O_CREATE | O_RDWR), 4);
    assert_eq!(sys_linkat(&mut kernel, other, third), 0);

    // the record straddles the boundary between the two pages
    let out = UserAddr(0x10fe0);
    assert_eq!(sys_fstat(&mut kernel, 4, out), 0);
    let record = kernel.copy_from_user(out, 80).unwrap();
    let mut expected = vec![0u8; 80];
    expected[8] = 1; // inode 1
    expected[17] = 0x80; // an ordinary file
    expected[20] = 2; // two names
    for word in 0..7 {
        expected[24 + 8 * word] = 1;
    }
    assert_eq!(record, expected);

    assert_eq!(sys_fstat(&mut kernel, 1, out), 0);
    let console = kernel.copy_from_user(out, 24).unwrap();
    let mut expected_console = vec![0u8; 24];
    expected_console[20] = 1;
    assert_eq!(console, expected_console);
    assert_eq!(sys_fstat(&mut kernel, 4, UserAddr(0x11fe0)), -1);
    assert_eq!(sys_fstat(&mut kernel, 5, out), -1);
}

#[test]
fn linkat_rejects_identical_pointers_and_name_collisions() {
    let mut kernel = files_kernel();
    let old = files_put(&mut kernel, 0x10000, b"old\0");
    let new = files_put(&mut kernel, 0x10010, b"new\0");
    let same_name = files_put(&mut kernel, 0x10020, b"old\0");
    assert_eq!(sys_open(&mut kernel, old, O_CREATE | O_RDWR), 3);
    assert_eq!(sys_linkat(&mut kernel, old, old), -1);
    assert_eq!(sys_linkat(&mut kernel, old, same_name), -1);
    assert_eq!(sys_linkat(&mut kernel, new, old), -1);
    assert_eq!(sys_linkat(&mut kernel, old, UserAddr(0x90000)), -1);
    assert_eq!(sys_linkat(&mut kernel, UserAddr(0x90000), new), -1);
    assert_eq!(kernel.fs.count_links(0), 1);
    assert_eq!(sys_linkat(&mut kernel, old, new), 0);
    assert_eq!(sys_linkat(&mut kernel, old, new), -1);
    assert_eq!(kernel.fs.count_links(0), 2);
    assert_eq!(kernel.link(b"old", b"new"), Err(Fault::NamespaceError));
    assert_eq!(kernel.link(b"old", b"newer"), Ok(()));
    assert_eq!(kernel.fs.lookup(b"newer"), Some(0));
}

#[test]
fn unlinkat_removes_a_name_and_fails_on_a_missing_one() {
    let mut kernel = files_kernel();
    let path = files_put(&mut kernel, 0x10000, b"file\0");
    let alias = files_put(&mut kernel, 0x10010, b"alias\0");
    let data = files_put(&mut kernel, 0x10100, b"payload");
    assert_eq!(sys_unlinkat(&mut kernel, path), -1);
    assert_eq!(sys_unlinkat(&mut kernel, UserAddr(0x90000)), -1);
    assert_eq!(sys_open(&mut kernel, path, O_CREATE | O_RDWR), 3);
    assert_eq!(sys_write(&mut kernel, 3, data, 7), 7);
    assert_eq!(sys_linkat(&mut kernel, path, alias), 0);
    assert_eq!(sys_unlinkat(&mut kernel, path), 0);
    assert_eq!(sys_open(&mut kernel, path, 0), -1);
    assert_eq!(sys_open(&mut kernel, alias, 0), 4);
    assert_eq!(sys_read(&mut kernel, 4, UserAddr(0x10200), 7), 7);
    assert_eq!(kernel.copy_from_user(UserAddr(0x10200), 7).unwrap(), b"payload".to_vec());
    assert_eq!(sys_unlinkat(&mut kernel, alias), 0);
    assert_eq!(sys_unlinkat(&mut kernel, alias), -1);
    assert_eq!(kernel.unlink(b"alias"), Err(Fault::NamespaceError));
    assert_eq!(kernel.fs.size(0), 0);
    assert_eq!(sys_close(&mut kernel, 4), 0);
}
