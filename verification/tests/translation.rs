use syscore::address::UserAddr;
use syscore::fault::Fault;
use syscore::kernel::Kernel;
use syscore::page_table::{Access, AddressSpaceToken};
use syscore::syscall::process::{sys_mmap, sys_munmap};
use syscore::translate::{read_segments, read_user_string, translate, write_segments, BufferSegment};

fn translation_kernel() -> Kernel {
    let mut kernel = Kernel::new(16, 0x100000).unwrap();
    // pages 0x10 and 0x11 end up in frames 0 and 2, page 0x30 in frame 1
    assert_eq!(sys_mmap(&mut kernel, 0x10000, 4096, 0b011), 0);
    assert_eq!(sys_mmap(&mut kernel, 0x30000, 4096, 0b011), 0);
    assert_eq!(sys_mmap(&mut kernel, 0x11000, 4096, 0b011), 0);
    kernel
}

fn translation_segments(kernel: &Kernel, ptr: usize, len: usize, access: Access) -> Result<Vec<BufferSegment>, Fault> {
    translate(kernel.space.table(), &kernel.mem, kernel.space.token(), UserAddr(ptr), len, access)
}

#[test]
fn buffer_inside_one_page_is_one_segment() {
    let kernel = translation_kernel();
    let segs = translation_segments(&kernel, 0x10010, 0x20, Access::Read).unwrap();
    assert_eq!(segs, vec![BufferSegment { base: 0x10, len: 0x20 }]);
    let whole = translation_segments(&kernel, 0x10000, 4096, Access::Read).unwrap();
    assert_eq!(whole, vec![BufferSegment { base: 0, len: 4096 }]);
}

#[test]
fn straddling_buffer_is_split_at_the_page_boundary() {
    let kernel = translation_kernel();
    let segs = translation_segments(&kernel, 0x10ff0, 0x20, Access::Write).unwrap();
    assert_eq!(
        segs,
        vec![
            BufferSegment { base: 0xff0, len: 0x10 },
            BufferSegment { base: 2 * 4096, len: 0x10 },
        ]
    );
    let long = translation_segments(&kernel, 0x10fff, 4097, Access::Write).unwrap();
    assert_eq!(
        long,
        vec![
            BufferSegment { base: 0xfff, len: 1 },
            BufferSegment { base: 2 * 4096, len: 4096 },
        ]
    );
}

#[test]
fn empty_buffer_has_no_segments_wherever_it_is() {
    let kernel = translation_kernel();
    assert_eq!(translation_segments(&kernel, 0x10000, 0, Access::Read), Ok(vec![]));
    assert_eq!(translation_segments(&kernel, 0x90000, 0, Access::Read), Ok(vec![]));
}

#[test]
fn translation_faults_on_unmapped_pages_and_foreign_tokens() {
    let kernel = translation_kernel();
    assert_eq!(translation_segments(&kernel, 0x11ff0, 0x20, Access::Read), Err(Fault::AddressFault));
    assert_eq!(translation_segments(&kernel, 0x0ffff, 2, Access::Read), Err(Fault::AddressFault));
    assert_eq!(translation_segments(&kernel, 0x50000, 1, Access::Read), Err(Fault::AddressFault));
    assert_eq!(translation_segments(&kernel, usize::MAX, 1, Access::Read), Err(Fault::AddressFault));
    assert_eq!(translation_segments(&kernel, usize::MAX - 1, 8, Access::Read), Err(Fault::AddressFault));
    let foreign = AddressSpaceToken(kernel.space.token().0 + 1);
    assert_eq!(
        translate(kernel.space.table(), &kernel.mem, foreign, UserAddr(0x10000), 1, Access::Read),
        Err(Fault::AddressFault)
    );
}

#[test]
fn translation_respects_the_permission_of_each_page() {
    let mut kernel = translation_kernel();
    assert_eq!(sys_mmap(&mut kernel, 0x12000, 4096, 0b001), 0);
    assert_eq!(sys_mmap(&mut kernel, 0x13000, 4096, 0b100), 0);
    assert!(translation_segments(&kernel, 0x11ff0, 0x20, Access::Read).is_ok());
    assert_eq!(translation_segments(&kernel, 0x11ff0, 0x20, Access::Write), Err(Fault::AddressFault));
    assert_eq!(translation_segments(&kernel, 0x13000, 1, Access::Read), Err(Fault::AddressFault));
    assert_eq!(translation_segments(&kernel, 0x13000, 1, Access::Write), Err(Fault::AddressFault));
    assert_eq!(kernel.copy_to_user(UserAddr(0x12000), b"x"), Err(Fault::AddressFault));
    assert_eq!(kernel.copy_from_user(UserAddr(0x13000), 1), Err(Fault::AddressFault));
}

#[test]
fn segments_concatenate_to_the_logical_buffer() {
    let mut kernel = translation_kernel();
    let data: Vec<u8> = (0..5000usize).map(|i| (i % 253) as u8).collect();
    assert_eq!(kernel.copy_to_user(UserAddr(0x10800), &data), Ok(()));
    let segs = translation_segments(&kernel, 0x10800, 5000, Access::Read).unwrap();
    assert_eq!(segs.len(), 2);
    assert_eq!(segs[0], BufferSegment { base: 0x800, len: 0x800 });
    assert_eq!(segs[1], BufferSegment { base: 2 * 4096, len: 5000 - 0x800 });
    assert_eq!(read_segments(&kernel.mem, &segs), data);
    assert_eq!(kernel.copy_from_user(UserAddr(0x10800), 5000).unwrap(), data);
    // the page in between, in frame 1, was not touched
    assert_eq!(kernel.copy_from_user(UserAddr(0x30000), 4096).unwrap(), vec![0u8; 4096]);
    // nor were the bytes before and behind the buffer
    assert_eq!(kernel.copy_from_user(UserAddr(0x10000), 0x800).unwrap(), vec![0u8; 0x800]);
    assert_eq!(kernel.copy_from_user(UserAddr(0x10800 + 5000), 8).unwrap(), vec![0u8; 8]);
}

#[test]
fn write_segments_stores_as_much_as_fits() {
    let mut kernel = translation_kernel();
    let segs = translation_segments(&kernel, 0x10ffe, 4, Access::Write).unwrap();
    assert_eq!(write_segments(&mut kernel.mem, &segs, b"abcdef"), 4);
    assert_eq!(kernel.copy_from_user(UserAddr(0x10ffe), 4).unwrap(), b"abcd".to_vec());
    assert_eq!(kernel.copy_from_user(UserAddr(0x11002), 2).unwrap(), vec![0u8, 0]);
    assert_eq!(write_segments(&mut kernel.mem, &segs, b"xy"), 2);
    assert_eq!(kernel.copy_from_user(UserAddr(0x10ffe), 4).unwrap(), b"xycd".to_vec());
    assert_eq!(write_segments(&mut kernel.mem, &segs, b""), 0);
    assert_eq!(write_segments(&mut kernel.mem, &vec![], b"zz"), 0);
}

#[test]
fn failed_copy_to_user_writes_nothing() {
    let mut kernel = translation_kernel();
    assert_eq!(kernel.copy_to_user(UserAddr(0x11ffc), b"12345678"), Err(Fault::AddressFault));
    assert_eq!(kernel.copy_from_user(UserAddr(0x11ffc), 4).unwrap(), vec![0u8; 4]);
}

#[test]
fn unmapped_memory_is_out_of_reach_again() {
    let mut kernel = translation_kernel();
    assert_eq!(kernel.copy_to_user(UserAddr(0x30000), b"gone"), Ok(()));
    assert_eq!(sys_munmap(&mut kernel, 0x30000, 4096), 0);
    assert_eq!(kernel.copy_from_user(UserAddr(0x30000), 4), Err(Fault::AddressFault));
    // a page mapped anew is zeroed, whatever its frame held
    assert_eq!(sys_mmap(&mut kernel, 0x50000, 4096, 0b011), 0);
    assert_eq!(kernel.copy_from_user(UserAddr(0x50000), 4).unwrap(), vec![0u8; 4]);
}

#[test]
fn user_strings_end_at_the_first_zero_byte() {
    let mut kernel = translation_kernel();
    assert_eq!(kernel.copy_to_user(UserAddr(0x10ffa), b"straddle\0tail"), Ok(()));
    let table = kernel.space.table();
    let token = kernel.space.token();
    assert_eq!(read_user_string(table, &kernel.mem, token, UserAddr(0x10ffa)), Ok(b"straddle".to_vec()));
    assert_eq!(read_user_string(table, &kernel.mem, token, UserAddr(0x11002)), Ok(vec![]));
    assert_eq!(read_user_string(table, &kernel.mem, token, UserAddr(0x11003)), Ok(b"tail".to_vec()));
    assert_eq!(read_user_string(table, &kernel.mem, token, UserAddr(0x90000)), Err(Fault::AddressFault));
    assert_eq!(
        read_user_string(table, &kernel.mem, AddressSpaceToken(99), UserAddr(0x10ffa)),
        Err(Fault::AddressFault)
    );
}

#[test]
fn user_string_without_an_end_faults() {
    let mut kernel = translation_kernel();
    let fill = vec![b'a'; 4096];
    assert_eq!(kernel.copy_to_user(UserAddr(0x30000), &fill), Ok(()));
    let table = kernel.space.table();
    let token = kernel.space.token();
    assert_eq!(read_user_string(table, &kernel.mem, token, UserAddr(0x30ff0)), Err(Fault::AddressFault));
}
