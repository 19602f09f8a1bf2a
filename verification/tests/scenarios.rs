use syscore::address::UserAddr;
use syscore::fs::{O_CREATE, O_RDONLY, O_RDWR};
use syscore::kernel::Kernel;
use syscore::syscall::fs::{sys_close, sys_fstat, sys_open, sys_read, sys_write};
use syscore::syscall::process::{sys_mmap, sys_munmap};

fn scenario_kernel() -> Kernel {
    let mut kernel = Kernel::new(32, 0x100000).unwrap();
    assert_eq!(sys_mmap(&mut kernel, 0x10000, 4096, 0b011), 0);
    kernel
}

fn scenario_store(kernel: &mut Kernel, addr: usize, bytes: &[u8]) {
    assert!(kernel.copy_to_user(UserAddr(addr), bytes).is_ok());
}

#[test]
fn open_write_close_open_read_gives_the_bytes_back() {
    let mut kernel = scenario_kernel();
    scenario_store(&mut kernel, 0x10000, b"/tmp/a\0");
    scenario_store(&mut kernel, 0x10100, b"hello");

    assert_eq!(sys_open(&mut kernel, UserAddr(0x10000), O_CREATE | O_RDWR), 3);
    assert_eq!(sys_write(&mut kernel, 3, UserAddr(0x10100), 5), 5);
    assert_eq!(sys_close(&mut kernel, 3), 0);
    assert_eq!(sys_open(&mut kernel, UserAddr(0x10000), O_RDONLY), 3);
    assert_eq!(sys_read(&mut kernel, 3, UserAddr(0x10200), 5), 5);
    assert_eq!(kernel.copy_from_user(UserAddr(0x10200), 5).unwrap(), b"hello".to_vec());
}

#[test]
fn unmapping_two_pages_one_by_one_then_again_fails() {
    let mut kernel = Kernel::new(32, 0x100000).unwrap();
    assert_eq!(sys_mmap(&mut kernel, 0x10000, 8192, 0b011), 0);
    assert_eq!(sys_munmap(&mut kernel, 0x10000, 4096), 0);
    assert_eq!(sys_munmap(&mut kernel, 0x11000, 4096), 0);
    assert_eq!(sys_munmap(&mut kernel, 0x10000, 4096), -1);
}

#[test]
fn closed_descriptor_is_refused_by_read_write_and_fstat() {
    let mut kernel = scenario_kernel();
    scenario_store(&mut kernel, 0x10000, b"f\0");
    let fd = sys_open(&mut kernel, UserAddr(0x10000), O_CREATE | O_RDWR);
    assert_eq!(fd, 3);
    assert_eq!(sys_close(&mut kernel, 3), 0);
    assert_eq!(sys_read(&mut kernel, 3, UserAddr(0x10100), 4), -1);
    assert_eq!(sys_write(&mut kernel, 3, UserAddr(0x10100), 4), -1);
    assert_eq!(sys_fstat(&mut kernel, 3, UserAddr(0x10100)), -1);
    assert_eq!(sys_close(&mut kernel, 3), -1);
}

#[test]
fn open_hands_out_the_lowest_free_descriptor() {
    let mut kernel = scenario_kernel();
    scenario_store(&mut kernel, 0x10000, b"a\0");
    scenario_store(&mut kernel, 0x10010, b"b\0");
    scenario_store(&mut kernel, 0x10020, b"c\0");
    assert_eq!(sys_open(&mut kernel, UserAddr(0x10000), O_CREATE | O_RDWR), 3);
    assert_eq!(sys_open(&mut kernel, UserAddr(0x10010), O_CREATE | O_RDWR), 4);
    assert_eq!(sys_open(&mut kernel, UserAddr(0x10020), O_CREATE | O_RDWR), 5);
    assert_eq!(sys_close(&mut kernel, 4), 0);
    assert_eq!(sys_close(&mut kernel, 1), 0);
    assert_eq!(sys_open(&mut kernel, UserAddr(0x10000), 0), 1);
    assert_eq!(sys_open(&mut kernel, UserAddr(0x10000), 0), 4);
    assert_eq!(sys_open(&mut kernel, UserAddr(0x10000), 0), 6);
    assert_eq!(kernel.fds.len(), 7);
}

#[test]
fn write_then_read_round_trips_over_lengths_and_alignments() {
    let mut kernel = Kernel::new(64, 0x100000).unwrap();
    assert_eq!(sys_mmap(&mut kernel, 0x10000, 4096, 0b011), 0);
    assert_eq!(sys_mmap(&mut kernel, 0x20000, 5 * 4096, 0b011), 0);
    assert_eq!(sys_mmap(&mut kernel, 0x40000, 5 * 4096, 0b011), 0);
    scenario_store(&mut kernel, 0x10000, b"round\0");

    let mut lens: Vec<usize> = (0..=40).collect();
    for edge in [4096usize, 8192, 12288] {
        for delta in 0..=6 {
            lens.push(edge - delta);
            if edge + delta <= 12288 {
                lens.push(edge + delta);
            }
        }
    }
    lens.push(1000);
    lens.push(5000);
    lens.push(9999);

    for align in [0usize, 1, 7, 2048, 4095] {
        for &len in lens.iter() {
            let data: Vec<u8> = (0..len).map(|i| ((i * 31 + align + len) % 251) as u8).collect();
            let src = 0x20000 + align;
            let dst = 0x40000 + (4095 - align);
            scenario_store(&mut kernel, src, &data);

            let fd = sys_open(&mut kernel, UserAddr(0x10000), O_CREATE | O_RDWR);
            assert_eq!(fd, 3);
            assert_eq!(sys_write(&mut kernel, 3, UserAddr(src), len), len as isize);
            assert_eq!(sys_close(&mut kernel, 3), 0);
            assert_eq!(sys_open(&mut kernel, UserAddr(0x10000), 0), 3);
            assert_eq!(sys_read(&mut kernel, 3, UserAddr(dst), len), len as isize);
            assert_eq!(sys_close(&mut kernel, 3), 0);
            assert_eq!(kernel.copy_from_user(UserAddr(dst), len).unwrap(), data);
        }
    }
}
