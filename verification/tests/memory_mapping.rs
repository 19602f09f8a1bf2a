use syscore::address::{page_ceil_of, UserAddr};
use syscore::fault::Fault;
use syscore::kernel::Kernel;
use syscore::memory::PhysMemory;
use syscore::page_table::{Access, AddressSpaceToken, MapPermission, PageTable};
use syscore::space::{AddressSpace, Vma};
use syscore::syscall::process::{sys_mmap, sys_munmap, sys_sbrk};

const RW: MapPermission = MapPermission { read: true, write: true, execute: false, user: true };

fn mapping_parts() -> (AddressSpace, PhysMemory) {
    let mem = PhysMemory::new(16).unwrap();
    let space = AddressSpace::new(AddressSpaceToken(7), 0x100000).unwrap();
    (space, mem)
}

fn mapping_areas(space: &AddressSpace) -> Vec<Vma> {
    (0..space.area_count()).map(|i| space.area(i)).collect()
}

#[test]
fn page_arithmetic_has_the_expected_values() {
    assert_eq!(UserAddr(0x10fff).page(), 0x10);
    assert_eq!(UserAddr(0x10fff).offset(), 0xfff);
    assert!(UserAddr(0x11000).is_aligned());
    assert!(!UserAddr(0x11001).is_aligned());
    assert_eq!(page_ceil_of(0), 0);
    assert_eq!(page_ceil_of(1), 1);
    assert_eq!(page_ceil_of(4096), 1);
    assert_eq!(page_ceil_of(4097), 2);
    assert_eq!(page_ceil_of(usize::MAX), usize::MAX / 4096 + 1);
}

#[test]
fn permission_field_decodes_to_the_entry_bits() {
    assert_eq!(MapPermission::from_port(0), None);
    assert_eq!(MapPermission::from_port(8), None);
    assert_eq!(MapPermission::from_port(0x13), None);
    assert_eq!(
        MapPermission::from_port(1),
        Some(MapPermission { read: true, write: false, execute: false, user: true })
    );
    assert_eq!(
        MapPermission::from_port(6),
        Some(MapPermission { read: false, write: true, execute: true, user: true })
    );
    for port in 1usize..=7 {
        let perm = MapPermission::from_port(port).unwrap();
        assert_eq!(perm.bits() as usize, (port | 8) << 1);
    }
    assert_eq!(MapPermission::from_port(3).unwrap().bits(), 22);
    assert_eq!(MapPermission::for_heap().bits(), 22);
    assert!(RW.permits(Access::Read));
    assert!(RW.permits(Access::Write));
    assert!(!MapPermission::from_port(4).unwrap().permits(Access::Read));
    assert!(!MapPermission { read: true, write: true, execute: true, user: false }.permits(Access::Read));
}

#[test]
fn frames_are_handed_out_once_and_come_back() {
    let mut mem = PhysMemory::new(3).unwrap();
    assert_eq!(mem.len(), 3 * 4096);
    assert_eq!(mem.available(), 3);
    let a = mem.alloc_frame().unwrap();
    let b = mem.alloc_frame().unwrap();
    let c = mem.alloc_frame().unwrap();
    assert_eq!((a, b, c), (0, 1, 2));
    assert_eq!(mem.alloc_frame(), None);
    mem.write(b * 4096 + 5, 0xaa);
    assert_eq!(mem.read(b * 4096 + 5), 0xaa);
    mem.free_frame(b);
    assert_eq!(mem.available(), 1);
    assert_eq!(mem.alloc_frame(), Some(b));
    assert_eq!(mem.read(b * 4096 + 5), 0);
    assert!(PhysMemory::new(usize::MAX / 4096).is_none());
}

#[test]
fn page_table_maps_looks_up_and_unmaps() {
    let mut table = PageTable::new(AddressSpaceToken(9));
    assert_eq!(table.token(), AddressSpaceToken(9));
    assert_eq!(table.lookup(5), None);
    table.map(5, 2, RW);
    let entry = table.lookup(5).unwrap();
    assert_eq!(entry.frame, 2);
    assert_eq!(entry.perm, RW);
    assert_eq!(table.unmap(5), Some(entry));
    assert_eq!(table.lookup(5), None);
    assert_eq!(table.unmap(5), None);
}

#[test]
fn mmap_records_one_area_and_maps_zeroed_pages() {
    let (mut space, mut mem) = mapping_parts();
    assert_eq!(space.mmap(&mut mem, 0x10000, 8192, RW), Ok(()));
    assert_eq!(mapping_areas(&space), vec![Vma { start_page: 0x10, end_page: 0x12, perm: RW }]);
    assert_eq!(mem.available(), 14);
    assert_eq!(space.table().lookup(0x10).unwrap().perm, RW);
    assert_eq!(space.table().lookup(0x11).unwrap().perm, RW);
    assert_ne!(space.table().lookup(0x10).unwrap().frame, space.table().lookup(0x11).unwrap().frame);
    assert_eq!(space.table().lookup(0x12), None);
    // a length that ends inside a page maps the whole page
    assert_eq!(space.mmap(&mut mem, 0x20000, 1, RW), Ok(()));
    assert_eq!(mapping_areas(&space)[1], Vma { start_page: 0x20, end_page: 0x21, perm: RW });
    // no bytes, no pages
    assert_eq!(space.mmap(&mut mem, 0x30000, 0, RW), Ok(()));
    assert_eq!(space.area_count(), 2);
}

#[test]
fn mmap_is_refused_for_each_reason_and_changes_nothing() {
    let (mut space, mut mem) = mapping_parts();
    assert_eq!(space.mmap(&mut mem, 0x10000, 8192, RW), Ok(()));
    let free = mem.available();

    assert_eq!(space.mmap(&mut mem, 0x10001, 4096, RW), Err(Fault::AlignmentViolation));
    let none = MapPermission { read: false, write: false, execute: false, user: true };
    assert_eq!(space.mmap(&mut mem, 0x30000, 4096, none), Err(Fault::InvalidArgument));
    let kernel_only = MapPermission { read: true, write: false, execute: false, user: false };
    assert_eq!(space.mmap(&mut mem, 0x30000, 4096, kernel_only), Err(Fault::InvalidArgument));
    assert_eq!(space.mmap(&mut mem, usize::MAX - 4095, 8192, RW), Err(Fault::AddressFault));
    assert_eq!(space.mmap(&mut mem, 0x11000, 4096, RW), Err(Fault::OverlapViolation));
    assert_eq!(space.mmap(&mut mem, 0xf000, 3 * 4096, RW), Err(Fault::OverlapViolation));
    assert_eq!(space.mmap(&mut mem, 0x40000, 15 * 4096, RW), Err(Fault::OutOfMemory));

    assert_eq!(mem.available(), free);
    assert_eq!(mapping_areas(&space), vec![Vma { start_page: 0x10, end_page: 0x12, perm: RW }]);
    assert_eq!(space.table().lookup(0x40), None);
}

#[test]
fn munmap_then_mmap_are_inverse() {
    let (mut space, mut mem) = mapping_parts();
    assert_eq!(space.mmap(&mut mem, 0x50000, 4096, RW), Ok(()));
    let before = mapping_areas(&space);
    let free = mem.available();

    assert_eq!(space.mmap(&mut mem, 0x10000, 3 * 4096, RW), Ok(()));
    assert_eq!(space.munmap(&mut mem, 0x10000, 3 * 4096), Ok(()));
    assert_eq!(mapping_areas(&space), before);
    assert_eq!(mem.available(), free);
    for vpn in 0x10..0x13 {
        assert_eq!(space.table().lookup(vpn), None);
    }
    assert_eq!(space.munmap(&mut mem, 0x10000, 3 * 4096), Err(Fault::RangeNotMapped));
}

#[test]
fn munmap_splits_truncates_and_removes_areas() {
    let (mut space, mut mem) = mapping_parts();
    assert_eq!(space.mmap(&mut mem, 0x10000, 4 * 4096, RW), Ok(()));
    // the middle: two parts remain
    assert_eq!(space.munmap(&mut mem, 0x11000, 4096), Ok(()));
    assert_eq!(
        mapping_areas(&space),
        vec![
            Vma { start_page: 0x10, end_page: 0x11, perm: RW },
            Vma { start_page: 0x12, end_page: 0x14, perm: RW },
        ]
    );
    // the tail of the second
    assert_eq!(space.munmap(&mut mem, 0x13000, 4096), Ok(()));
    assert_eq!(
        mapping_areas(&space),
        vec![
            Vma { start_page: 0x10, end_page: 0x11, perm: RW },
            Vma { start_page: 0x12, end_page: 0x13, perm: RW },
        ]
    );
    // a range with a hole in it is refused in full
    assert_eq!(space.munmap(&mut mem, 0x10000, 3 * 4096), Err(Fault::RangeNotMapped));
    assert_eq!(space.area_count(), 2);
    assert!(space.table().lookup(0x10).is_some());
    // what is left, one by one
    assert_eq!(space.munmap(&mut mem, 0x10000, 4096), Ok(()));
    assert_eq!(space.munmap(&mut mem, 0x12000, 4096), Ok(()));
    assert_eq!(space.area_count(), 0);
    assert_eq!(mem.available(), 16);
}

#[test]
fn munmap_spans_two_areas() {
    let (mut space, mut mem) = mapping_parts();
    assert_eq!(space.mmap(&mut mem, 0x10000, 2 * 4096, RW), Ok(()));
    let rx = MapPermission::from_port(5).unwrap();
    assert_eq!(space.mmap(&mut mem, 0x12000, 2 * 4096, rx), Ok(()));
    assert_eq!(space.munmap(&mut mem, 0x11000, 2 * 4096), Ok(()));
    assert_eq!(
        mapping_areas(&space),
        vec![
            Vma { start_page: 0x10, end_page: 0x11, perm: RW },
            Vma { start_page: 0x13, end_page: 0x14, perm: rx },
        ]
    );
    assert_eq!(space.table().lookup(0x13).unwrap().perm, rx);
}

#[test]
fn munmap_is_refused_for_misaligned_and_unmapped_ranges() {
    let (mut space, mut mem) = mapping_parts();
    assert_eq!(space.mmap(&mut mem, 0x10000, 4096, RW), Ok(()));
    assert_eq!(space.munmap(&mut mem, 0x10800, 4096), Err(Fault::AlignmentViolation));
    assert_eq!(space.munmap(&mut mem, 0x20000, 4096), Err(Fault::RangeNotMapped));
    assert_eq!(space.munmap(&mut mem, usize::MAX - 4095, 8192), Err(Fault::RangeNotMapped));
    assert_eq!(space.munmap(&mut mem, 0x20000, 0), Ok(()));
    assert_eq!(space.area_count(), 1);
}

#[test]
fn second_overlapping_mmap_fails_and_first_keeps_its_bytes() {
    let mut kernel = Kernel::new(16, 0x100000).unwrap();
    assert_eq!(sys_mmap(&mut kernel, 0x10000, 8192, 0b011), 0);
    assert!(kernel.copy_to_user(UserAddr(0x10ffe), b"keep").is_ok());
    assert_eq!(sys_mmap(&mut kernel, 0x11000, 8192, 0b001), -1);
    assert_eq!(sys_mmap(&mut kernel, 0xf000, 8192, 0b111), -1);
    assert_eq!(kernel.copy_from_user(UserAddr(0x10ffe), 4).unwrap(), b"keep".to_vec());
    assert_eq!(kernel.space.area_count(), 1);
    assert_eq!(kernel.space.area(0).perm, MapPermission::from_port(3).unwrap());
    assert_eq!(sys_mmap(&mut kernel, 0x12000, 4096, 0b001), 0);
}

#[test]
fn misaligned_start_always_fails() {
    let mut kernel = Kernel::new(16, 0x100000).unwrap();
    assert_eq!(sys_mmap(&mut kernel, 0x10000, 8192, 0b011), 0);
    for len in [0usize, 1, 4096, 8192, usize::MAX] {
        for start in [0x10001usize, 0x10fff, 0x20800, 7] {
            assert_eq!(sys_mmap(&mut kernel, start, len, 0b011), -1);
            assert_eq!(sys_munmap(&mut kernel, start, len), -1);
        }
    }
    assert_eq!(kernel.space.area_count(), 1);
}

#[test]
fn permission_bits_decide_whether_mmap_succeeds() {
    let mut kernel = Kernel::new(16, 0x100000).unwrap();
    assert_eq!(sys_mmap(&mut kernel, 0x10000, 4096, 0), -1);
    assert_eq!(sys_mmap(&mut kernel, 0x10000, 4096, 8), -1);
    assert_eq!(sys_mmap(&mut kernel, 0x10000, 4096, 0b1011), -1);
    for port in 1usize..=7 {
        let start = 0x10000 + port * 0x1000;
        assert_eq!(sys_mmap(&mut kernel, start, 4096, port), 0);
        let entry = kernel.space.table().lookup(start / 4096).unwrap();
        assert_eq!(entry.perm, MapPermission::from_port(port).unwrap());
        assert!(entry.perm.user);
    }
}

#[test]
fn sbrk_returns_the_old_break_and_moves_the_heap() {
    let mut kernel = Kernel::new(8, 0x100000).unwrap();
    assert_eq!(sys_sbrk(&mut kernel, 0), 0x100000);
    assert_eq!(kernel.space.table().lookup(0x100), None);
    assert_eq!(sys_sbrk(&mut kernel, 10), 0x100000);
    assert_eq!(kernel.space.program_break(), 0x10000a);
    assert_eq!(kernel.space.table().lookup(0x100).unwrap().perm, MapPermission::for_heap());
    assert_eq!(kernel.mem.available(), 7);
    assert!(kernel.copy_to_user(UserAddr(0x100000), b"heap").is_ok());
    assert_eq!(sys_sbrk(&mut kernel, 4096), 0x10000a);
    assert_eq!(kernel.mem.available(), 6);
    assert_eq!(kernel.copy_from_user(UserAddr(0x100000), 4).unwrap(), b"heap".to_vec());
    // shrinking inside the page keeps it, below it gives it back
    assert_eq!(sys_sbrk(&mut kernel, -5), 0x10100a);
    assert_eq!(kernel.mem.available(), 6);
    assert_eq!(sys_sbrk(&mut kernel, -4096), 0x101005);
    assert_eq!(kernel.mem.available(), 7);
    assert_eq!(kernel.space.table().lookup(0x101), None);
    assert_eq!(sys_sbrk(&mut kernel, -5), 0x100005);
    assert_eq!(sys_sbrk(&mut kernel, 0), 0x100000);
    assert_eq!(kernel.mem.available(), 8);
}

#[test]
fn sbrk_is_refused_at_the_bounds() {
    let mut kernel = Kernel::new(4, 0x100000).unwrap();
    // below the bottom of the heap
    assert_eq!(sys_sbrk(&mut kernel, -1), -1);
    // more pages than frames
    assert_eq!(sys_sbrk(&mut kernel, 5 * 4096), -1);
    // into a mapped area
    assert_eq!(sys_mmap(&mut kernel, 0x102000, 4096, 0b011), 0);
    assert_eq!(sys_sbrk(&mut kernel, 2 * 4096), 0x100000);
    assert_eq!(sys_sbrk(&mut kernel, 1), -1);
    assert_eq!(kernel.space.program_break(), 0x102000);
    // an area may not be mapped into the heap either
    assert_eq!(sys_mmap(&mut kernel, 0x101000, 4096, 0b011), -1);
    // heap pages are no area: they cannot be unmapped on request
    assert_eq!(sys_munmap(&mut kernel, 0x100000, 4096), -1);
    assert_eq!(sys_sbrk(&mut kernel, i32::MIN), -1);
}

#[test]
fn address_space_needs_an_aligned_heap_bottom() {
    assert!(AddressSpace::new(AddressSpaceToken(1), 0x1001).is_none());
    assert!(AddressSpace::new(AddressSpaceToken(1), usize::MAX - 4095).is_none());
    assert!(Kernel::new(4, 0x1234).is_none());
    let space = AddressSpace::new(AddressSpaceToken(3), 0).unwrap();
    assert_eq!(space.token(), AddressSpaceToken(3));
    assert_eq!(space.program_break(), 0);
    assert!(!space.overlaps(0, 10));
    assert!(space.covered(5, 5));
    assert!(!space.covered(5, 6));
    assert!(!space.in_some_area(5));
}
