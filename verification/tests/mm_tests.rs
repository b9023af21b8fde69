//! Address arithmetic, frame allocation and page-table behaviour.

use sv39_kernel::address::{PhysAddr, PhysPageNum, SimpleRangeIterator, VPNRange, VirtAddr, VirtPageNum};
use sv39_kernel::config::{kernel_stack_position, KERNEL_STACK_SIZE, PAGE_SIZE, TRAMPOLINE};
use sv39_kernel::frame_allocator::{frame_alloc, StackFrameAllocator};
use sv39_kernel::page_table::{PTEFlags, PageTable, PageTableEntry};
use sv39_kernel::timer::{get_time_us, set_next_trigger};

#[test]
fn phys_addr_floor_ceil_aligned() {
    let pa = PhysAddr(0x8020_0000);
    assert_eq!(pa.floor().0, 0x80200);
    assert_eq!(pa.ceil().0, 0x80200);
    assert_eq!(pa.page_offset(), 0);
    assert!(pa.aligned());
}

#[test]
fn phys_addr_floor_ceil_unaligned() {
    let pa = PhysAddr(0x8020_0001);
    assert_eq!(pa.floor().0, 0x80200);
    assert_eq!(pa.ceil().0, 0x80201);
    assert_eq!(pa.ceil().0 - pa.floor().0, 1);
    assert_eq!(pa.page_offset(), 1);
    assert!(!pa.aligned());
}

#[test]
fn virt_addr_round_trip_when_aligned() {
    let va = VirtAddr(0x2000);
    assert!(va.aligned());
    let vpn = va.floor();
    assert_eq!(vpn.start_addr().0, va.0);
}

#[test]
fn virt_addr_masks_to_39_bits() {
    let va = VirtAddr::from_u64(0xFFFF_FFFF_FFFF_F000);
    assert_eq!(va.0, 0x7F_FFFF_F000);
    assert_eq!(va.floor().0, 0x7FF_FFFF);
}

#[test]
fn virt_addr_sign_extension() {
    let low = VirtAddr(0x10_0000);
    assert_eq!(low.sign_extended(), 0x10_0000);
    let high = VirtAddr(0x7F_FFFF_F000);
    assert_eq!(high.sign_extended(), 0xFFFF_FFFF_FFFF_F000);
}

#[test]
fn vpn_indexes_split() {
    let vpn = VirtPageNum(0x1_FFFF);
    let idx = vpn.indexes();
    assert_eq!(idx, [0, 255, 511]);
    assert_eq!(VirtPageNum(0x3_FFFF).indexes(), [0, 511, 511]);
    let vpn2 = VirtPageNum((3 << 18) | (5 << 9) | 7);
    assert_eq!(vpn2.indexes(), [3, 5, 7]);
}

#[test]
fn vpn_range_iteration_half_open() {
    let range = VPNRange::new(VirtPageNum(2), VirtPageNum(5));
    let mut it = range.iter();
    let mut seen: Vec<u64> = Vec::new();
    while let Some(v) = it.next() {
        seen.push(v.0);
    }
    assert_eq!(seen, vec![2, 3, 4]);
}

#[test]
fn vpn_range_empty_iteration() {
    let mut it = SimpleRangeIterator::new(VirtPageNum(7), VirtPageNum(7));
    assert!(it.next().is_none());
}

#[test]
fn frame_allocator_lifo_recycling() {
    let mut fa = StackFrameAllocator::new();
    fa.init(PhysPageNum(100), PhysPageNum(103));
    assert_eq!(fa.allocate().unwrap().0, 100);
    assert_eq!(fa.allocate().unwrap().0, 101);
    fa.dealloc(PhysPageNum(100));
    assert_eq!(fa.allocate().unwrap().0, 100);
    assert_eq!(fa.allocate().unwrap().0, 102);
    assert!(fa.allocate().is_none());
}

#[test]
fn frame_alloc_zeroes_frames() {
    let mut fa = StackFrameAllocator::new();
    fa.init(PhysPageNum(10), PhysPageNum(12));
    let tracker = frame_alloc(&mut fa).unwrap();
    assert_eq!(tracker.ppn.0, 10);
    assert_eq!(tracker.bytes.len(), 4096);
    assert!(tracker.bytes.iter().all(|b| *b == 0));
}

#[test]
fn pte_round_trip() {
    let pte = PageTableEntry::new(PhysPageNum(0xABC), PTEFlags(6));
    assert_eq!(pte.ppn().0, 0xABC);
    assert_eq!(pte.flags().0, 6);
    let big = PageTableEntry::new(PhysPageNum(0xFFF_FFFF_FFFF), PTEFlags(0x1F));
    assert_eq!(big.ppn().0, 0xFFF_FFFF_FFFF);
    assert_eq!(big.flags().0, 0x1F);
}

#[test]
fn pte_flag_queries() {
    let pte = PageTableEntry::new(PhysPageNum(1), PTEFlags(1 | 2 | 4));
    assert!(pte.is_valid());
    assert!(pte.readable());
    assert!(pte.writable());
    assert!(!pte.executable());
    assert!(!PageTableEntry::empty().is_valid());
}

#[test]
fn page_table_walk_allocates_intermediates() {
    let mut fa = StackFrameAllocator::new();
    fa.init(PhysPageNum(100), PhysPageNum(200));
    let mut pt = PageTable::new(&mut fa).unwrap();
    assert_eq!(pt.root_ppn.0, 100);
    assert_eq!(fa.current, 101);
    let ok = pt.map(&mut fa, VirtPageNum(0x1_FFFF), PhysPageNum(0xABC), PTEFlags(2 | 4));
    assert!(ok);
    // Two intermediate table frames were taken for the walk.
    assert_eq!(fa.current, 103);
    let pte = pt.translate(VirtPageNum(0x1_FFFF)).unwrap();
    assert_eq!(pte.ppn().0, 0xABC);
    assert_eq!(pte.flags().0, 1 | 2 | 4);
    assert!(pt.translate(VirtPageNum(0x1_FFFE)).is_none());
}

#[test]
fn page_table_unmap_clears_leaf() {
    let mut fa = StackFrameAllocator::new();
    fa.init(PhysPageNum(100), PhysPageNum(200));
    let mut pt = PageTable::new(&mut fa).unwrap();
    assert!(pt.map(&mut fa, VirtPageNum(0x42), PhysPageNum(0x99), PTEFlags(2)));
    assert!(pt.translate(VirtPageNum(0x42)).is_some());
    pt.unmap(VirtPageNum(0x42));
    assert!(pt.translate(VirtPageNum(0x42)).is_none());
}

#[test]
fn satp_token_layout() {
    let mut fa = StackFrameAllocator::new();
    fa.init(PhysPageNum(0x80400), PhysPageNum(0x80500));
    let pt = PageTable::new(&mut fa).unwrap();
    let token = pt.token();
    assert_eq!(token >> 60, 8);
    assert_eq!(token & ((1u64 << 44) - 1), pt.root_ppn.0);
    let handle = PageTable::from_token(token);
    assert_eq!(handle.root_ppn.0, pt.root_ppn.0);
}

#[test]
fn timer_arithmetic() {
    // One second of the 12.5 MHz counter is exactly one million
    // microseconds.
    assert_eq!(get_time_us(12_500_000), 1_000_000);
    assert_eq!(get_time_us(25_000_000), 2_000_000);
    assert_eq!(get_time_us(6_250_000), 500_000);
    assert_eq!(get_time_us(12), 0);
    assert_eq!(set_next_trigger(0), 125_000);
    assert_eq!(set_next_trigger(1_000), 126_000);
}

#[test]
fn kernel_stack_positions_descend_with_guard_pages() {
    let (b0, t0) = kernel_stack_position(0);
    assert_eq!(t0, TRAMPOLINE);
    assert_eq!(t0 - b0, KERNEL_STACK_SIZE);
    let (b1, t1) = kernel_stack_position(1);
    assert_eq!(t1, TRAMPOLINE - KERNEL_STACK_SIZE - PAGE_SIZE);
    assert_eq!(b0 - t1, PAGE_SIZE);
    assert_eq!(t1 - b1, KERNEL_STACK_SIZE);
}

#[test]
fn pte_flag_set_operations() {
    let rw = PTEFlags(2).union(PTEFlags(4));
    assert_eq!(rw.0, 6);
    assert!(rw.contains(PTEFlags(2)));
    assert!(!rw.contains(PTEFlags(8)));
    assert_eq!(PTEFlags::empty().0, 0);
}
