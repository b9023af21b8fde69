//! Address spaces: the kernel space's sections, ELF loading, and reading
//! user memory.

use sv39_kernel::address::{PhysAddr, PhysPageNum, VirtAddr, VirtPageNum};
use sv39_kernel::frame_allocator::StackFrameAllocator;
use sv39_kernel::memory_set::{
    translated_byte_buffer, KernelLayout, MapPermission, MemorySet, MAP_PERM_R, MAP_PERM_W,
    MAP_PERM_U,
};

fn fresh_allocator() -> StackFrameAllocator {
    let mut fa = StackFrameAllocator::new();
    fa.init(PhysPageNum(0x90000), PhysPageNum(0x92000));
    fa
}

fn put_le(bytes: &mut Vec<u8>, at: usize, width: usize, value: u64) {
    for i in 0..width {
        bytes[at + i] = ((value >> (8 * i)) & 0xFF) as u8;
    }
}

/// A minimal 64-bit ELF: one LOAD segment at virtual address 0x10000,
/// 8 KiB in memory, flagged read-execute, whose file bytes are `payload`.
fn make_elf(payload: &[u8]) -> Vec<u8> {
    let mut bytes = vec![0u8; 120 + payload.len()];
    bytes[0] = 0x7f;
    bytes[1] = 0x45;
    bytes[2] = 0x4c;
    bytes[3] = 0x46;
    bytes[4] = 2;
    put_le(&mut bytes, 24, 8, 0x10000);
    put_le(&mut bytes, 32, 8, 64);
    put_le(&mut bytes, 54, 2, 56);
    put_le(&mut bytes, 56, 2, 1);
    // The program header, at offset 64.
    put_le(&mut bytes, 64, 4, 1);
    put_le(&mut bytes, 68, 4, 4 | 1);
    put_le(&mut bytes, 72, 8, 120);
    put_le(&mut bytes, 80, 8, 0x10000);
    put_le(&mut bytes, 96, 8, payload.len() as u64);
    put_le(&mut bytes, 104, 8, 8192);
    for (i, b) in payload.iter().enumerate() {
        bytes[120 + i] = *b;
    }
    bytes
}

#[test]
fn elf_load_builds_user_space() {
    let payload: Vec<u8> = (0u8..16).collect();
    let elf = make_elf(&payload);
    let mut fa = fresh_allocator();
    let (ms, user_sp, entry) =
        MemorySet::from_elf(&mut fa, &elf, PhysAddr(0x80200000)).unwrap();
    assert_eq!(entry, 0x10000);
    // Both segment pages are framed, user-visible, read-execute.
    for vpn in [0x10u64, 0x11] {
        let pte = ms.translate(VirtPageNum(vpn)).unwrap();
        assert!(pte.is_valid());
        assert_eq!(pte.flags().0, 1 | 2 | 8 | 16);
    }
    // The segment's file bytes sit at the start of its first frame.
    let read = translated_byte_buffer(&ms, 0x10000, 16).unwrap();
    assert_eq!(read, payload);
    // Bytes past the file image read zero.
    let tail = translated_byte_buffer(&ms, 0x10010, 8).unwrap();
    assert_eq!(tail, vec![0u8; 8]);
    // The user stack starts one guard page above the loaded data.
    assert_eq!(user_sp, 0x10000 + 3 * 4096 + 8192);
    let stack_pte = ms.translate(VirtPageNum(0x13)).unwrap();
    assert_eq!(stack_pte.flags().0, 1 | 2 | 4 | 16);
    // The trap-context page is kernel-only read-write.
    let tc_pte = ms.translate(VirtPageNum(0x7FF_FFFE)).unwrap();
    assert_eq!(tc_pte.flags().0, 1 | 2 | 4);
    // The trampoline page is mapped read-execute, no user access.
    let tr_pte = ms.translate(VirtPageNum(0x7FF_FFFF)).unwrap();
    assert_eq!(tr_pte.flags().0, 1 | 2 | 8);
    assert_eq!(tr_pte.ppn().0, 0x80200000 / 4096);
}

#[test]
fn elf_load_rejects_bad_magic() {
    let payload = [1u8, 2, 3];
    let mut elf = make_elf(&payload);
    elf[1] = 0x00;
    let mut fa = fresh_allocator();
    assert!(MemorySet::from_elf(&mut fa, &elf, PhysAddr(0x80200000)).is_none());
}

#[test]
fn elf_load_rejects_short_image() {
    let mut fa = fresh_allocator();
    assert!(MemorySet::from_elf(&mut fa, &[0x7f, 0x45], PhysAddr(0x80200000)).is_none());
}

#[test]
fn kernel_space_sections() {
    let layout = KernelLayout {
        stext: 0x80200000,
        etext: 0x80202000,
        srodata: 0x80202000,
        erodata: 0x80203000,
        sdata: 0x80203000,
        edata: 0x80204000,
        sbss_with_stack: 0x80204000,
        ebss: 0x80206000,
        ekernel: 0x80206000,
        strampoline: 0x80200000,
    };
    let mut fa = fresh_allocator();
    let ks = MemorySet::new_kernel(&mut fa, &layout);
    // Identity mapping: each section page maps to itself.
    let text_pte = ks.translate(VirtPageNum(0x80200)).unwrap();
    assert_eq!(text_pte.ppn().0, 0x80200);
    assert_eq!(text_pte.flags().0, 1 | 2 | 8);
    assert!(!text_pte.writable());
    let ro_pte = ks.translate(VirtPageNum(0x80202)).unwrap();
    assert_eq!(ro_pte.flags().0, 1 | 2);
    assert!(!ro_pte.writable());
    let data_pte = ks.translate(VirtPageNum(0x80203)).unwrap();
    assert_eq!(data_pte.flags().0, 1 | 2 | 4);
    assert!(!data_pte.executable());
    // The physical-memory window reaches MEMORY_END.
    let mem_pte = ks.translate(VirtPageNum(0x807FF)).unwrap();
    assert_eq!(mem_pte.ppn().0, 0x807FF);
    // The trampoline page is shared at the top of the space.
    let tramp = ks.translate(VirtPageNum(0x7FF_FFFF)).unwrap();
    assert_eq!(tramp.ppn().0, 0x80200);
    assert_eq!(tramp.flags().0, 1 | 2 | 8);
    // The token selects Sv39 and the root frame.
    assert_eq!(ks.token() >> 60, 8);
}

#[test]
fn framed_area_insert_and_read() {
    let mut fa = fresh_allocator();
    let mut ms = MemorySet::new_bare(&mut fa);
    ms.insert_framed_area(
        &mut fa,
        VirtAddr(0x4000),
        VirtAddr(0x6000),
        MapPermission(MAP_PERM_R | MAP_PERM_W | MAP_PERM_U),
    );
    let pte = ms.translate(VirtPageNum(4)).unwrap();
    assert_eq!(pte.flags().0, 1 | 2 | 4 | 16);
    assert!(ms.translate(VirtPageNum(6)).is_none());
    // Fresh frames read zero; an unmapped range reads nothing.
    assert_eq!(translated_byte_buffer(&ms, 0x4000, 12).unwrap(), vec![0u8; 12]);
    assert!(translated_byte_buffer(&ms, 0x6000, 1).is_none());
}

#[test]
fn shrink_and_append_by_start_address() {
    let mut fa = fresh_allocator();
    let mut ms = MemorySet::new_bare(&mut fa);
    ms.insert_framed_area(
        &mut fa,
        VirtAddr(0x4000),
        VirtAddr(0x8000),
        MapPermission(MAP_PERM_R | MAP_PERM_W),
    );
    let live_before = fa.recycled.len();
    assert!(ms.shrink_to(&mut fa, VirtAddr(0x4000), VirtAddr(0x5000)));
    assert!(ms.translate(VirtPageNum(4)).is_some());
    assert!(ms.translate(VirtPageNum(5)).is_none());
    // The cut-off frames went back to the allocator.
    assert_eq!(fa.recycled.len(), live_before + 3);
    assert!(ms.append_to(&mut fa, VirtAddr(0x4000), VirtAddr(0x7000)));
    assert!(ms.translate(VirtPageNum(6)).is_some());
    // No area starts at an address nothing was mapped at.
    assert!(!ms.shrink_to(&mut fa, VirtAddr(0x9000), VirtAddr(0x9000)));
}
