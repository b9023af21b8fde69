//! Round-robin dispatch, task construction and trap handling.

use sv39_kernel::address::{PhysAddr, PhysPageNum};
use sv39_kernel::config::{CLOCK_FREQ, TICKS_PER_SEC};
use sv39_kernel::frame_allocator::StackFrameAllocator;
use sv39_kernel::memory_set::{MemorySet, MapPermission, MAP_PERM_R, MAP_PERM_W, MAP_PERM_U};
use sv39_kernel::task::{
    suspend_current_and_run_next, TaskContext, TaskControlBlock, TaskManager,
    TaskManagerInner, TaskStatus,
};
use sv39_kernel::trap::{
    trap_handler, TrapCause, SYSCALL_EXIT, SYSCALL_GET_TIME, SYSCALL_WRITE, SYSCALL_YIELD,
};
use sv39_kernel::trap_context::TrapContext;
use sv39_kernel::address::VirtAddr;

fn sched_allocator() -> StackFrameAllocator {
    let mut fa = StackFrameAllocator::new();
    fa.init(PhysPageNum(0x90000), PhysPageNum(0x92000));
    fa
}

fn bare_task(fa: &mut StackFrameAllocator, status: TaskStatus) -> TaskControlBlock {
    TaskControlBlock {
        task_status: status,
        task_cx: TaskContext::zero_init(),
        memory_set: MemorySet::new_bare(fa),
        trap_cx_ppn: PhysPageNum(0),
        base_size: 0,
        heap_bottom: 0,
        program_brk: 0,
        trap_cx: TrapContext::app_init_context(0, 0, 0, 0, 0, 0),
    }
}

fn three_task_manager(fa: &mut StackFrameAllocator) -> TaskManager {
    let tasks = vec![
        bare_task(fa, TaskStatus::Ready),
        bare_task(fa, TaskStatus::Ready),
        bare_task(fa, TaskStatus::Ready),
    ];
    TaskManager { num_app: 3, inner: TaskManagerInner { tasks, current_task: 0 } }
}

#[test]
fn round_robin_scan_order() {
    let mut fa = sched_allocator();
    let mut tm = three_task_manager(&mut fa);
    assert_eq!(tm.find_next_task(), Some(1));
    tm.inner.tasks[1].task_status = TaskStatus::Running;
    tm.inner.current_task = 1;
    assert_eq!(tm.find_next_task(), Some(2));
    tm.inner.tasks[1].task_status = TaskStatus::Ready;
    tm.inner.tasks[2].task_status = TaskStatus::Running;
    tm.inner.current_task = 2;
    tm.inner.tasks[0].task_status = TaskStatus::Exited;
    assert_eq!(tm.find_next_task(), Some(1));
}

#[test]
fn no_ready_task_means_shutdown() {
    let mut fa = sched_allocator();
    let mut tm = three_task_manager(&mut fa);
    tm.inner.tasks[0].task_status = TaskStatus::Exited;
    tm.inner.tasks[1].task_status = TaskStatus::Exited;
    tm.inner.tasks[2].task_status = TaskStatus::Exited;
    let outcome = tm.run_next_task();
    assert!(outcome.shutdown);
    assert!(outcome.switch_task.is_none());
}

#[test]
fn run_first_task_marks_running() {
    let mut fa = sched_allocator();
    let mut tm = three_task_manager(&mut fa);
    let first = tm.run_first_task();
    assert_eq!(first, 0);
    assert_eq!(tm.inner.tasks[0].task_status, TaskStatus::Running);
}

#[test]
fn suspend_hands_processor_round_robin() {
    let mut fa = sched_allocator();
    let mut tm = three_task_manager(&mut fa);
    tm.inner.tasks[0].task_status = TaskStatus::Running;
    let outcome = suspend_current_and_run_next(&mut tm);
    assert_eq!(outcome.switch_task, Some((0, 1)));
    assert_eq!(tm.inner.tasks[0].task_status, TaskStatus::Ready);
    assert_eq!(tm.inner.tasks[1].task_status, TaskStatus::Running);
    assert_eq!(tm.inner.current_task, 1);
}

#[test]
fn timer_trap_preempts_and_rearms() {
    let mut fa = sched_allocator();
    let mut tm = three_task_manager(&mut fa);
    tm.inner.tasks[0].task_status = TaskStatus::Running;
    let mut cx = TrapContext::app_init_context(0x10000, 0, 0, 0, 0, 0);
    let now = 7_000;
    let r = trap_handler(&mut tm, &mut cx, TrapCause::SupervisorTimer, 0, now);
    assert_eq!(r.set_timer, Some(now + CLOCK_FREQ / TICKS_PER_SEC));
    assert_eq!(r.switch_task, Some((0, 1)));
    assert!(!r.shutdown);
    assert_eq!(tm.inner.tasks[0].task_status, TaskStatus::Ready);
    assert_eq!(tm.inner.tasks[1].task_status, TaskStatus::Running);
}

#[test]
fn ecall_yield_returns_zero_and_switches() {
    let mut fa = sched_allocator();
    let mut tm = three_task_manager(&mut fa);
    tm.inner.tasks[0].task_status = TaskStatus::Running;
    let mut cx = TrapContext::app_init_context(0x10000, 0, 0, 0, 0, 0);
    cx.x[17] = SYSCALL_YIELD;
    let r = trap_handler(&mut tm, &mut cx, TrapCause::UserEnvCall, 0, 0);
    assert_eq!(cx.sepc, 0x10004);
    assert_eq!(cx.x[10], 0);
    assert_eq!(r.switch_task, Some((0, 1)));
}

#[test]
fn ecall_get_time_returns_microseconds() {
    let mut fa = sched_allocator();
    let mut tm = three_task_manager(&mut fa);
    let mut cx = TrapContext::app_init_context(0x10000, 0, 0, 0, 0, 0);
    cx.x[17] = SYSCALL_GET_TIME;
    let r = trap_handler(&mut tm, &mut cx, TrapCause::UserEnvCall, 0, 25_000_000);
    assert_eq!(cx.x[10], 2_000_000);
    assert!(r.switch_task.is_none());
}

#[test]
fn ecall_write_copies_user_bytes() {
    let mut fa = sched_allocator();
    let mut tm = three_task_manager(&mut fa);
    tm.inner.tasks[0]
        .memory_set
        .insert_framed_area(
            &mut fa,
            VirtAddr(0x4000),
            VirtAddr(0x5000),
            MapPermission(MAP_PERM_R | MAP_PERM_W | MAP_PERM_U),
        );
    let mut cx = TrapContext::app_init_context(0x10000, 0, 0, 0, 0, 0);
    cx.x[17] = SYSCALL_WRITE;
    cx.x[10] = 1;
    cx.x[11] = 0x4000;
    cx.x[12] = 5;
    let r = trap_handler(&mut tm, &mut cx, TrapCause::UserEnvCall, 0, 0);
    assert_eq!(cx.x[10], 5);
    assert_eq!(r.console, Some(vec![0u8; 5]));
}

#[test]
fn ecall_write_bad_descriptor_fails() {
    let mut fa = sched_allocator();
    let mut tm = three_task_manager(&mut fa);
    let mut cx = TrapContext::app_init_context(0x10000, 0, 0, 0, 0, 0);
    cx.x[17] = SYSCALL_WRITE;
    cx.x[10] = 2;
    let r = trap_handler(&mut tm, &mut cx, TrapCause::UserEnvCall, 0, 0);
    assert_eq!(cx.x[10] as i64, -1);
    assert!(r.console.is_none());
}

#[test]
fn ecall_exit_retires_task() {
    let mut fa = sched_allocator();
    let mut tm = three_task_manager(&mut fa);
    tm.inner.tasks[0].task_status = TaskStatus::Running;
    let mut cx = TrapContext::app_init_context(0x10000, 0, 0, 0, 0, 0);
    cx.x[17] = SYSCALL_EXIT;
    cx.x[10] = 0;
    let r = trap_handler(&mut tm, &mut cx, TrapCause::UserEnvCall, 0, 0);
    assert_eq!(tm.inner.tasks[0].task_status, TaskStatus::Exited);
    assert_eq!(r.switch_task, Some((0, 1)));
}

#[test]
fn store_fault_kills_task() {
    let mut fa = sched_allocator();
    let mut tm = three_task_manager(&mut fa);
    tm.inner.tasks[0].task_status = TaskStatus::Running;
    let mut cx = TrapContext::app_init_context(0x10000, 0, 0, 0, 0, 0);
    let r = trap_handler(&mut tm, &mut cx, TrapCause::StoreFault, 0xDEAD, 0);
    assert_eq!(tm.inner.tasks[0].task_status, TaskStatus::Exited);
    assert_eq!(r.switch_task, Some((0, 1)));
    assert!(r.set_timer.is_none());
}

#[test]
fn unknown_syscall_returns_error() {
    let mut fa = sched_allocator();
    let mut tm = three_task_manager(&mut fa);
    let mut cx = TrapContext::app_init_context(0x10000, 0, 0, 0, 0, 0);
    cx.x[17] = 9999;
    let _ = trap_handler(&mut tm, &mut cx, TrapCause::UserEnvCall, 0, 0);
    assert_eq!(cx.x[10] as i64, -1);
}

#[test]
fn task_context_initial_values() {
    let z = TaskContext::zero_init();
    assert_eq!(z.ra, 0);
    assert_eq!(z.sp, 0);
    assert!(z.s.iter().all(|v| *v == 0));
    let g = TaskContext::goto_trap_return(0x8020_4000, 0xFFFF_F000);
    assert_eq!(g.ra, 0x8020_4000);
    assert_eq!(g.sp, 0xFFFF_F000);
}

#[test]
fn trap_context_initial_values() {
    let sstatus_with_spp = 1u64 << 8;
    let cx = TrapContext::app_init_context(
        0x10000,
        0x14000,
        0x8000_0000_0008_0400,
        0xFFFF_E000,
        0x8020_6000,
        sstatus_with_spp,
    );
    assert_eq!(cx.sepc, 0x10000);
    assert_eq!(cx.x[2], 0x14000);
    // SPP is forced to user mode.
    assert_eq!(cx.sstatus & (1 << 8), 0);
    assert_eq!(cx.kernel_satp, 0x8000_0000_0008_0400);
    assert_eq!(cx.kernel_sp, 0xFFFF_E000);
    assert_eq!(cx.trap_handler, 0x8020_6000);
}

#[test]
fn task_from_elf_is_ready_to_dispatch() {
    // A one-segment image, as the loader tests build it.
    let mut bytes = vec![0u8; 124];
    bytes[0] = 0x7f;
    bytes[1] = 0x45;
    bytes[2] = 0x4c;
    bytes[3] = 0x46;
    bytes[4] = 2;
    bytes[24] = 0x00;
    bytes[25] = 0x00;
    bytes[26] = 0x01;
    bytes[32] = 64;
    bytes[54] = 56;
    bytes[56] = 1;
    bytes[64] = 1;
    bytes[68] = 4 | 1;
    bytes[72] = 120;
    bytes[82] = 0x01;
    bytes[96] = 4;
    bytes[104] = 0x20;
    let mut fa = sched_allocator();
    let layout = sv39_kernel::memory_set::KernelLayout {
        stext: 0x80200000,
        etext: 0x80201000,
        srodata: 0x80201000,
        erodata: 0x80201000,
        sdata: 0x80201000,
        edata: 0x80201000,
        sbss_with_stack: 0x80201000,
        ebss: 0x80201000,
        ekernel: 0x80201000,
        strampoline: 0x80200000,
    };
    let mut kernel_space = MemorySet::new_kernel(&mut fa, &layout);
    let tcb = TaskControlBlock::new(
        &mut fa,
        &mut kernel_space,
        &bytes,
        0,
        PhysAddr(0x80200000),
        0x8020_5000,
        0x8020_6000,
        0,
    )
    .unwrap();
    assert_eq!(tcb.task_status, TaskStatus::Ready);
    assert_eq!(tcb.task_cx.ra, 0x8020_5000);
    assert_eq!(tcb.trap_cx.sepc, 0x10000);
    assert_eq!(tcb.heap_bottom, tcb.program_brk);
    // The cached trap-context frame is where the space maps it.
    let pte = tcb.memory_set.translate(sv39_kernel::address::VirtPageNum(0x7FF_FFFE)).unwrap();
    assert_eq!(tcb.trap_cx_ppn.0, pte.ppn().0);
    // The kernel space gained the task's kernel stack.
    let (ksb, _) = sv39_kernel::config::kernel_stack_position(0);
    let ks_vpn = sv39_kernel::address::VirtAddr::from_u64(ksb).floor();
    assert!(kernel_space.translate(ks_vpn).is_some());
}

#[test]
fn program_brk_grows_and_shrinks_heap() {
    let mut fa = sched_allocator();
    let mut ms = MemorySet::new_bare(&mut fa);
    ms.insert_framed_area(
        &mut fa,
        VirtAddr(0x4000),
        VirtAddr(0x5000),
        MapPermission(MAP_PERM_R | MAP_PERM_W | MAP_PERM_U),
    );
    let mut tcb = TaskControlBlock {
        task_status: TaskStatus::Ready,
        task_cx: TaskContext::zero_init(),
        memory_set: ms,
        trap_cx_ppn: PhysPageNum(0),
        base_size: 0x4000,
        heap_bottom: 0x4000,
        program_brk: 0x5000,
        trap_cx: TrapContext::app_init_context(0, 0, 0, 0, 0, 0),
    };
    // Growing maps a fresh page behind the old break.
    assert_eq!(tcb.change_program_brk(&mut fa, 0x1000), Some(0x5000));
    assert_eq!(tcb.program_brk, 0x6000);
    assert!(tcb.memory_set.translate(sv39_kernel::address::VirtPageNum(5)).is_some());
    // Shrinking unmaps it again.
    assert_eq!(tcb.change_program_brk(&mut fa, -0x2000), Some(0x6000));
    assert_eq!(tcb.program_brk, 0x4000);
    assert!(tcb.memory_set.translate(sv39_kernel::address::VirtPageNum(5)).is_none());
    assert!(tcb.memory_set.translate(sv39_kernel::address::VirtPageNum(4)).is_none());
    // The break can never fall below the heap bottom.
    assert_eq!(tcb.change_program_brk(&mut fa, -0x1000), None);
    assert_eq!(tcb.program_brk, 0x4000);
}

#[test]
fn program_brk_without_heap_area_fails() {
    let mut fa = sched_allocator();
    let mut tcb = bare_task(&mut fa, TaskStatus::Ready);
    tcb.heap_bottom = 0x4000;
    tcb.program_brk = 0x4000;
    assert_eq!(tcb.change_program_brk(&mut fa, 0x1000), None);
}
