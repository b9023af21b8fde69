//! Task management: the context-switch save area, the task control block
//! pairing an address space with its kernel stack and trap context, and
//! the round-robin task manager. The actual context switch and shutdown
//! are machine operations; the manager decides, the caller performs.

use vstd::prelude::*;
use crate::address::{PhysPageNum, VirtAddr};
use crate::config::{
    KERNEL_STACK_SIZE, PAGE_SIZE, TRAMPOLINE, TRAP_CONTEXT, USER_STACK_SIZE,
    kernel_stack_position,
};
use crate::elf::{elf_wf, elf_entry, load_segments};
use crate::frame_allocator::StackFrameAllocator;
use crate::memory_set::{
    MAP_PERM_R, MAP_PERM_W, MapPermission, MapType, MemorySet, elf_build_frames,
    frames_needed, segs_max_end, segs_ok, trampoline_vpn,
};
use crate::trap_context::TrapContext;

verus! {

/// The 14-word save area of the kernel context switch: return address,
/// stack pointer and the callee-saved registers.
pub struct TaskContext {
    /// Where the switch returns to.
    pub ra: u64,
    /// The task's kernel stack pointer.
    pub sp: u64,
    /// Callee-saved registers `s0..s11`.
    pub s: [u64; 12],
}

impl TaskContext {
    /// An all-zero context, used as the throwaway source of the very
    /// first switch.
    pub fn zero_init() -> (r: TaskContext)
        ensures
            r.ra == 0,
            r.sp == 0,
            forall|i: int| 0 <= i < 12 ==> r.s@[i] == 0,
    {
        TaskContext { ra: 0, sp: 0, s: [0; 12] }
    }

    /// The initial context of a task: the first switch into it returns
    /// into the kernel's trap-return path on the task's kernel stack.
    pub fn goto_trap_return(trap_return: u64, kstack_ptr: u64) -> (r: TaskContext)
        ensures
            r.ra == trap_return,
            r.sp == kstack_ptr,
            forall|i: int| 0 <= i < 12 ==> r.s@[i] == 0,
    {
        TaskContext { ra: trap_return, sp: kstack_ptr, s: [0; 12] }
    }
}

/// What a task is currently doing.
#[derive(Clone, Copy, PartialEq, Eq, Structural, Debug)]
pub enum TaskStatus {
    /// Waiting for the dispatcher.
    Ready,
    /// Executing on the processor.
    Running,
    /// Finished; never scheduled again.
    Exited,
}

/// Everything the kernel keeps per task: its state, the context-switch
/// save area, its address space, the frame of its trap context, and its
/// program-break bookkeeping.
pub struct TaskControlBlock {
    /// What the task is doing.
    pub task_status: TaskStatus,
    /// Saved context-switch registers.
    pub task_cx: TaskContext,
    /// The task's address space.
    pub memory_set: MemorySet,
    /// The physical page holding the task's trap context.
    pub trap_cx_ppn: PhysPageNum,
    /// Bytes from address zero to the user stack top.
    pub base_size: u64,
    /// Where the task's heap starts.
    pub heap_bottom: u64,
    /// The task's current program break.
    pub program_brk: u64,
    /// The task's trap context, the typed view of the frame at
    /// `trap_cx_ppn`.
    pub trap_cx: TrapContext,
}

impl TaskControlBlock {
    /// A consistent block: a well-formed address space and an ordered
    /// heap.
    pub open spec fn wf(&self) -> bool {
        &&& self.memory_set.wf()
        &&& self.heap_bottom <= self.program_brk
        &&& self.program_brk < 0x80_0000_0000u64
    }

    /// Build a task from an ELF image: its own address space loaded from
    /// the image, a kernel stack mapped high in the kernel space, a
    /// context that enters the trap-return path on first dispatch, and a
    /// trap context that enters user code at the image's entry point.
    /// `None` exactly when the image is not loadable.
    pub fn new(allocator: &mut StackFrameAllocator, kernel_space: &mut MemorySet,
        elf_data: &[u8], app_id: u64, strampoline: crate::address::PhysAddr,
        trap_return_va: u64, trap_handler_va: u64, sstatus: u64) -> (r: Option<
        TaskControlBlock,
    >)
        requires
            old(allocator).wf(),
            old(kernel_space).wf(),
            old(kernel_space).frames_live(*old(allocator)),
            strampoline.0 % PAGE_SIZE == 0,
            strampoline.0 < 0x100_0000_0000_0000u64,
            (app_id + 1) * (KERNEL_STACK_SIZE + PAGE_SIZE) < 0x8_0000_0000_0000u64,
            old(allocator).avail() >= elf_build_frames(elf_data@) + 8,
            // The task's kernel stack range overlaps no kernel area.
            forall|a: int| 0 <= a < old(kernel_space).areas@.len() ==> {
                let top = (TRAMPOLINE - app_id * (KERNEL_STACK_SIZE + PAGE_SIZE)) as u64
                    % 0x80_0000_0000u64;
                (#[trigger] old(kernel_space).areas@[a]).end()
                    <= (top - KERNEL_STACK_SIZE) / (PAGE_SIZE as int)
                    || (top + PAGE_SIZE - 1) / (PAGE_SIZE as int)
                        <= old(kernel_space).areas@[a].start()
            },
            (TRAMPOLINE - app_id * (KERNEL_STACK_SIZE + PAGE_SIZE)) as u64
                % 0x80_0000_0000u64 % PAGE_SIZE == 0,
            (TRAMPOLINE - app_id * (KERNEL_STACK_SIZE + PAGE_SIZE)) as u64
                % 0x80_0000_0000u64 >= KERNEL_STACK_SIZE + PAGE_SIZE,
            ((TRAMPOLINE - app_id * (KERNEL_STACK_SIZE + PAGE_SIZE)) as u64
                % 0x80_0000_0000u64) / PAGE_SIZE <= trampoline_vpn(),
        ensures
            final(allocator).wf(),
            final(kernel_space).wf(),
            final(kernel_space).frames_live(*final(allocator)),
            r is Some <==> (elf_wf(elf_data@) && segs_ok(load_segments(elf_data@))),
            r is None ==> final(kernel_space).areas@ == old(kernel_space).areas@,
            match r {
                Some(tcb) => {
                    &&& tcb.wf()
                    &&& tcb.task_status == TaskStatus::Ready
                    &&& tcb.task_cx.ra == trap_return_va
                    &&& tcb.memory_set.frames_live(*final(allocator))
                    &&& tcb.base_size == (segs_max_end(load_segments(elf_data@)) + 1)
                        * PAGE_SIZE + USER_STACK_SIZE
                    &&& tcb.heap_bottom == tcb.base_size
                    &&& tcb.program_brk == tcb.base_size
                    &&& tcb.trap_cx.sepc == elf_entry(elf_data@)
                    &&& tcb.trap_cx.x@[2] == tcb.base_size
                    &&& tcb.trap_cx.sstatus & 0x100 == 0
                    &&& tcb.trap_cx.trap_handler == trap_handler_va
                    &&& tcb.trap_cx_ppn.0 == crate::page_table::spec_pte_ppn(
                        tcb.memory_set.page_table.translate_spec(
                            (trampoline_vpn() - 1) as u64,
                        )->Some_0.bits,
                    )
                    &&& tcb.memory_set.page_table.translate_spec(
                        (trampoline_vpn() - 1) as u64,
                    ) is Some
                    // The first dispatch lands on the task's kernel stack,
                    // which the trampoline also reads from the trap context,
                    // together with the kernel space's token.
                    &&& tcb.task_cx.sp == TRAMPOLINE - app_id * (KERNEL_STACK_SIZE
                        + PAGE_SIZE)
                    &&& tcb.trap_cx.kernel_sp == TRAMPOLINE - app_id * (
                    KERNEL_STACK_SIZE + PAGE_SIZE)
                    &&& tcb.trap_cx.kernel_satp == 0x8000_0000_0000_0000u64
                        + final(kernel_space).page_table.root_ppn.0
                    // The kernel space gained the task's framed read-write
                    // kernel stack, one guard page below the previous one.
                    &&& final(kernel_space).areas@.len()
                        == old(kernel_space).areas@.len() + 1
                    &&& forall|a: int| 0 <= a < old(kernel_space).areas@.len()
                            ==> final(kernel_space).areas@[a]
                                == old(kernel_space).areas@[a]
                    &&& final(kernel_space).areas@.last().start()
                        == ((TRAMPOLINE - app_id * (KERNEL_STACK_SIZE + PAGE_SIZE))
                        as u64 % 0x80_0000_0000u64 - KERNEL_STACK_SIZE) / (
                    PAGE_SIZE as int)
                    &&& final(kernel_space).areas@.last().end() == ((TRAMPOLINE
                        - app_id * (KERNEL_STACK_SIZE + PAGE_SIZE)) as u64
                        % 0x80_0000_0000u64) / PAGE_SIZE
                    &&& final(kernel_space).areas@.last().map_type == MapType::Framed
                    &&& final(kernel_space).areas@.last().map_perm.0 == (MAP_PERM_R
                        | MAP_PERM_W)
                    &&& final(kernel_space).areas@.last().mapped_in(
                        final(kernel_space).page_table,
                    )
                    &&& final(kernel_space).page_table.root_ppn
                        == old(kernel_space).page_table.root_ppn
                },
                None => true,
            },
    {
        let parts = match MemorySet::from_elf(allocator, elf_data, strampoline) {
            Some(p) => p,
            None => {
                return None;
            },
        };
        let memory_set = parts.0;
        let user_sp = parts.1;
        let entry_point = parts.2;
        // The trap-context page was mapped by the loader; cache its frame.
        let tc_vpn = VirtAddr::from_u64(TRAP_CONTEXT).floor();
        proof {
            assert(tc_vpn.0 == trampoline_vpn() - 1);
            let n = memory_set.areas@.len() - 1;
            assert(memory_set.areas@[n].holds(tc_vpn.0));
            assert(memory_set.areas@[n].mapped_in(memory_set.page_table));
            assert(memory_set.page_table.translate_spec(tc_vpn.0)
                == Some(memory_set.areas@[n].expected_pte(0)));
        }
        let trap_cx_ppn = match memory_set.translate(tc_vpn) {
            Some(pte) => pte.ppn(),
            None => {
                proof {
                    assert(false);
                }
                PhysPageNum(0)
            },
        };
        // Map the task's kernel stack high in the kernel address space.
        let pos = kernel_stack_position(app_id);
        let kernel_stack_bottom = pos.0;
        let kernel_stack_top = pos.1;
        proof {
            assert(VirtAddr(kernel_stack_bottom).0 == kernel_stack_top - KERNEL_STACK_SIZE);
        }
        let ghost ks0 = *kernel_space;
        let kb_masked = VirtAddr::from_u64(kernel_stack_bottom);
        let kt_masked = VirtAddr::from_u64(kernel_stack_top);
        proof {
            assert(kt_masked.0 == (TRAMPOLINE - app_id * (KERNEL_STACK_SIZE + PAGE_SIZE))
                as u64 % 0x80_0000_0000u64);
            assert(kb_masked.0 == kt_masked.0 - KERNEL_STACK_SIZE) by {
                assert((TRAMPOLINE - app_id * (KERNEL_STACK_SIZE + PAGE_SIZE)) as u64
                    >= KERNEL_STACK_SIZE);
            }
        }
        proof {
            assert((2u8 | 4u8) & 0x1Eu8 == (2u8 | 4u8)) by (bit_vector);
            // Two stack pages need at most eight frames including walks.
            let sb = kb_masked.0 / PAGE_SIZE;
            let st = (kt_masked.0 + PAGE_SIZE - 1) as u64 / PAGE_SIZE;
            assert(st == kt_masked.0 / PAGE_SIZE && sb + 2 == st) by (nonlinear_arith)
                requires
                    kt_masked.0 % 4096 == 0,
                    kb_masked.0 == kt_masked.0 - 8192,
                    kt_masked.0 >= 8192,
                    sb == kb_masked.0 / 4096,
                    st == (kt_masked.0 + 4095) as u64 / 4096,
            ;
            assert((st - 1) as u64 / 512 - sb / 512 <= 1
                && (st - 1) as u64 / 262144 - sb / 262144 <= 1) by (bit_vector)
                requires st == (sb + 2) as u64;
            assert(frames_needed(sb, st, true) <= 8);
        }
        kernel_space.insert_framed_area(
            allocator,
            kb_masked,
            kt_masked,
            MapPermission(MAP_PERM_R | MAP_PERM_W),
        );
        let kernel_satp = kernel_space.token();
        let trap_cx = TrapContext::app_init_context(
            entry_point,
            user_sp,
            kernel_satp,
            kernel_stack_top,
            trap_handler_va,
            sstatus,
        );
        Some(
            TaskControlBlock {
                task_status: TaskStatus::Ready,
                task_cx: TaskContext::goto_trap_return(trap_return_va, kernel_stack_top),
                memory_set,
                trap_cx_ppn,
                base_size: user_sp,
                heap_bottom: user_sp,
                program_brk: user_sp,
                trap_cx,
            },
        )
    }

    /// Whether the task's address space is ready for a program-break
    /// move to `new_brk`: a framed heap area starting at the heap bottom's
    /// page ends exactly at the current break's page, nothing else is in
    /// the way of growth, and enough frames remain.
    pub open spec fn brk_move_ok(&self, a: StackFrameAllocator, new_brk: int) -> bool {
        forall|i: int|
            0 <= i < self.memory_set.areas@.len()
            && (#[trigger] self.memory_set.areas@[i]).start()
                == self.heap_bottom / PAGE_SIZE ==> {
                &&& self.memory_set.areas@[i].map_type == MapType::Framed
                &&& self.memory_set.areas@[i].end()
                    == (self.program_brk + PAGE_SIZE - 1) / (PAGE_SIZE as int)
                &&& (new_brk + PAGE_SIZE - 1) / (PAGE_SIZE as int) < trampoline_vpn()
                &&& a.avail() >= frames_needed(
                    self.memory_set.areas@[i].end(),
                    (((new_brk + PAGE_SIZE - 1) / (PAGE_SIZE as int))) as u64,
                    true,
                )
                &&& forall|b: int|
                        0 <= b < self.memory_set.areas@.len() && b != i
                            ==> (#[trigger] self.memory_set.areas@[b]).end()
                                <= self.memory_set.areas@[i].start()
                                || (new_brk + PAGE_SIZE - 1) / (PAGE_SIZE as int)
                                    <= self.memory_set.areas@[b].start()
            }
    }

    /// Move the task's program break by `size` bytes, shrinking or growing
    /// the heap area that starts at the heap bottom. Returns the old break
    /// on success; `None` when the new break would fall below the heap
    /// bottom or no heap area exists.
    pub fn change_program_brk(&mut self, allocator: &mut StackFrameAllocator,
        size: i32) -> (r: Option<u64>)
        requires
            old(self).wf(),
            old(allocator).wf(),
            old(self).memory_set.frames_live(*old(allocator)),
            old(self).program_brk + size < 0x80_0000_0000i64,
            old(self).brk_move_ok(*old(allocator),
                old(self).program_brk + size),
        ensures
            final(self).wf(),
            final(allocator).wf(),
            final(self).memory_set.frames_live(*final(allocator)),
            final(self).heap_bottom == old(self).heap_bottom,
            final(self).base_size == old(self).base_size,
            final(self).task_status == old(self).task_status,
            final(self).task_cx == old(self).task_cx,
            final(self).trap_cx == old(self).trap_cx,
            r is Some <==> (old(self).program_brk + size >= old(self).heap_bottom
                && exists|i: int|
                    0 <= i < old(self).memory_set.areas@.len()
                        && (#[trigger] old(self).memory_set.areas@[i]).start()
                            == old(self).heap_bottom / PAGE_SIZE),
            match r {
                Some(v) => {
                    &&& v == old(self).program_brk
                    &&& final(self).program_brk == old(self).program_brk + size
                },
                None => {
                    &&& final(self).program_brk == old(self).program_brk
                    &&& final(self).memory_set.areas@ == old(self).memory_set.areas@
                    &&& forall|w: u64|
                            final(self).memory_set.page_table.translate_spec(w)
                                == old(self).memory_set.page_table.translate_spec(w)
                    &&& final(allocator).current == old(allocator).current
                    &&& final(allocator).recycled@ == old(allocator).recycled@
                },
            },
    {
        let old_break = self.program_brk;
        let new_brk_i = self.program_brk as i64 + size as i64;
        if new_brk_i < self.heap_bottom as i64 {
            return None;
        }
        let new_brk = new_brk_i as u64;
        let heap_start = VirtAddr(self.heap_bottom);
        proof {
            assert(heap_start.0 < 0x80_0000_0000u64);
            assert(new_brk < 0x80_0000_0000u64);
            if size < 0 {
                // Shrinking: the new break's page stays inside the heap
                // area, whose end tracks the current break.
                assert((new_brk + 4095) / 4096 <= (self.program_brk + 4095) / 4096) by (
                nonlinear_arith)
                    requires new_brk <= self.program_brk;
                assert((self.heap_bottom as int) / 4096 * 4096 <= self.heap_bottom) by (
                nonlinear_arith);
                assert((self.heap_bottom / PAGE_SIZE) * PAGE_SIZE <= new_brk);
                assert(self.heap_bottom / PAGE_SIZE <= (new_brk + 4095) / 4096) by (
                nonlinear_arith)
                    requires (self.heap_bottom / PAGE_SIZE) * PAGE_SIZE <= new_brk;
            } else {
                assert((self.program_brk + 4095) / 4096 <= (new_brk + 4095) / 4096) by (
                nonlinear_arith)
                    requires self.program_brk <= new_brk;
            }
        }
        let moved = if size < 0 {
            self.memory_set.shrink_to(allocator, heap_start, VirtAddr(new_brk))
        } else {
            self.memory_set.append_to(allocator, heap_start, VirtAddr(new_brk))
        };
        if moved {
            self.program_brk = new_brk;
            Some(old_break)
        } else {
            None
        }
    }

    /// The `satp` token of the task's address space.
    pub fn get_user_token(&self) -> (r: u64)
        requires
            self.memory_set.wf(),
        ensures
            r == 0x8000_0000_0000_0000u64 + self.memory_set.page_table.root_ppn.0,
    {
        self.memory_set.token()
    }

    /// The task's trap context, for the handler to read and update.
    pub fn get_trap_cx(&mut self) -> (r: &mut TrapContext)
        ensures
            *r == old(self).trap_cx,
            final(self).trap_cx == *final(r),
            final(self).task_status == old(self).task_status,
            final(self).task_cx == old(self).task_cx,
            final(self).memory_set == old(self).memory_set,
            final(self).trap_cx_ppn == old(self).trap_cx_ppn,
            final(self).base_size == old(self).base_size,
            final(self).heap_bottom == old(self).heap_bottom,
            final(self).program_brk == old(self).program_brk,
    {
        &mut self.trap_cx
    }
}

/// Scheduling state: the fixed task list and the index of the running
/// task.
pub struct TaskManagerInner {
    /// All tasks, indexed by application id.
    pub tasks: Vec<TaskControlBlock>,
    /// Index of the task currently running.
    pub current_task: usize,
}

/// The round-robin task manager.
pub struct TaskManager {
    /// Number of applications; fixed at boot.
    pub num_app: usize,
    /// The mutable scheduling state.
    pub inner: TaskManagerInner,
}

/// What the caller must do after a scheduling step: switch between two
/// saved task contexts, or shut the machine down because every task has
/// exited.
pub struct ScheduleOutcome {
    /// Switch from the first task's context to the second's.
    pub switch_task: Option<(usize, usize)>,
    /// All applications completed: power off.
    pub shutdown: bool,
}

impl TaskManager {
    /// A consistent manager: the task list matches the application count
    /// and the running index is in range.
    pub open spec fn wf(&self) -> bool {
        &&& self.num_app == self.inner.tasks@.len()
        &&& self.num_app < 0x4000_0000
        &&& (self.num_app > 0 ==> self.inner.current_task < self.num_app)
    }

    /// The status of task `id`.
    pub open spec fn status_of(&self, id: int) -> TaskStatus {
        self.inner.tasks@[id].task_status
    }

    /// The task visited at the `k`-th step of a round-robin scan that
    /// starts just after the current task.
    pub open spec fn rr_index(&self, k: int) -> int {
        (self.inner.current_task + k) % (self.num_app as int)
    }

    /// Mark the first task running; the caller then switches into its
    /// context from a throwaway one. This path never returns to the
    /// caller on the machine; here it hands back the index to switch to.
    pub fn run_first_task(&mut self) -> (r: usize)
        requires
            old(self).wf(),
            old(self).num_app > 0,
        ensures
            final(self).wf(),
            r == 0,
            final(self).num_app == old(self).num_app,
            final(self).inner.current_task == old(self).inner.current_task,
            final(self).inner.tasks@.len() == old(self).inner.tasks@.len(),
            final(self).status_of(0) == TaskStatus::Running,
            forall|j: int| 0 < j < old(self).inner.tasks@.len()
                ==> final(self).inner.tasks@[j] == old(self).inner.tasks@[j],
    {
        let task0 = &mut self.inner.tasks[0];
        task0.task_status = TaskStatus::Running;
        0
    }

    /// Mark the running task ready, giving up the processor.
    pub fn mark_current_suspended(&mut self)
        requires
            old(self).wf(),
            old(self).num_app > 0,
        ensures
            final(self).wf(),
            final(self).num_app == old(self).num_app,
            final(self).inner.current_task == old(self).inner.current_task,
            final(self).inner.tasks@.len() == old(self).inner.tasks@.len(),
            final(self).status_of(old(self).inner.current_task as int)
                == TaskStatus::Ready,
            forall|j: int| 0 <= j < old(self).inner.tasks@.len()
                && j != old(self).inner.current_task
                ==> final(self).inner.tasks@[j] == old(self).inner.tasks@[j],
    {
        let current = self.inner.current_task;
        let task = &mut self.inner.tasks[current];
        task.task_status = TaskStatus::Ready;
    }

    /// Mark the running task exited; it is never scheduled again.
    pub fn mark_current_exited(&mut self)
        requires
            old(self).wf(),
            old(self).num_app > 0,
        ensures
            final(self).wf(),
            final(self).num_app == old(self).num_app,
            final(self).inner.current_task == old(self).inner.current_task,
            final(self).inner.tasks@.len() == old(self).inner.tasks@.len(),
            final(self).status_of(old(self).inner.current_task as int)
                == TaskStatus::Exited,
            forall|j: int| 0 <= j < old(self).inner.tasks@.len()
                && j != old(self).inner.current_task
                ==> final(self).inner.tasks@[j] == old(self).inner.tasks@[j],
    {
        let current = self.inner.current_task;
        let task = &mut self.inner.tasks[current];
        task.task_status = TaskStatus::Exited;
    }

    /// The next task to run: scanning from the task after the current
    /// one, round robin, the first that is ready. The current task is
    /// considered last.
    pub fn find_next_task(&self) -> (r: Option<usize>)
        requires
            self.wf(),
            self.num_app > 0,
        ensures
            match r {
                Some(id) => {
                    &&& id < self.num_app
                    &&& self.status_of(id as int) == TaskStatus::Ready
                    &&& exists|k: int|
                        1 <= k <= self.num_app && id == #[trigger] self.rr_index(k)
                            && forall|k2: int| 1 <= k2 < k
                                ==> self.status_of(#[trigger] self.rr_index(k2))
                                    != TaskStatus::Ready
                },
                None => forall|k: int| 1 <= k <= self.num_app
                    ==> self.status_of(#[trigger] self.rr_index(k))
                        != TaskStatus::Ready,
            },
    {
        let current = self.inner.current_task;
        let n = self.num_app;
        let mut k: usize = 1;
        while k <= n
            invariant
                self.wf(),
                n == self.num_app,
                n > 0,
                current == self.inner.current_task,
                current < n,
                1 <= k <= n + 1,
                forall|k2: int| 1 <= k2 < k
                    ==> self.status_of(#[trigger] self.rr_index(k2)) != TaskStatus::Ready,
            decreases n + 1 - k,
        {
            let id = ((current as u64 + k as u64) % (n as u64)) as usize;
            proof {
                assert(id == self.rr_index(k as int));
            }
            let status = self.inner.tasks[id].task_status;
            if status == TaskStatus::Ready {
                return Some(id);
            }
            k = k + 1;
        }
        None
    }

    /// Switch to the next ready task if there is one: mark it running,
    /// make it current, and tell the caller which saved contexts to
    /// exchange. With no ready task left, tell the caller to shut down.
    pub fn run_next_task(&mut self) -> (r: ScheduleOutcome)
        requires
            old(self).wf(),
            old(self).num_app > 0,
        ensures
            final(self).wf(),
            final(self).num_app == old(self).num_app,
            final(self).inner.tasks@.len() == old(self).inner.tasks@.len(),
            r.shutdown <==> r.switch_task is None,
            r.shutdown ==> *final(self) == *old(self) && (forall|k: int|
                1 <= k <= old(self).num_app
                    ==> old(self).status_of(#[trigger] old(self).rr_index(k))
                        != TaskStatus::Ready),
            match r.switch_task {
                Some((prev, next)) => {
                    &&& prev == old(self).inner.current_task
                    &&& next < old(self).num_app
                    &&& old(self).status_of(next as int) == TaskStatus::Ready
                    &&& final(self).status_of(next as int) == TaskStatus::Running
                    &&& final(self).inner.current_task == next
                    &&& forall|j: int| 0 <= j < old(self).inner.tasks@.len() && j != next
                            ==> final(self).inner.tasks@[j] == old(self).inner.tasks@[j]
                },
                None => true,
            },
    {
        match self.find_next_task() {
            Some(next) => {
                let current = self.inner.current_task;
                let task = &mut self.inner.tasks[next];
                task.task_status = TaskStatus::Running;
                self.inner.current_task = next;
                ScheduleOutcome { switch_task: Some((current, next)), shutdown: false }
            },
            None => ScheduleOutcome { switch_task: None, shutdown: true },
        }
    }

    /// Move the running task's program break by `size` bytes.
    pub fn change_current_program_brk(&mut self, allocator: &mut StackFrameAllocator,
        size: i32) -> (r: Option<u64>)
        requires
            old(self).wf(),
            old(self).num_app > 0,
            old(allocator).wf(),
            old(self).inner.tasks@[old(self).inner.current_task as int].wf(),
            old(self).inner.tasks@[
                old(self).inner.current_task as int].memory_set.frames_live(
                *old(allocator),
            ),
            old(self).inner.tasks@[old(self).inner.current_task as int].program_brk
                + size < 0x80_0000_0000i64,
            old(self).inner.tasks@[old(self).inner.current_task as int].brk_move_ok(
                *old(allocator),
                old(self).inner.tasks@[old(self).inner.current_task as int].program_brk
                    + size,
            ),
        ensures
            final(self).wf(),
            final(allocator).wf(),
            final(self).num_app == old(self).num_app,
            final(self).inner.current_task == old(self).inner.current_task,
            forall|j: int| 0 <= j < old(self).inner.tasks@.len()
                && j != old(self).inner.current_task
                ==> final(self).inner.tasks@[j] == old(self).inner.tasks@[j],
            r is Some <==> (old(self).inner.tasks@[
                old(self).inner.current_task as int].program_brk + size >= old(
                self,
            ).inner.tasks@[old(self).inner.current_task as int].heap_bottom
                && exists|i: int|
                    0 <= i < old(self).inner.tasks@[
                        old(self).inner.current_task as int].memory_set.areas@.len()
                        && (#[trigger] old(self).inner.tasks@[
                        old(self).inner.current_task as int].memory_set.areas@[
                        i]).start() == old(self).inner.tasks@[
                        old(self).inner.current_task as int].heap_bottom / PAGE_SIZE),
            match r {
                Some(v) => {
                    &&& v == old(self).inner.tasks@[
                        old(self).inner.current_task as int].program_brk
                    &&& final(self).inner.tasks@[
                        old(self).inner.current_task as int].program_brk == old(
                        self,
                    ).inner.tasks@[old(self).inner.current_task as int].program_brk
                        + size
                },
                None => final(self).inner.tasks@[
                    old(self).inner.current_task as int].program_brk == old(
                    self,
                ).inner.tasks@[old(self).inner.current_task as int].program_brk
                    && final(self).inner.tasks@[
                    old(self).inner.current_task as int].memory_set.areas@ == old(
                    self,
                ).inner.tasks@[old(self).inner.current_task as int].memory_set.areas@,
            },
    {
        let current = self.inner.current_task;
        let task = &mut self.inner.tasks[current];
        task.change_program_brk(allocator, size)
    }

    /// The running task's `satp` token.
    pub fn get_current_token(&self) -> (r: u64)
        requires
            self.wf(),
            self.num_app > 0,
            self.inner.tasks@[self.inner.current_task as int].memory_set.wf(),
        ensures
            r == 0x8000_0000_0000_0000u64 + self.inner.tasks@[
                self.inner.current_task as int].memory_set.page_table.root_ppn.0,
    {
        let current = self.inner.current_task;
        self.inner.tasks[current].get_user_token()
    }
}

/// Mark the running task ready, then dispatch the next one.
pub fn suspend_current_and_run_next(tm: &mut TaskManager) -> (r: ScheduleOutcome)
    requires
        old(tm).wf(),
        old(tm).num_app > 0,
    ensures
        final(tm).wf(),
        final(tm).num_app == old(tm).num_app,
        final(tm).inner.tasks@.len() == old(tm).inner.tasks@.len(),
        // The suspended caller is itself ready again, so a dispatch always
        // happens; suspension never shuts the machine down.
        !r.shutdown,
        r.switch_task is Some,
        match r.switch_task {
            Some((prev, next)) => {
                &&& prev == old(tm).inner.current_task
                &&& next < old(tm).num_app
                &&& final(tm).status_of(next as int) == TaskStatus::Running
                &&& final(tm).inner.current_task == next
                &&& next != prev
                    ==> final(tm).status_of(prev as int) == TaskStatus::Ready
            },
            None => true,
        },
{
    tm.mark_current_suspended();
    let ghost mid = *tm;
    let outcome = tm.run_next_task();
    proof {
        if outcome.shutdown {
            let cur = mid.inner.current_task as int;
            let n = mid.num_app as int;
            assert((cur + n) % n == cur) by (nonlinear_arith)
                requires 0 <= cur < n;
            assert(mid.status_of(mid.rr_index(n)) != TaskStatus::Ready);
            assert(false);
        }
    }
    outcome
}

/// Mark the running task exited, then dispatch the next one.
pub fn exit_current_and_run_next(tm: &mut TaskManager) -> (r: ScheduleOutcome)
    requires
        old(tm).wf(),
        old(tm).num_app > 0,
    ensures
        final(tm).wf(),
        final(tm).num_app == old(tm).num_app,
        final(tm).inner.tasks@.len() == old(tm).inner.tasks@.len(),
        r.shutdown <==> r.switch_task is None,
        // The caller is retired for good, whatever happens next.
        final(tm).status_of(old(tm).inner.current_task as int) == TaskStatus::Exited,
        // Shutdown only once no other task could still run.
        r.shutdown ==> forall|j: int|
            0 <= j < old(tm).num_app && j != old(tm).inner.current_task
                ==> final(tm).status_of(j) != TaskStatus::Ready,
        match r.switch_task {
            Some((prev, next)) => {
                &&& prev == old(tm).inner.current_task
                &&& next < old(tm).num_app
                &&& next != prev
                &&& final(tm).status_of(next as int) == TaskStatus::Running
                &&& final(tm).inner.current_task == next
            },
            None => true,
        },
{
    tm.mark_current_exited();
    let ghost mid = *tm;
    let outcome = tm.run_next_task();
    proof {
        let cur = mid.inner.current_task as int;
        let n = mid.num_app as int;
        if outcome.shutdown {
            assert forall|j: int| 0 <= j < n && j != cur
                implies tm.status_of(j) != TaskStatus::Ready by {
                let k: int = if j > cur {
                    j - cur
                } else {
                    j + n - cur
                };
                assert((cur + k) % n == j) by (nonlinear_arith)
                    requires
                        0 <= j < n,
                        0 <= cur < n,
                        j != cur,
                        k == (if j > cur {
                            j - cur
                        } else {
                            j + n - cur
                        }),
                ;
                assert(mid.status_of(mid.rr_index(k)) != TaskStatus::Ready);
            }
        } else {
            // The exited caller is not ready, so it cannot be picked again.
            assert(mid.status_of(cur) == TaskStatus::Exited);
        }
    }
    outcome
}

/// Move the running task's program break by `size` bytes.
pub fn change_program_brk(tm: &mut TaskManager, allocator: &mut StackFrameAllocator,
    size: i32) -> (r: Option<u64>)
    requires
        old(tm).wf(),
        old(tm).num_app > 0,
        old(allocator).wf(),
        old(tm).inner.tasks@[old(tm).inner.current_task as int].wf(),
        old(tm).inner.tasks@[old(tm).inner.current_task as int].memory_set.frames_live(
            *old(allocator),
        ),
        old(tm).inner.tasks@[old(tm).inner.current_task as int].program_brk + size
            < 0x80_0000_0000i64,
        old(tm).inner.tasks@[old(tm).inner.current_task as int].brk_move_ok(
            *old(allocator),
            old(tm).inner.tasks@[old(tm).inner.current_task as int].program_brk + size,
        ),
    ensures
        final(tm).wf(),
        final(allocator).wf(),
        r is Some <==> (old(tm).inner.tasks@[
            old(tm).inner.current_task as int].program_brk + size >= old(tm).inner.tasks@[
            old(tm).inner.current_task as int].heap_bottom && exists|i: int|
            0 <= i < old(tm).inner.tasks@[
                old(tm).inner.current_task as int].memory_set.areas@.len()
                && (#[trigger] old(tm).inner.tasks@[
                old(tm).inner.current_task as int].memory_set.areas@[i]).start() == old(
                tm,
            ).inner.tasks@[old(tm).inner.current_task as int].heap_bottom / PAGE_SIZE),
        match r {
            Some(v) => {
                &&& v == old(tm).inner.tasks@[
                    old(tm).inner.current_task as int].program_brk
                &&& final(tm).inner.tasks@[
                    old(tm).inner.current_task as int].program_brk == old(
                    tm,
                ).inner.tasks@[old(tm).inner.current_task as int].program_brk + size
            },
            None => final(tm).inner.tasks@[
                old(tm).inner.current_task as int].program_brk == old(tm).inner.tasks@[
                old(tm).inner.current_task as int].program_brk,
        },
{
    tm.change_current_program_brk(allocator, size)
}

/// The running task's `satp` token.
pub fn current_user_token(tm: &TaskManager) -> (r: u64)
    requires
        tm.wf(),
        tm.num_app > 0,
        tm.inner.tasks@[tm.inner.current_task as int].memory_set.wf(),
    ensures
        r == 0x8000_0000_0000_0000u64 + tm.inner.tasks@[
            tm.inner.current_task as int].memory_set.page_table.root_ppn.0,
{
    tm.get_current_token()
}

} // verus!
