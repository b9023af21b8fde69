//! Trap dispatch: decode the trap cause and decide what the kernel does —
//! advance a syscall, preempt on the timer tick, or kill a faulting task.
//! The machine side (reading CSRs, arming the SBI timer, the context
//! switch, console output) is the caller's: the handler returns what to
//! perform.

use vstd::prelude::*;
use crate::config::{CLOCK_FREQ, MICRO_PER_SEC, TICKS_PER_SEC};
use crate::memory_set::translated_byte_buffer;
use crate::task::{
    ScheduleOutcome, TaskManager, TaskStatus, exit_current_and_run_next,
    suspend_current_and_run_next,
};
use crate::timer::{get_time_us, set_next_trigger};
use crate::trap_context::TrapContext;

verus! {

/// Write to a file descriptor; only the console (descriptor 1) exists.
pub const SYSCALL_WRITE: u64 = 64;
/// Terminate the calling task.
pub const SYSCALL_EXIT: u64 = 93;
/// Give up the processor voluntarily.
pub const SYSCALL_YIELD: u64 = 124;
/// Microseconds since boot.
pub const SYSCALL_GET_TIME: u64 = 169;

/// The trap causes this kernel handles, as decoded from `scause`.
#[derive(Clone, Copy, PartialEq, Eq, Structural, Debug)]
pub enum TrapCause {
    /// An `ecall` from user mode: a system call.
    UserEnvCall,
    /// A store to an unwritable or unmapped address.
    StoreFault,
    /// A store page fault.
    StorePageFault,
    /// An illegal instruction.
    IllegalInstruction,
    /// The supervisor timer fired: preempt.
    SupervisorTimer,
}

/// What the caller must perform after a trap is handled.
pub struct TrapResult {
    /// Arm the SBI timer with this deadline.
    pub set_timer: Option<u64>,
    /// Switch from the first task's saved context to the second's.
    pub switch_task: Option<(usize, usize)>,
    /// Every task has exited: power off.
    pub shutdown: bool,
    /// Bytes to write to the console.
    pub console: Option<Vec<u8>>,
}

/// The console write syscall: copy `len` bytes at user address `buf` out
/// of the calling task's address space. Only descriptor 1 is backed;
/// anything else, or an unreadable range, fails with `-1`.
pub fn sys_write(tm: &TaskManager, fd: u64, buf: u64, len: u64) -> (r: (i64, Option<
    Vec<u8>,
>))
    requires
        tm.wf(),
        tm.num_app > 0,
        tm.inner.tasks@[tm.inner.current_task as int].memory_set.wf(),
    ensures
        r.1 is Some <==> (fd == 1 && buf + len < 0x80_0000_0000u64 && forall|k: u64|
            k < len ==> #[trigger] tm.inner.tasks@[
                tm.inner.current_task as int].memory_set.page_covered(
                ((buf + k) as u64) / crate::config::PAGE_SIZE,
            )),
        match r.1 {
            Some(v) => {
                &&& r.0 == len as i64
                &&& v@.len() == len
                &&& forall|k: int| 0 <= k < len ==> v@[k] == tm.inner.tasks@[
                    tm.inner.current_task as int].memory_set.user_byte((buf + k) as u64)
            },
            None => r.0 == -1,
        },
{
    if fd != 1 {
        return (-1, None);
    }
    if len >= 0x80_0000_0000u64 || buf >= 0x80_0000_0000u64 - len {
        return (-1, None);
    }
    let current = tm.inner.current_task;
    let ms = &tm.inner.tasks[current].memory_set;
    match translated_byte_buffer(ms, buf, len) {
        Some(bytes) => (len as i64, Some(bytes)),
        None => (-1, None),
    }
}

/// The yield syscall: mark the caller ready and dispatch the next task.
pub fn sys_yield(tm: &mut TaskManager) -> (r: (i64, ScheduleOutcome))
    requires
        old(tm).wf(),
        old(tm).num_app > 0,
    ensures
        final(tm).wf(),
        final(tm).num_app == old(tm).num_app,
        r.0 == 0,
        !r.1.shutdown,
        r.1.switch_task is Some,
        match r.1.switch_task {
            Some((prev, next)) => {
                &&& prev == old(tm).inner.current_task
                &&& next < old(tm).num_app
                &&& final(tm).status_of(next as int) == TaskStatus::Running
                &&& final(tm).inner.current_task == next
                &&& next != prev
                    ==> final(tm).status_of(prev as int) == TaskStatus::Ready
            },
            None => true,
        },
{
    let outcome = suspend_current_and_run_next(tm);
    (0, outcome)
}

/// The exit syscall: mark the caller exited and dispatch the next task.
pub fn sys_exit(tm: &mut TaskManager, exit_code: i32) -> (r: ScheduleOutcome)
    requires
        old(tm).wf(),
        old(tm).num_app > 0,
    ensures
        final(tm).wf(),
        final(tm).num_app == old(tm).num_app,
        final(tm).status_of(old(tm).inner.current_task as int) == TaskStatus::Exited,
        r.shutdown <==> r.switch_task is None,
        r.shutdown ==> forall|j: int|
            0 <= j < old(tm).num_app && j != old(tm).inner.current_task
                ==> final(tm).status_of(j) != TaskStatus::Ready,
        match r.switch_task {
            Some((prev, next)) => {
                &&& prev == old(tm).inner.current_task
                &&& next < old(tm).num_app
                &&& next != prev
                &&& final(tm).status_of(next as int) == TaskStatus::Running
                &&& final(tm).inner.current_task == next
            },
            None => true,
        },
{
    // The exit code is diagnostic only; reporting is the caller's affair.
    let _ = exit_code;
    exit_current_and_run_next(tm)
}

/// The time syscall: microseconds since boot, from the counter value.
pub fn sys_get_time(now: u64) -> (r: i64)
    ensures
        r == (now * MICRO_PER_SEC / (CLOCK_FREQ as int)) as u64 as i64,
{
    get_time_us(now) as i64
}

/// Handle one trap from user space: dispatch a syscall, preempt on the
/// timer (rearming it first), or kill the faulting task; in each case
/// return the machine actions the caller must perform.
pub fn trap_handler(tm: &mut TaskManager, cx: &mut TrapContext, cause: TrapCause,
    stval: u64, now: u64) -> (r: TrapResult)
    requires
        old(tm).wf(),
        old(tm).num_app > 0,
        old(tm).inner.tasks@[old(tm).inner.current_task as int].memory_set.wf(),
        old(cx).sepc <= u64::MAX - 4,
        now <= u64::MAX - CLOCK_FREQ / TICKS_PER_SEC,
    ensures
        final(tm).wf(),
        final(tm).num_app == old(tm).num_app,
        r.shutdown ==> r.switch_task is None,
        cause == TrapCause::SupervisorTimer ==> {
            &&& r.set_timer == Some(((now + CLOCK_FREQ / TICKS_PER_SEC)) as u64)
            // Preemption always dispatches: the preempted task is itself
            // ready again.
            &&& !r.shutdown
            &&& r.switch_task is Some
            &&& *final(cx) == *old(cx)
            &&& match r.switch_task {
                    Some((prev, next)) => {
                        &&& prev == old(tm).inner.current_task
                        &&& final(tm).status_of(next as int) == TaskStatus::Running
                        &&& final(tm).inner.current_task == next
                        &&& next != prev ==> final(tm).status_of(prev as int)
                            == TaskStatus::Ready
                    },
                    None => true,
                }
        },
        (cause == TrapCause::StoreFault || cause == TrapCause::StorePageFault || cause
            == TrapCause::IllegalInstruction) ==> {
            &&& r.set_timer is None
            &&& (r.shutdown <==> r.switch_task is None)
            &&& *final(cx) == *old(cx)
            // The faulting task is killed, whatever runs next.
            &&& final(tm).status_of(old(tm).inner.current_task as int)
                == TaskStatus::Exited
            &&& (r.shutdown ==> forall|j: int|
                0 <= j < old(tm).num_app && j != old(tm).inner.current_task
                    ==> final(tm).status_of(j) != TaskStatus::Ready)
            &&& match r.switch_task {
                    Some((prev, next)) => {
                        &&& prev == old(tm).inner.current_task
                        &&& next != prev
                        &&& final(tm).status_of(next as int) == TaskStatus::Running
                        &&& final(tm).inner.current_task == next
                    },
                    None => true,
                }
        },
        cause == TrapCause::UserEnvCall ==> {
            &&& final(cx).sepc == old(cx).sepc + 4
            &&& r.set_timer is None
            &&& final(cx).x@ == old(cx).x@.update(10, final(cx).x@[10])
            &&& (old(cx).x@[17] == SYSCALL_YIELD ==> {
                &&& final(cx).x@[10] == 0
                &&& !r.shutdown
                &&& r.switch_task is Some
                &&& (r.switch_task matches Some((prev, next))
                    && prev == old(tm).inner.current_task
                    && final(tm).status_of(next as int) == TaskStatus::Running)
            })
            &&& (old(cx).x@[17] == SYSCALL_EXIT ==> {
                &&& final(tm).status_of(old(tm).inner.current_task as int)
                    == TaskStatus::Exited
                &&& (r.shutdown <==> r.switch_task is None)
                &&& (r.shutdown ==> forall|j: int|
                    0 <= j < old(tm).num_app && j != old(tm).inner.current_task
                        ==> final(tm).status_of(j) != TaskStatus::Ready)
                &&& (r.switch_task matches Some((prev, next))
                    ==> prev == old(tm).inner.current_task && next != prev
                        && final(tm).status_of(next as int) == TaskStatus::Running)
            })
            &&& (old(cx).x@[17] == SYSCALL_GET_TIME ==> final(cx).x@[10] == (
            (now * MICRO_PER_SEC / (CLOCK_FREQ as int)) as u64 as i64) as u64)
            &&& (old(cx).x@[17] == SYSCALL_WRITE ==> {
                &&& (r.console is Some <==> (old(cx).x@[10] == 1 && old(cx).x@[11]
                    + old(cx).x@[12] < 0x80_0000_0000u64 && forall|k: u64|
                    k < old(cx).x@[12] ==> #[trigger] old(tm).inner.tasks@[
                        old(tm).inner.current_task as int].memory_set.page_covered(
                        ((old(cx).x@[11] + k) as u64) / crate::config::PAGE_SIZE,
                    )))
                &&& match r.console {
                    Some(v) => {
                        &&& final(cx).x@[10] == (old(cx).x@[12] as i64) as u64
                        &&& v@.len() == old(cx).x@[12]
                        &&& forall|k: int| 0 <= k < v@.len() ==> v@[k] == old(
                            tm,
                        ).inner.tasks@[old(tm).inner.current_task as int].memory_set.user_byte(
                            (old(cx).x@[11] + k) as u64,
                        )
                    },
                    None => final(cx).x@[10] == (-1i64) as u64,
                }
            })
            &&& (!(old(cx).x@[17] == SYSCALL_WRITE || old(cx).x@[17] == SYSCALL_EXIT
                || old(cx).x@[17] == SYSCALL_YIELD || old(cx).x@[17]
                == SYSCALL_GET_TIME) ==> final(cx).x@[10] == (-1i64) as u64)
            &&& (!(old(cx).x@[17] == SYSCALL_EXIT || old(cx).x@[17] == SYSCALL_YIELD)
                ==> r.switch_task is None && !r.shutdown)
        },
{
    // The faulting address in `stval` is diagnostic only; reporting is the
    // caller's affair.
    let _ = stval;
    match cause {
        TrapCause::UserEnvCall => {
            cx.sepc = cx.sepc + 4;
            let id = cx.x[17];
            let arg0 = cx.x[10];
            let arg1 = cx.x[11];
            let arg2 = cx.x[12];
            let mut result = TrapResult {
                set_timer: None,
                switch_task: None,
                shutdown: false,
                console: None,
            };
            let ret: i64;
            if id == SYSCALL_WRITE {
                let wr = sys_write(tm, arg0, arg1, arg2);
                ret = wr.0;
                result.console = wr.1;
            } else if id == SYSCALL_EXIT {
                let outcome = sys_exit(tm, arg0 as i32);
                result.switch_task = outcome.switch_task;
                result.shutdown = outcome.shutdown;
                ret = 0;
            } else if id == SYSCALL_YIELD {
                let y = sys_yield(tm);
                ret = y.0;
                result.switch_task = y.1.switch_task;
                result.shutdown = y.1.shutdown;
            } else if id == SYSCALL_GET_TIME {
                ret = sys_get_time(now);
            } else {
                ret = -1;
            }
            cx.x[10] = ret as u64;
            result
        },
        TrapCause::StoreFault | TrapCause::StorePageFault
            | TrapCause::IllegalInstruction => {
            // The intended policy: terminate only the offending task and
            // schedule the next one.
            let outcome = exit_current_and_run_next(tm);
            TrapResult {
                set_timer: None,
                switch_task: outcome.switch_task,
                shutdown: outcome.shutdown,
                console: None,
            }
        },
        TrapCause::SupervisorTimer => {
            let deadline = set_next_trigger(now);
            let outcome = suspend_current_and_run_next(tm);
            TrapResult {
                set_timer: Some(deadline),
                switch_task: outcome.switch_task,
                shutdown: outcome.shutdown,
                console: None,
            }
        },
    }
}

} // verus!
