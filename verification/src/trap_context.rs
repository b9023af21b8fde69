//! The fixed save area a trap writes a task's user state into: the 32
//! integer registers, the supervisor status and return PC, and the three
//! kernel-side fields the trampoline reads on the way in.

use vstd::prelude::*;

verus! {

/// A task's trap context, laid out as the trampoline code expects it.
pub struct TrapContext {
    /// General registers `x0..x31`; `x[2]` is the user stack pointer.
    pub x: [u64; 32],
    /// Saved `sstatus`; bit 8 is `SPP`, the privilege trapped from.
    pub sstatus: u64,
    /// Saved `sepc`: where `sret` resumes the task.
    pub sepc: u64,
    /// The kernel address space's `satp` token, read by the trampoline.
    pub kernel_satp: u64,
    /// Top of the task's kernel stack, read by the trampoline.
    pub kernel_sp: u64,
    /// Virtual address of the kernel's trap handler, read by the trampoline.
    pub trap_handler: u64,
}

impl TrapContext {
    /// Point the saved user stack pointer at `sp`.
    pub fn set_sp(&mut self, sp: u64)
        ensures
            final(self).x@ == old(self).x@.update(2, sp),
            final(self).sstatus == old(self).sstatus,
            final(self).sepc == old(self).sepc,
            final(self).kernel_satp == old(self).kernel_satp,
            final(self).kernel_sp == old(self).kernel_sp,
            final(self).trap_handler == old(self).trap_handler,
    {
        self.x[2] = sp;
    }

    /// The initial trap context of a task: resuming it enters user mode
    /// (`SPP` cleared in the given `sstatus` value) at `entry` with the
    /// user stack pointer set, and records the three kernel-side fields
    /// the trampoline needs on the next trap.
    pub fn app_init_context(entry: u64, sp: u64, kernel_satp: u64, kernel_sp: u64,
        trap_handler: u64, sstatus: u64) -> (r: TrapContext)
        ensures
            r.x@[2] == sp,
            forall|i: int| 0 <= i < 32 && i != 2 ==> r.x@[i] == 0,
            r.sstatus == sstatus & 0xFFFF_FFFF_FFFF_FEFFu64,
            r.sstatus & 0x100 == 0,
            r.sepc == entry,
            r.kernel_satp == kernel_satp,
            r.kernel_sp == kernel_sp,
            r.trap_handler == trap_handler,
    {
        proof {
            let v = sstatus;
            assert((v & 0xFFFF_FFFF_FFFF_FEFFu64) & 0x100 == 0) by (bit_vector);
        }
        let mut cx = TrapContext {
            x: [0; 32],
            sstatus: sstatus & 0xFFFF_FFFF_FFFF_FEFFu64,
            sepc: entry,
            kernel_satp,
            kernel_sp,
            trap_handler,
        };
        cx.set_sp(sp);
        cx
    }
}

} // verus!
