//! The physical frame allocator: a high-water mark over a fixed interval of
//! physical page numbers plus a LIFO stack of recycled frames, and the
//! RAII-style tracker that owns one allocated frame together with its
//! 4 KiB of contents.
//!
//! The allocator is an owned value passed to whoever needs frames; the
//! machine's single global instance is the caller's affair.

use vstd::prelude::*;
use crate::address::{PhysAddr, PhysPageNum};
use crate::config::{MEMORY_END, PAGE_SIZE};

verus! {

/// Frame allocator state: `[current, end)` has never been handed out;
/// `recycled` holds frames returned after use, most recent last.
pub struct StackFrameAllocator {
    /// Lowest physical page number never yet handed out.
    pub current: u64,
    /// One past the highest allocatable physical page number.
    pub end: u64,
    /// Previously freed page numbers, reused LIFO.
    pub recycled: Vec<u64>,
}

impl StackFrameAllocator {
    /// The allocator's invariant: the mark lies inside the interval, page
    /// numbers fit in 44 bits, and every recycled frame was handed out
    /// before and is recorded only once.
    pub open spec fn wf(&self) -> bool {
        &&& self.current <= self.end
        &&& self.end <= 0x1000_0000_0000u64
        &&& forall|i: int| 0 <= i < self.recycled@.len() ==> self.recycled@[i] < self.current
        &&& forall|i: int, j: int|
                0 <= i < j < self.recycled@.len() ==> self.recycled@[i] != self.recycled@[j]
    }

    /// Whether a page number is currently allocated: handed out at some
    /// point (below the mark) and not sitting in the recycled pool.
    pub open spec fn is_live(&self, ppn: u64) -> bool {
        ppn < self.current && !self.recycled@.contains(ppn)
    }

    /// How many frames the allocator can still hand out.
    pub open spec fn avail(&self) -> int {
        self.recycled@.len() + self.end - self.current
    }

    /// An empty allocator; usable once `init` fixes its interval.
    pub fn new() -> (r: StackFrameAllocator)
        ensures
            r.current == 0,
            r.end == 0,
            r.recycled@.len() == 0,
            r.wf(),
    {
        StackFrameAllocator { current: 0, end: 0, recycled: Vec::new() }
    }

    /// Fix the interval of allocatable page numbers to `[l, r)`. Called
    /// once, before anything has been allocated.
    pub fn init(&mut self, l: PhysPageNum, r: PhysPageNum)
        requires
            old(self).recycled@.len() == 0,
            l.0 <= r.0,
            r.0 <= 0x1000_0000_0000u64,
        ensures
            final(self).current == l.0,
            final(self).end == r.0,
            final(self).recycled == old(self).recycled,
            final(self).wf(),
    {
        self.current = l.0;
        self.end = r.0;
    }

    /// Hand out a frame: the most recently recycled one if any, otherwise
    /// the next never-used page number; `None` once the pool is exhausted.
    pub fn allocate(&mut self) -> (r: Option<PhysPageNum>)
        requires
            old(self).wf(),
        ensures
            final(self).wf(),
            alloc_transition(*old(self), *final(self), r),
            r is None <==> old(self).avail() == 0,
            match r {
                Some(p) => {
                    &&& !old(self).is_live(p.0)
                    &&& final(self).is_live(p.0)
                    &&& p.0 < final(self).end
                    &&& final(self).avail() == old(self).avail() - 1
                },
                None => final(self).current == old(self).current
                    && final(self).recycled@ == old(self).recycled@,
            },
            forall|q: u64| old(self).is_live(q) ==> final(self).is_live(q),
            forall|q: u64| final(self).is_live(q) && !old(self).is_live(q)
                ==> r == Some(PhysPageNum(q)),
    {
        proof {
            if old(self).recycled@.len() > 0 {
                assert(old(self).recycled@.contains(old(self).recycled@.last()));
            }
        }
        if let Some(ppn) = self.recycled.pop() {
            proof {
                lemma_drop_last_of_distinct(old(self).recycled@);
                assert forall|q: u64| old(self).recycled@.contains(q)
                        && q != old(self).recycled@.last()
                    implies self.recycled@.contains(q) by {
                    let i = choose|i: int|
                        0 <= i < old(self).recycled@.len() && old(self).recycled@[i] == q;
                    assert(self.recycled@[i] == q);
                }
            }
            Some(PhysPageNum(ppn))
        } else {
            if self.current == self.end {
                None
            } else {
                self.current = self.current + 1;
                Some(PhysPageNum(self.current - 1))
            }
        }
    }

    /// Return a frame to the pool. The frame must be live: handed out
    /// before and not already returned.
    pub fn dealloc(&mut self, ppn: PhysPageNum)
        requires
            old(self).wf(),
            old(self).is_live(ppn.0),
        ensures
            final(self).wf(),
            final(self).current == old(self).current,
            final(self).end == old(self).end,
            final(self).recycled@ == old(self).recycled@.push(ppn.0),
            forall|q: u64| final(self).is_live(q) <==> (old(self).is_live(q) && q != ppn.0),
    {
        self.recycled.push(ppn.0);
        proof {
            assert forall|q: u64| old(self).is_live(q) && q != ppn.0
                implies self.is_live(q) by {
                if self.recycled@.contains(q) {
                    let i = choose|i: int|
                        0 <= i < self.recycled@.len() && self.recycled@[i] == q;
                    if i < old(self).recycled@.len() {
                        assert(old(self).recycled@.contains(q));
                    }
                }
            }
            assert forall|q: u64| self.is_live(q)
                implies (old(self).is_live(q) && q != ppn.0) by {
                assert(self.recycled@[self.recycled@.len() - 1] == ppn.0);
                assert(self.recycled@.contains(ppn.0));
                assert forall|p: u64| old(self).recycled@.contains(p)
                    implies self.recycled@.contains(p) by {
                    let i = choose|i: int|
                        0 <= i < old(self).recycled@.len() && old(self).recycled@[i] == p;
                    assert(self.recycled@[i] == p);
                }
            }
        }
    }
}

/// In a duplicate-free sequence, no element but the last equals the last,
/// so dropping the last removes it.
proof fn lemma_drop_last_of_distinct(s: Seq<u64>)
    requires
        s.len() > 0,
        forall|i: int, j: int| 0 <= i < j < s.len() ==> s[i] != s[j],
    ensures
        !s.drop_last().contains(s.last()),
{
    if s.drop_last().contains(s.last()) {
        let i = choose|i: int| 0 <= i < s.drop_last().len() && s.drop_last()[i] == s.last();
        assert(s[i] == s[s.len() - 1]);
    }
}

/// How one call of `alloc` relates the allocator's state before and after
/// to its result: LIFO reuse of recycled frames first, then the mark.
pub open spec fn alloc_transition(
    pre: StackFrameAllocator,
    post: StackFrameAllocator,
    r: Option<PhysPageNum>,
) -> bool {
    &&& post.end == pre.end
    &&& if pre.recycled@.len() > 0 {
            &&& r == Some(PhysPageNum(pre.recycled@.last()))
            &&& post.recycled@ == pre.recycled@.drop_last()
            &&& post.current == pre.current
        } else if pre.current < pre.end {
            &&& r == Some(PhysPageNum(pre.current))
            &&& post.recycled@ == pre.recycled@
            &&& post.current == pre.current + 1
        } else {
            &&& r is None
            &&& post.recycled@ == pre.recycled@
            &&& post.current == pre.current
        }
}

/// Law: a freshly allocated frame is fresh. If a page number is live before
/// an allocation (some tracker still owns it), the allocation returns a
/// different page number, and both are live afterwards. Hence no two
/// concurrently live frame trackers ever name the same frame.
pub proof fn lemma_live_frames_distinct(
    pre: StackFrameAllocator,
    post: StackFrameAllocator,
    ppn: PhysPageNum,
    p: u64,
)
    requires
        pre.wf(),
        alloc_transition(pre, post, Some(ppn)),
        pre.is_live(p),
    ensures
        ppn.0 != p,
        !pre.is_live(ppn.0),
        post.is_live(p),
        post.is_live(ppn.0),
{
    if pre.recycled@.len() > 0 {
        assert(pre.recycled@.contains(pre.recycled@.last()));
        lemma_drop_last_of_distinct(pre.recycled@);
        if post.recycled@.contains(p) {
            let i = choose|i: int|
                0 <= i < post.recycled@.len() && post.recycled@[i] == p;
            assert(pre.recycled@[i] == p);
            assert(pre.recycled@.contains(p));
        }
    }
}

/// Law: the allocator's bookkeeping is consistent in every reachable state:
/// the mark never passes the end of the interval, every recycled frame lies
/// below the mark, and no frame is recycled twice.
pub proof fn lemma_allocator_state_consistent(a: StackFrameAllocator)
    requires
        a.wf(),
    ensures
        a.current <= a.end,
        forall|i: int| 0 <= i < a.recycled@.len() ==> a.recycled@[i] < a.current,
        forall|i: int, j: int|
            0 <= i < j < a.recycled@.len() ==> a.recycled@[i] != a.recycled@[j],
{
}

/// A scoped handle owning exactly one allocated physical frame, together
/// with the frame's 4 KiB of contents, which creation zeroes. The machine's
/// raw frame memory is modelled by the `bytes` the tracker owns.
pub struct FrameTracker {
    /// The owned physical page number.
    pub ppn: PhysPageNum,
    /// The 4096 bytes of the frame.
    pub bytes: Vec<u8>,
}

impl FrameTracker {
    /// Take ownership of a freshly allocated frame, zeroing its contents.
    pub fn new(ppn: PhysPageNum) -> (r: FrameTracker)
        ensures
            r.ppn == ppn,
            r.wf(),
            forall|i: int| 0 <= i < r.bytes@.len() ==> r.bytes@[i] == 0u8,
    {
        let mut bytes: Vec<u8> = Vec::new();
        let mut i: usize = 0;
        while i < 4096
            invariant
                i <= 4096,
                bytes@.len() == i,
                forall|j: int| 0 <= j < i ==> bytes@[j] == 0u8,
            decreases 4096 - i,
        {
            bytes.push(0u8);
            i = i + 1;
        }
        FrameTracker { ppn, bytes }
    }

    /// The frame's contents as a sequence.
    pub open spec fn view(&self) -> Seq<u8> {
        self.bytes@
    }

    /// Whether the tracker holds a full frame.
    pub open spec fn wf(&self) -> bool {
        self.bytes@.len() == PAGE_SIZE
    }
}

/// Allocate a frame and wrap it in a zeroing tracker; `None` when physical
/// memory is exhausted.
pub fn frame_alloc(allocator: &mut StackFrameAllocator) -> (r: Option<FrameTracker>)
    requires
        old(allocator).wf(),
    ensures
        final(allocator).wf(),
        r is None <==> old(allocator).avail() == 0,
        match r {
            Some(t) => {
                &&& alloc_transition(*old(allocator), *final(allocator), Some(t.ppn))
                &&& t.wf()
                &&& !old(allocator).is_live(t.ppn.0)
                &&& final(allocator).is_live(t.ppn.0)
                &&& t.ppn.0 < final(allocator).end
                &&& final(allocator).avail() == old(allocator).avail() - 1
                &&& forall|i: int| 0 <= i < t.bytes@.len() ==> t.bytes@[i] == 0u8
            },
            None => final(allocator).current == old(allocator).current
                && final(allocator).end == old(allocator).end
                && final(allocator).recycled@ == old(allocator).recycled@,
        },
        forall|q: u64| old(allocator).is_live(q) ==> final(allocator).is_live(q),
{
    match allocator.allocate() {
        Some(ppn) => Some(FrameTracker::new(ppn)),
        None => None,
    }
}

/// Set up an allocator over the physical memory left above the kernel
/// image, `[ceil(ekernel), floor(MEMORY_END))`.
pub fn init_frame_allocator(allocator: &mut StackFrameAllocator, ekernel: PhysAddr)
    requires
        old(allocator).recycled@.len() == 0,
        ekernel.0 + PAGE_SIZE <= MEMORY_END,
    ensures
        final(allocator).wf(),
        final(allocator).current == (ekernel.0 + PAGE_SIZE - 1) / (PAGE_SIZE as int),
        final(allocator).end == MEMORY_END / PAGE_SIZE,
        final(allocator).recycled@.len() == 0,
{
    let l = ekernel.ceil();
    let r = PhysAddr(MEMORY_END).floor();
    proof {
        assert((ekernel.0 + 4096 - 1) / 4096 <= (MEMORY_END as int) / 4096) by (nonlinear_arith)
            requires ekernel.0 + 4096 <= MEMORY_END;
    }
    allocator.init(l, r);
}

} // verus!
