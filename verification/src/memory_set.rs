//! Map areas and address spaces: a contiguous range of virtual pages with
//! one mapping mode and permission set, and the memory set that couples a
//! page table with the areas mapped through it.

use vstd::prelude::*;
use crate::address::{PhysAddr, PhysPageNum, VirtAddr, VirtPageNum, VPNRange, vpn_index1, vpn_index2};
use crate::config::{MEMORY_END, PAGE_SIZE, TRAMPOLINE, TRAP_CONTEXT, USER_STACK_SIZE};
use crate::elf::{LoadSegment, elf_entry, elf_wf, load_segments, parse_elf};
use crate::frame_allocator::{FrameTracker, StackFrameAllocator, frame_alloc};
use crate::page_table::{
    PTEFlags, PTE_R, PTE_X, PageTable, PageTableEntry, spec_pte_new, spec_pte_valid,
    spec_pte_ppn,
};

verus! {

/// Readable permission bit (matching the R bit of a page-table entry).
pub const MAP_PERM_R: u8 = 2;
/// Writable permission bit.
pub const MAP_PERM_W: u8 = 4;
/// Executable permission bit.
pub const MAP_PERM_X: u8 = 8;
/// User-accessible permission bit.
pub const MAP_PERM_U: u8 = 16;

/// A subset of the `{R, W, X, U}` permissions of a mapped area, stored in
/// the same bit positions a page-table entry uses.
#[derive(Clone, Copy, PartialEq, Eq, Structural, Debug)]
pub struct MapPermission(pub u8);

impl MapPermission {
    /// No permissions.
    pub fn empty() -> (r: MapPermission)
        ensures
            r.0 == 0,
    {
        MapPermission(0)
    }

    /// The union of two permission sets.
    pub fn union(self, other: MapPermission) -> (r: MapPermission)
        ensures
            r.0 == (self.0 | other.0),
    {
        MapPermission(self.0 | other.0)
    }

    /// Whether every permission of `other` is present in `self`.
    pub fn contains(self, other: MapPermission) -> (r: bool)
        ensures
            r == ((self.0 & other.0) == other.0),
    {
        (self.0 & other.0) == other.0
    }

    /// The permission bits as page-table entry flags.
    pub fn as_pte_flags(self) -> (r: PTEFlags)
        ensures
            r.0 == self.0,
    {
        PTEFlags(self.0)
    }

    /// A well-formed permission set: only the `R`, `W`, `X`, `U` bits.
    pub open spec fn wf(&self) -> bool {
        self.0 & 0x1Eu8 == self.0
    }
}

/// How an area's pages find their physical frames.
#[derive(Clone, Copy, PartialEq, Eq, Structural, Debug)]
pub enum MapType {
    /// Each page maps to the numerically equal physical page.
    Identical,
    /// Each page maps to a freshly allocated frame owned by the area.
    Framed,
}

/// Interior table frames still needed to map the contiguous page range
/// `[start, end)` into a table, counted generously (each level-1 and
/// level-2 slot the range touches), plus the frames of the pages
/// themselves when the area is framed.
pub open spec fn frames_needed(start: u64, end: u64, framed: bool) -> int {
    if start >= end {
        0
    } else {
        (if framed {
            end - start
        } else {
            0
        }) + ((end - 1) as u64 / 512 - start / 512) + (
        (end - 1) as u64 / 262144 - start / 262144) + 2
    }
}

/// A contiguous range of virtual pages mapped with one mode and one
/// permission set; a framed area owns the frame of each of its pages.
pub struct MapArea {
    /// The pages of the area.
    pub vpn_range: VPNRange,
    /// For a framed area: the frame of page `start + i` at index `i`.
    pub data_frames: Vec<FrameTracker>,
    /// The mapping mode.
    pub map_type: MapType,
    /// The `{R, W, X, U}` permissions of every page of the area.
    pub map_perm: MapPermission,
}

impl MapArea {
    /// First page of the area.
    pub open spec fn start(&self) -> u64 {
        self.vpn_range.start().0
    }

    /// One past the last page of the area.
    pub open spec fn end(&self) -> u64 {
        self.vpn_range.end().0
    }

    /// Whether a page lies in the area.
    pub open spec fn holds(&self, vpn: u64) -> bool {
        self.start() <= vpn < self.end()
    }

    /// Structural invariant: an ordered 27-bit page range, clean
    /// permissions, and no frames unless framed.
    pub open spec fn wf(&self) -> bool {
        &&& self.start() <= self.end()
        &&& self.end() <= 0x800_0000u64
        &&& self.map_perm.wf()
        &&& (self.map_type == MapType::Identical ==> self.data_frames@.len() == 0)
    }

    /// The leaf entry page `start + i` of this area must hold once mapped.
    pub open spec fn expected_pte(&self, i: int) -> PageTableEntry {
        if self.map_type == MapType::Framed {
            PageTableEntry { bits: spec_pte_new(self.data_frames@[i].ppn.0, self.map_perm.0 | 1u8) }
        } else {
            PageTableEntry { bits: spec_pte_new((self.start() + i) as u64, self.map_perm.0 | 1u8) }
        }
    }

    /// The first `n` pages of the area are mapped in `pt`: each translates
    /// to a valid leaf carrying the area's permissions, and a framed area
    /// records each backing frame exactly once.
    pub open spec fn mapped_prefix(&self, pt: PageTable, n: int) -> bool {
        &&& (self.map_type == MapType::Framed ==> self.data_frames@.len() == n)
        &&& forall|i: int| 0 <= i < n ==> pt.translate_spec((self.start() + i) as u64)
                == Some(#[trigger] self.expected_pte(i))
        &&& (self.map_type == MapType::Framed ==> forall|i: int|
                0 <= i < n ==> (#[trigger] self.data_frames@[i]).wf()
                    && self.data_frames@[i].ppn.0 < 0x1000_0000_0000u64)
        &&& (self.map_type == MapType::Framed ==> forall|i: int, j: int|
                0 <= i < j < n
                    ==> self.data_frames@[i].ppn.0 != self.data_frames@[j].ppn.0)
    }

    /// The whole area is mapped in `pt`.
    pub open spec fn mapped_in(&self, pt: PageTable) -> bool {
        self.mapped_prefix(pt, self.end() - self.start())
    }

    /// Every frame the area owns is live in the allocator.
    pub open spec fn frames_live(&self, a: StackFrameAllocator) -> bool {
        forall|i: int| 0 <= i < self.data_frames@.len()
            ==> a.is_live((#[trigger] self.data_frames@[i]).ppn.0)
    }

    /// A new, unmapped area covering `[floor(start_va), ceil(end_va))`.
    pub fn new(start_va: VirtAddr, end_va: VirtAddr, map_type: MapType,
        map_perm: MapPermission) -> (r: MapArea)
        requires
            start_va.0 <= end_va.0,
            end_va.0 < 0x80_0000_0000u64,
            map_perm.wf(),
        ensures
            r.start() == start_va.0 / PAGE_SIZE,
            r.end() == (end_va.0 + PAGE_SIZE - 1) / (PAGE_SIZE as int),
            r.map_type == map_type,
            r.map_perm == map_perm,
            r.data_frames@.len() == 0,
            r.wf(),
    {
        let start_vpn = start_va.floor();
        let end_vpn = end_va.ceil();
        proof {
            assert(start_va.0 as int / 4096 <= (end_va.0 + 4095) / 4096) by (nonlinear_arith)
                requires start_va.0 <= end_va.0;
            assert((end_va.0 + 4095) / 4096 <= 0x800_0000) by (nonlinear_arith)
                requires end_va.0 < 0x80_0000_0000u64;
        }
        MapArea {
            vpn_range: VPNRange::new(start_vpn, end_vpn),
            data_frames: Vec::new(),
            map_type,
            map_perm,
        }
    }
    /// Map the next page of the area: page `start + n` where `n` pages are
    /// mapped already. A framed area allocates and records the page's
    /// frame; an identical area maps the page to itself.
    ///
    /// Frames are recorded by their offset from the area's first page, so
    /// pages are mapped in ascending order — the only order the kernel
    /// maps them in.
    pub fn map_one(&mut self, page_table: &mut PageTable,
        allocator: &mut StackFrameAllocator, vpn: VirtPageNum)
        requires
            old(self).wf(),
            old(self).holds(vpn.0),
            old(self).map_type == MapType::Framed
                ==> vpn.0 == old(self).start() + old(self).data_frames@.len(),
            old(page_table).wf(),
            old(allocator).wf(),
            old(page_table).frames_live(*old(allocator)),
            old(self).frames_live(*old(allocator)),
            old(page_table).translate_spec(vpn.0) is None,
            old(allocator).avail() >= old(page_table).map_cost(vpn.0) + (
            if old(self).map_type == MapType::Framed {
                1int
            } else {
                0int
            }),
        ensures
            final(self).wf(),
            final(page_table).wf(),
            final(allocator).wf(),
            final(page_table).frames_live(*final(allocator)),
            final(self).frames_live(*final(allocator)),
            final(self).vpn_range == old(self).vpn_range,
            final(self).map_type == old(self).map_type,
            final(self).map_perm == old(self).map_perm,
            final(page_table).root_ppn == old(page_table).root_ppn,
            final(allocator).end == old(allocator).end,
            forall|q: u64| old(allocator).is_live(q) ==> final(allocator).is_live(q),
            forall|p: u64| old(page_table).owns_node(p) ==> final(page_table).owns_node(p),
            forall|p: u64| final(page_table).owns_node(p)
                ==> old(page_table).owns_node(p) || !old(allocator).is_live(p),
            final(allocator).avail() == old(allocator).avail()
                - old(page_table).map_cost(vpn.0) - (
            if old(self).map_type == MapType::Framed {
                1int
            } else {
                0int
            }),
            old(self).map_type == MapType::Framed ==> {
                &&& final(self).data_frames@.len() == old(self).data_frames@.len() + 1
                &&& forall|i: int| 0 <= i < old(self).data_frames@.len()
                        ==> final(self).data_frames@[i] == old(self).data_frames@[i]
                &&& !old(allocator).is_live(final(self).data_frames@.last().ppn.0)
                &&& !final(page_table).owns_node(final(self).data_frames@.last().ppn.0)
                &&& final(self).data_frames@.last().wf()
                &&& final(self).data_frames@.last().ppn.0 < 0x1000_0000_0000u64
                &&& forall|i: int| 0 <= i < final(self).data_frames@.last().bytes@.len()
                        ==> final(self).data_frames@.last().bytes@[i] == 0u8
            },
            old(self).map_type == MapType::Identical
                ==> final(self).data_frames@ == old(self).data_frames@,
            final(page_table).translate_spec(vpn.0) == Some(
                final(self).expected_pte(vpn.0 - final(self).start()),
            ),
            forall|w: u64| w < 0x800_0000u64 && w != vpn.0
                ==> final(page_table).translate_spec(w)
                    == old(page_table).translate_spec(w),
    {
        let flags = self.map_perm.as_pte_flags();
        match self.map_type {
            MapType::Identical => {
                let ok = page_table.map(allocator, vpn, PhysPageNum(vpn.0), flags);
                proof {
                    assert(ok);
                }
            },
            MapType::Framed => {
                let frame = match frame_alloc(allocator) {
                    Some(f) => f,
                    None => {
                        proof {
                            assert(false);
                        }
                        return;
                    },
                };
                let ppn = frame.ppn;
                let ghost a1 = *allocator;
                let ok = page_table.map(allocator, vpn, ppn, flags);
                proof {
                    assert(ok);
                    // The data frame cannot be a table node: it was fresh
                    // when allocated, and table nodes were live then.
                    if page_table.owns_node(ppn.0) {
                        if old(page_table).owns_node(ppn.0) {
                            crate::page_table::lemma_owned_node_live(
                                *old(page_table), *old(allocator), ppn.0);
                        }
                        assert(false);
                    }
                }
                self.data_frames.push(frame);
            },
        }
    }

    /// Map the pages `[from, end)` of the area, in ascending order, where
    /// everything before `from` is mapped already. Walk frames are shared
    /// between neighbouring pages, so the stated frame budget suffices.
    fn map_range(&mut self, page_table: &mut PageTable,
        allocator: &mut StackFrameAllocator, from: VirtPageNum)
        requires
            old(self).wf(),
            old(self).start() <= from.0 <= old(self).end(),
            old(self).map_type == MapType::Framed
                ==> old(self).data_frames@.len() == from.0 - old(self).start(),
            old(self).mapped_prefix(*old(page_table), from.0 - old(self).start()),
            old(page_table).wf(),
            old(allocator).wf(),
            old(page_table).frames_live(*old(allocator)),
            old(self).frames_live(*old(allocator)),
            forall|i: int| 0 <= i < old(self).data_frames@.len()
                ==> !old(page_table).owns_node(
                    (#[trigger] old(self).data_frames@[i]).ppn.0),
            forall|v: u64| from.0 <= v < old(self).end()
                ==> (#[trigger] old(page_table).translate_spec(v)) is None,
            old(allocator).avail() >= frames_needed(
                from.0,
                old(self).end(),
                old(self).map_type == MapType::Framed,
            ),
        ensures
            final(self).wf(),
            final(page_table).wf(),
            final(allocator).wf(),
            final(page_table).frames_live(*final(allocator)),
            final(self).frames_live(*final(allocator)),
            final(self).vpn_range == old(self).vpn_range,
            final(self).map_type == old(self).map_type,
            final(self).map_perm == old(self).map_perm,
            final(page_table).root_ppn == old(page_table).root_ppn,
            final(allocator).end == old(allocator).end,
            forall|q: u64| old(allocator).is_live(q) ==> final(allocator).is_live(q),
            final(allocator).avail() >= old(allocator).avail() - frames_needed(
                from.0,
                old(self).end(),
                old(self).map_type == MapType::Framed,
            ),
            forall|p: u64| old(page_table).owns_node(p) ==> final(page_table).owns_node(p),
            forall|p: u64| final(page_table).owns_node(p)
                ==> old(page_table).owns_node(p) || !old(allocator).is_live(p),
            forall|i: int| 0 <= i < final(self).data_frames@.len()
                ==> !final(page_table).owns_node(
                    (#[trigger] final(self).data_frames@[i]).ppn.0),
            forall|i: int| 0 <= i < old(self).data_frames@.len()
                ==> final(self).data_frames@[i] == old(self).data_frames@[i],
            forall|i: int| old(self).data_frames@.len() <= i < final(self).data_frames@.len()
                ==> !old(allocator).is_live(
                    (#[trigger] final(self).data_frames@[i]).ppn.0),
            forall|i: int, j: int|
                old(self).data_frames@.len() <= i < final(self).data_frames@.len()
                && 0 <= j < 4096
                    ==> (#[trigger] final(self).data_frames@[i].bytes@[j]) == 0u8,
            final(self).mapped_in(*final(page_table)),
            forall|w: u64| w < 0x800_0000u64 && !(from.0 <= w < old(self).end())
                ==> final(page_table).translate_spec(w)
                    == old(page_table).translate_spec(w),
    {
        let start = self.vpn_range.get_start();
        let end = self.vpn_range.get_end();
        let ghost pre_len = self.data_frames@.len() as int;
        let mut vpn = from;
        while vpn.0 < end.0
            invariant
                self.wf(),
                page_table.wf(),
                allocator.wf(),
                page_table.frames_live(*allocator),
                self.frames_live(*allocator),
                start == old(self).vpn_range.start(),
                end == old(self).vpn_range.end(),
                self.vpn_range == old(self).vpn_range,
                self.map_type == old(self).map_type,
                self.map_perm == old(self).map_perm,
                start.0 <= from.0 <= vpn.0 <= end.0,
                pre_len == old(self).data_frames@.len(),
                self.map_type == MapType::Framed
                    ==> self.data_frames@.len() == vpn.0 - start.0
                        && pre_len == from.0 - start.0,
                self.map_type == MapType::Identical ==> self.data_frames@.len() == 0,
                page_table.root_ppn == old(page_table).root_ppn,
                allocator.end == old(allocator).end,
                forall|q: u64| old(allocator).is_live(q) ==> allocator.is_live(q),
                forall|p: u64| old(page_table).owns_node(p) ==> page_table.owns_node(p),
                forall|p: u64| page_table.owns_node(p)
                    ==> old(page_table).owns_node(p) || !old(allocator).is_live(p),
                forall|i: int| 0 <= i < self.data_frames@.len()
                    ==> !page_table.owns_node(
                        (#[trigger] self.data_frames@[i]).ppn.0),
                forall|i: int| 0 <= i < pre_len
                    ==> self.data_frames@[i] == old(self).data_frames@[i],
                forall|i: int| pre_len <= i < self.data_frames@.len()
                    ==> !old(allocator).is_live(
                        (#[trigger] self.data_frames@[i]).ppn.0),
                forall|i: int, j: int|
                    pre_len <= i < self.data_frames@.len() && 0 <= j < 4096
                        ==> (#[trigger] self.data_frames@[i].bytes@[j]) == 0u8,
                forall|v2: u64| from.0 <= v2 < end.0
                    ==> (#[trigger] old(page_table).translate_spec(v2)) is None,
                self.mapped_prefix(*page_table, vpn.0 - start.0),
                forall|w: u64| w < 0x800_0000u64 && !(from.0 <= w < vpn.0)
                    ==> page_table.translate_spec(w)
                        == old(page_table).translate_spec(w),
                vpn.0 < end.0 ==> allocator.avail() >= (
                if self.map_type == MapType::Framed {
                    end.0 - vpn.0
                } else {
                    0int
                }) + ((end.0 - 1) as u64 / 512 - vpn.0 / 512) + (
                (end.0 - 1) as u64 / 262144 - vpn.0 / 262144)
                    + page_table.map_cost(vpn.0),
                allocator.avail() >= old(allocator).avail() - frames_needed(
                    from.0,
                    end.0,
                    self.map_type == MapType::Framed,
                ) + (if vpn.0 < end.0 {
                    (if self.map_type == MapType::Framed {
                        end.0 - vpn.0
                    } else {
                        0int
                    }) + ((end.0 - 1) as u64 / 512 - vpn.0 / 512) + (
                    (end.0 - 1) as u64 / 262144 - vpn.0 / 262144)
                        + page_table.map_cost(vpn.0)
                } else {
                    0int
                }),
            decreases end.0 - vpn.0,
        {
            let ghost pre_self = *self;
            let ghost pre_pt = *page_table;
            let ghost pre_alloc = *allocator;
            proof {
                lemma_map_cost_bounds(*page_table, vpn.0);
                let v = vpn.0;
                let em = (end.0 - 1) as u64;
                assert(v / 512 <= em / 512 && v / 262144 <= em / 262144) by (bit_vector)
                    requires v <= em;
                assert(page_table.translate_spec(v) == old(page_table).translate_spec(v));
                assert(old(page_table).translate_spec(v) is None);
            }
            self.map_one(page_table, allocator, vpn);
            proof {
                let v = vpn.0;
                let n = v - start.0;
                assert(page_table.translate_spec(v)
                    == Some(self.expected_pte(v - self.start())));
                // The already-mapped prefix is untouched.
                assert forall|i: int| 0 <= i < n + 1
                    implies page_table.translate_spec((self.start() + i) as u64)
                        == Some(#[trigger] self.expected_pte(i)) by {
                    if i < n {
                        if self.map_type == MapType::Framed {
                            assert(self.data_frames@[i] == pre_self.data_frames@[i]);
                        }
                        assert(self.expected_pte(i) == pre_self.expected_pte(i));
                        assert((self.start() + i) as u64 != v);
                        assert(pre_pt.translate_spec((self.start() + i) as u64)
                            == Some(pre_self.expected_pte(i)));
                    }
                }
                if self.map_type == MapType::Framed {
                    assert forall|i: int, j: int| 0 <= i < j < n + 1
                        implies self.data_frames@[i].ppn.0
                            != self.data_frames@[j].ppn.0 by {
                        if j == n {
                            assert(pre_alloc.is_live(pre_self.data_frames@[i].ppn.0));
                            assert(!pre_alloc.is_live(self.data_frames@[j].ppn.0));
                        } else {
                            assert(self.data_frames@[i] == pre_self.data_frames@[i]);
                            assert(self.data_frames@[j] == pre_self.data_frames@[j]);
                        }
                    }
                    assert(self.data_frames@.len() == n + 1);
                    assert forall|i: int, j: int|
                        pre_len <= i < self.data_frames@.len() && 0 <= j < 4096
                        implies (#[trigger] self.data_frames@[i].bytes@[j]) == 0u8 by {
                        if i < n {
                            assert(self.data_frames@[i] == pre_self.data_frames@[i]);
                        } else {
                            assert(self.data_frames@[i] == self.data_frames@.last());
                        }
                    }
                }
                assert(self.mapped_prefix(*page_table, n + 1));
                // No old or new data frame has become a table node.
                assert forall|i: int| 0 <= i < self.data_frames@.len()
                    implies !page_table.owns_node(
                        (#[trigger] self.data_frames@[i]).ppn.0) by {
                    if self.map_type == MapType::Framed && i < n {
                        assert(self.data_frames@[i] == pre_self.data_frames@[i]);
                        if page_table.owns_node(self.data_frames@[i].ppn.0) {
                            assert(pre_pt.owns_node(self.data_frames@[i].ppn.0)
                                || !pre_alloc.is_live(self.data_frames@[i].ppn.0));
                            assert(pre_alloc.is_live(self.data_frames@[i].ppn.0));
                            assert(false);
                        }
                    }
                }
                // Budget for the next page: shared walk frames cost nothing.
                if v + 1 < end.0 {
                    lemma_map_cost_bounds(*page_table, (v + 1) as u64);
                    let em = (end.0 - 1) as u64;
                    assert((v + 1) as u64 / 512 >= v / 512
                        && (v + 1) as u64 / 262144 >= v / 262144
                        && ((v + 1) as u64 / 512 - v / 512 <= 1)
                        && ((v + 1) as u64 / 262144 - v / 262144 <= 1)
                        && (v + 1) as u64 / 512 <= em / 512
                        && (v + 1) as u64 / 262144 <= em / 262144) by (bit_vector)
                        requires v < em, em < 0x800_0000u64;
                    if (v + 1) as u64 / 512 == v / 512 {
                        assert(vpn_index1((v + 1) as u64) == vpn_index1(v)
                            && vpn_index2((v + 1) as u64) == vpn_index2(v)) by (bit_vector)
                            requires (v + 1) as u64 / 512 == v / 512, v < 0x800_0000u64;
                        assert(spec_pte_valid(
                            page_table.root.entries@[vpn_index2(v) as int].bits));
                        assert(page_table.map_cost((v + 1) as u64) == 0);
                    } else if (v + 1) as u64 / 262144 == v / 262144 {
                        assert(vpn_index2((v + 1) as u64) == vpn_index2(v)) by (bit_vector)
                            requires (v + 1) as u64 / 262144 == v / 262144, v < 0x800_0000u64;
                        assert(spec_pte_valid(
                            page_table.root.entries@[vpn_index2(v) as int].bits));
                        assert(page_table.map_cost((v + 1) as u64) <= 1);
                    }
                }
            }
            vpn.0 = vpn.0 + 1;
        }
    }

    /// Map every page of the area, in ascending order.
    pub fn map(&mut self, page_table: &mut PageTable,
        allocator: &mut StackFrameAllocator)
        requires
            old(self).wf(),
            old(self).data_frames@.len() == 0,
            old(page_table).wf(),
            old(allocator).wf(),
            old(page_table).frames_live(*old(allocator)),
            forall|v: u64| old(self).holds(v)
                ==> (#[trigger] old(page_table).translate_spec(v)) is None,
            old(allocator).avail() >= frames_needed(
                old(self).start(),
                old(self).end(),
                old(self).map_type == MapType::Framed,
            ),
        ensures
            final(self).wf(),
            final(page_table).wf(),
            final(allocator).wf(),
            final(page_table).frames_live(*final(allocator)),
            final(self).frames_live(*final(allocator)),
            final(self).vpn_range == old(self).vpn_range,
            final(self).map_type == old(self).map_type,
            final(self).map_perm == old(self).map_perm,
            final(page_table).root_ppn == old(page_table).root_ppn,
            final(allocator).end == old(allocator).end,
            forall|q: u64| old(allocator).is_live(q) ==> final(allocator).is_live(q),
            final(allocator).avail() >= old(allocator).avail() - frames_needed(
                old(self).start(),
                old(self).end(),
                old(self).map_type == MapType::Framed,
            ),
            forall|p: u64| old(page_table).owns_node(p) ==> final(page_table).owns_node(p),
            forall|p: u64| final(page_table).owns_node(p)
                ==> old(page_table).owns_node(p) || !old(allocator).is_live(p),
            forall|i: int| 0 <= i < final(self).data_frames@.len()
                ==> !final(page_table).owns_node(
                    (#[trigger] final(self).data_frames@[i]).ppn.0),
            forall|i: int| 0 <= i < final(self).data_frames@.len()
                ==> !old(allocator).is_live(
                    (#[trigger] final(self).data_frames@[i]).ppn.0),
            forall|i: int, j: int|
                0 <= i < final(self).data_frames@.len() && 0 <= j < 4096
                    ==> (#[trigger] final(self).data_frames@[i].bytes@[j]) == 0u8,
            final(self).mapped_in(*final(page_table)),
            forall|w: u64| w < 0x800_0000u64 && !old(self).holds(w)
                ==> final(page_table).translate_spec(w)
                    == old(page_table).translate_spec(w),
    {
        let from = self.vpn_range.get_start();
        self.map_range(page_table, allocator, from);
    }

    /// Unmap the last still-mapped page of the area: clear its leaf entry
    /// and, for a framed area, return the page's frame to the allocator.
    pub fn unmap_one(&mut self, page_table: &mut PageTable,
        allocator: &mut StackFrameAllocator, vpn: VirtPageNum)
        requires
            old(self).wf(),
            old(page_table).wf(),
            old(allocator).wf(),
            old(page_table).frames_live(*old(allocator)),
            old(self).frames_live(*old(allocator)),
            old(self).holds(vpn.0),
            old(self).map_type == MapType::Framed ==> {
                &&& old(self).data_frames@.len() > 0
                &&& vpn.0 == old(self).start() + old(self).data_frames@.len() - 1
                &&& !old(page_table).owns_node(old(self).data_frames@.last().ppn.0)
                &&& forall|i: int, j: int|
                        0 <= i < j < old(self).data_frames@.len()
                            ==> old(self).data_frames@[i].ppn.0
                                != old(self).data_frames@[j].ppn.0
            },
        ensures
            final(self).wf(),
            final(page_table).wf(),
            final(allocator).wf(),
            final(page_table).frames_live(*final(allocator)),
            final(self).frames_live(*final(allocator)),
            final(self).vpn_range == old(self).vpn_range,
            final(self).map_type == old(self).map_type,
            final(self).map_perm == old(self).map_perm,
            final(page_table).root_ppn == old(page_table).root_ppn,
            final(page_table).root.entries@ == old(page_table).root.entries@,
            final(allocator).end == old(allocator).end,
            forall|p: u64| final(page_table).owns_node(p)
                == old(page_table).owns_node(p),
            old(self).map_type == MapType::Framed ==> {
                &&& final(self).data_frames@ == old(self).data_frames@.drop_last()
                &&& forall|q: u64| final(allocator).is_live(q)
                        <==> (old(allocator).is_live(q)
                            && q != old(self).data_frames@.last().ppn.0)
            },
            old(self).map_type == MapType::Identical ==> {
                &&& final(self).data_frames@ == old(self).data_frames@
                &&& final(allocator).current == old(allocator).current
                &&& final(allocator).recycled@ == old(allocator).recycled@
            },
            final(page_table).translate_spec(vpn.0) is None,
            forall|w: u64| w < 0x800_0000u64 && w != vpn.0
                ==> final(page_table).translate_spec(w)
                    == old(page_table).translate_spec(w),
    {
        if let MapType::Framed = self.map_type {
            let frame = match self.data_frames.pop() {
                Some(f) => f,
                None => {
                    proof {
                        assert(false);
                    }
                    return;
                },
            };
            proof {
                crate::page_table::lemma_not_owned_differs(*old(page_table), frame.ppn.0);
            }
            allocator.dealloc(frame.ppn);
        }
        page_table.unmap(vpn);
    }

    /// Unmap the pages `[new_end, end)` of a fully mapped area, last page
    /// first, returning the frames of a framed area to the allocator. The
    /// recorded range is left untouched.
    fn unmap_from(&mut self, page_table: &mut PageTable,
        allocator: &mut StackFrameAllocator, new_end: VirtPageNum)
        requires
            old(self).wf(),
            old(self).start() <= new_end.0 <= old(self).end(),
            old(self).mapped_in(*old(page_table)),
            old(page_table).wf(),
            old(allocator).wf(),
            old(page_table).frames_live(*old(allocator)),
            old(self).frames_live(*old(allocator)),
            forall|i: int| 0 <= i < old(self).data_frames@.len()
                ==> !old(page_table).owns_node(
                    (#[trigger] old(self).data_frames@[i]).ppn.0),
        ensures
            final(self).wf(),
            final(page_table).wf(),
            final(allocator).wf(),
            final(page_table).frames_live(*final(allocator)),
            final(self).frames_live(*final(allocator)),
            final(self).vpn_range == old(self).vpn_range,
            final(self).map_type == old(self).map_type,
            final(self).map_perm == old(self).map_perm,
            final(page_table).root_ppn == old(page_table).root_ppn,
            final(allocator).end == old(allocator).end,
            forall|p: u64| final(page_table).owns_node(p)
                == old(page_table).owns_node(p),
            old(self).map_type == MapType::Framed ==> final(self).data_frames@
                == old(self).data_frames@.take(new_end.0 - old(self).start()),
            old(self).map_type == MapType::Identical
                ==> final(self).data_frames@ == old(self).data_frames@,
            final(self).mapped_prefix(*final(page_table), new_end.0 - old(self).start()),
            forall|w: u64| new_end.0 <= w < old(self).end()
                ==> (#[trigger] final(page_table).translate_spec(w)) is None,
            forall|w: u64| w < 0x800_0000u64 && !(new_end.0 <= w < old(self).end())
                ==> final(page_table).translate_spec(w)
                    == old(page_table).translate_spec(w),
            forall|q: u64| final(allocator).is_live(q)
                <==> (old(allocator).is_live(q) && (old(self).map_type == MapType::Framed
                    ==> forall|i: int|
                        new_end.0 - old(self).start() <= i < old(self).data_frames@.len()
                            ==> q != (#[trigger] old(self).data_frames@[i]).ppn.0)),
    {
        let start = self.vpn_range.get_start();
        let end = self.vpn_range.get_end();
        let ghost entry_self = *self;
        let mut cur = end;
        while cur.0 > new_end.0
            invariant
                self.wf(),
                page_table.wf(),
                allocator.wf(),
                page_table.frames_live(*allocator),
                self.frames_live(*allocator),
                start == old(self).vpn_range.start(),
                end == old(self).vpn_range.end(),
                self.vpn_range == old(self).vpn_range,
                self.map_type == old(self).map_type,
                self.map_perm == old(self).map_perm,
                start.0 <= new_end.0 <= cur.0 <= end.0,
                page_table.root_ppn == old(page_table).root_ppn,
                allocator.end == old(allocator).end,
                forall|p: u64| page_table.owns_node(p) == old(page_table).owns_node(p),
                self.map_type == MapType::Framed
                    ==> self.data_frames@.len() == cur.0 - start.0,
                forall|i: int| 0 <= i < self.data_frames@.len()
                    ==> self.data_frames@[i] == old(self).data_frames@[i],
                self.data_frames@.len() <= old(self).data_frames@.len(),
                self.mapped_prefix(*page_table, cur.0 - start.0),
                forall|i: int| 0 <= i < self.data_frames@.len()
                    ==> !page_table.owns_node(
                        (#[trigger] self.data_frames@[i]).ppn.0),
                forall|w: u64| cur.0 <= w < end.0
                    ==> (#[trigger] page_table.translate_spec(w)) is None,
                forall|w: u64| w < 0x800_0000u64 && !(cur.0 <= w < end.0)
                    ==> page_table.translate_spec(w)
                        == old(page_table).translate_spec(w),
                forall|q: u64| allocator.is_live(q)
                    <==> (old(allocator).is_live(q)
                        && (self.map_type == MapType::Framed
                            ==> forall|i: int|
                                cur.0 - start.0 <= i < old(self).data_frames@.len()
                                    ==> q != (
                                    #[trigger] old(self).data_frames@[i]).ppn.0)),
            decreases cur.0 - new_end.0,
        {
            let ghost pre_self = *self;
            let ghost pre_pt = *page_table;
            let ghost pre_alloc = *allocator;
            cur.0 = cur.0 - 1;
            proof {
                if self.map_type == MapType::Framed {
                    assert(self.data_frames@.len() == cur.0 + 1 - start.0);
                    assert(self.data_frames@.last()
                        == self.data_frames@[cur.0 - start.0]);
                    assert(self.data_frames@.last()
                        == old(self).data_frames@[cur.0 - start.0]);
                }
            }
            self.unmap_one(page_table, allocator, cur);
            proof {
                let k = cur.0 - start.0;
                if self.map_type == MapType::Framed {
                    assert(self.data_frames@.len() == k);
                    assert(forall|i: int| 0 <= i < k
                        ==> self.data_frames@[i] == pre_self.data_frames@[i]);
                }
                assert forall|i: int| 0 <= i < k
                    implies page_table.translate_spec((self.start() + i) as u64)
                        == Some(#[trigger] self.expected_pte(i)) by {
                    assert(self.expected_pte(i) == pre_self.expected_pte(i));
                    assert((self.start() + i) as u64 != cur.0);
                    assert(pre_pt.translate_spec((self.start() + i) as u64)
                        == Some(pre_self.expected_pte(i)));
                }
                assert(self.mapped_prefix(*page_table, k));
            }
        }
        proof {
            if self.map_type == MapType::Framed {
                assert(self.data_frames@
                    =~= old(self).data_frames@.take(new_end.0 - old(self).start()));
            } else {
                assert(self.data_frames@ =~= old(self).data_frames@);
            }
        }
    }

    /// Unmap every page of the area, freeing a framed area's frames.
    pub fn unmap(&mut self, page_table: &mut PageTable,
        allocator: &mut StackFrameAllocator)
        requires
            old(self).wf(),
            old(self).mapped_in(*old(page_table)),
            old(page_table).wf(),
            old(allocator).wf(),
            old(page_table).frames_live(*old(allocator)),
            old(self).frames_live(*old(allocator)),
            forall|i: int| 0 <= i < old(self).data_frames@.len()
                ==> !old(page_table).owns_node(
                    (#[trigger] old(self).data_frames@[i]).ppn.0),
        ensures
            final(self).wf(),
            final(page_table).wf(),
            final(allocator).wf(),
            final(page_table).frames_live(*final(allocator)),
            final(self).vpn_range == old(self).vpn_range,
            final(self).map_type == old(self).map_type,
            final(self).map_perm == old(self).map_perm,
            final(self).data_frames@.len() == 0,
            final(page_table).root_ppn == old(page_table).root_ppn,
            final(allocator).end == old(allocator).end,
            forall|p: u64| final(page_table).owns_node(p)
                == old(page_table).owns_node(p),
            forall|w: u64| old(self).holds(w)
                ==> (#[trigger] final(page_table).translate_spec(w)) is None,
            forall|w: u64| w < 0x800_0000u64 && !old(self).holds(w)
                ==> final(page_table).translate_spec(w)
                    == old(page_table).translate_spec(w),
            forall|q: u64| final(allocator).is_live(q)
                <==> (old(allocator).is_live(q) && (old(self).map_type == MapType::Framed
                    ==> forall|i: int| 0 <= i < old(self).data_frames@.len()
                        ==> q != (#[trigger] old(self).data_frames@[i]).ppn.0)),
    {
        let new_end = self.vpn_range.get_start();
        self.unmap_from(page_table, allocator, new_end);
        proof {
            if self.map_type == MapType::Framed {
                assert(self.data_frames@ =~= Seq::<FrameTracker>::empty());
            }
        }
    }

    /// Move the area's high end down to `new_end`, unmapping the pages cut
    /// off and freeing their frames.
    pub fn shrink_to(&mut self, page_table: &mut PageTable,
        allocator: &mut StackFrameAllocator, new_end: VirtPageNum)
        requires
            old(self).wf(),
            old(self).start() <= new_end.0 <= old(self).end(),
            old(self).mapped_in(*old(page_table)),
            old(page_table).wf(),
            old(allocator).wf(),
            old(page_table).frames_live(*old(allocator)),
            old(self).frames_live(*old(allocator)),
            forall|i: int| 0 <= i < old(self).data_frames@.len()
                ==> !old(page_table).owns_node(
                    (#[trigger] old(self).data_frames@[i]).ppn.0),
        ensures
            final(self).wf(),
            final(page_table).wf(),
            final(allocator).wf(),
            final(page_table).frames_live(*final(allocator)),
            final(self).frames_live(*final(allocator)),
            final(self).start() == old(self).start(),
            final(self).end() == new_end.0,
            final(self).map_type == old(self).map_type,
            final(self).map_perm == old(self).map_perm,
            final(page_table).root_ppn == old(page_table).root_ppn,
            final(allocator).end == old(allocator).end,
            forall|p: u64| final(page_table).owns_node(p)
                == old(page_table).owns_node(p),
            forall|i: int| 0 <= i < final(self).data_frames@.len()
                ==> !final(page_table).owns_node(
                    (#[trigger] final(self).data_frames@[i]).ppn.0),
            final(self).mapped_in(*final(page_table)),
            old(self).map_type == MapType::Framed ==> final(self).data_frames@
                == old(self).data_frames@.take(new_end.0 - old(self).start()),
            old(self).map_type == MapType::Identical
                ==> final(self).data_frames@ == old(self).data_frames@,
            forall|w: u64| new_end.0 <= w < old(self).end()
                ==> (#[trigger] final(page_table).translate_spec(w)) is None,
            forall|w: u64| w < 0x800_0000u64 && !(new_end.0 <= w < old(self).end())
                ==> final(page_table).translate_spec(w)
                    == old(page_table).translate_spec(w),
            forall|q: u64| final(allocator).is_live(q)
                <==> (old(allocator).is_live(q) && (old(self).map_type == MapType::Framed
                    ==> forall|i: int|
                        new_end.0 - old(self).start() <= i < old(self).data_frames@.len()
                            ==> q != (#[trigger] old(self).data_frames@[i]).ppn.0)),
    {
        self.unmap_from(page_table, allocator, new_end);
        let ghost pre = *self;
        let start = self.vpn_range.get_start();
        self.vpn_range = VPNRange::new(start, new_end);
        proof {
            assert(forall|i: int| #![trigger self.expected_pte(i)]
                self.expected_pte(i) == pre.expected_pte(i));
            assert(self.mapped_in(*page_table));
        }
    }

    /// Move the area's high end up to `new_end`, mapping the added pages.
    pub fn append_to(&mut self, page_table: &mut PageTable,
        allocator: &mut StackFrameAllocator, new_end: VirtPageNum)
        requires
            old(self).wf(),
            old(self).end() <= new_end.0 <= 0x800_0000u64,
            old(self).mapped_in(*old(page_table)),
            old(page_table).wf(),
            old(allocator).wf(),
            old(page_table).frames_live(*old(allocator)),
            old(self).frames_live(*old(allocator)),
            forall|i: int| 0 <= i < old(self).data_frames@.len()
                ==> !old(page_table).owns_node(
                    (#[trigger] old(self).data_frames@[i]).ppn.0),
            forall|v: u64| old(self).end() <= v < new_end.0
                ==> (#[trigger] old(page_table).translate_spec(v)) is None,
            old(allocator).avail() >= frames_needed(
                old(self).end(),
                new_end.0,
                old(self).map_type == MapType::Framed,
            ),
        ensures
            final(self).wf(),
            final(page_table).wf(),
            final(allocator).wf(),
            final(page_table).frames_live(*final(allocator)),
            final(self).frames_live(*final(allocator)),
            final(self).start() == old(self).start(),
            final(self).end() == new_end.0,
            final(self).map_type == old(self).map_type,
            final(self).map_perm == old(self).map_perm,
            final(page_table).root_ppn == old(page_table).root_ppn,
            final(allocator).end == old(allocator).end,
            forall|q: u64| old(allocator).is_live(q) ==> final(allocator).is_live(q),
            final(allocator).avail() >= old(allocator).avail() - frames_needed(
                old(self).end(),
                new_end.0,
                old(self).map_type == MapType::Framed,
            ),
            forall|p: u64| old(page_table).owns_node(p) ==> final(page_table).owns_node(p),
            forall|p: u64| final(page_table).owns_node(p)
                ==> old(page_table).owns_node(p) || !old(allocator).is_live(p),
            forall|i: int| 0 <= i < final(self).data_frames@.len()
                ==> !final(page_table).owns_node(
                    (#[trigger] final(self).data_frames@[i]).ppn.0),
            forall|i: int| 0 <= i < old(self).data_frames@.len()
                ==> final(self).data_frames@[i] == old(self).data_frames@[i],
            forall|i: int| old(self).data_frames@.len() <= i < final(self).data_frames@.len()
                ==> !old(allocator).is_live(
                    (#[trigger] final(self).data_frames@[i]).ppn.0),
            final(self).mapped_in(*final(page_table)),
            forall|w: u64| w < 0x800_0000u64 && !(old(self).end() <= w < new_end.0)
                ==> final(page_table).translate_spec(w)
                    == old(page_table).translate_spec(w),
    {
        let ghost pre = *self;
        let start = self.vpn_range.get_start();
        let old_end = self.vpn_range.get_end();
        self.vpn_range = VPNRange::new(start, new_end);
        proof {
            assert(forall|i: int| #![trigger self.expected_pte(i)]
                self.expected_pte(i) == pre.expected_pte(i));
            assert(self.mapped_prefix(*page_table, old_end.0 - self.start()));
        }
        self.map_range(page_table, allocator, old_end);
    }

    /// The byte at offset `off` of the frame backing page `vpn`.
    pub open spec fn frame_byte(&self, vpn: u64, off: int) -> u8 {
        self.data_frames@[vpn - self.start()].bytes@[off]
    }

    /// Copy `data` into the frames backing a mapped framed area, starting
    /// at the area's first page, at most one page at a time; bytes past the
    /// end of `data` keep their value.
    pub fn copy_data(&mut self, page_table: &PageTable, data: &[u8])
        requires
            old(self).wf(),
            old(self).map_type == MapType::Framed,
            old(self).mapped_in(*page_table),
            data@.len() <= (old(self).end() - old(self).start()) * PAGE_SIZE,
        ensures
            final(self).wf(),
            final(self).vpn_range == old(self).vpn_range,
            final(self).map_type == old(self).map_type,
            final(self).map_perm == old(self).map_perm,
            final(self).data_frames@.len() == old(self).data_frames@.len(),
            forall|i: int| 0 <= i < final(self).data_frames@.len() ==> {
                &&& (#[trigger] final(self).data_frames@[i]).ppn
                        == old(self).data_frames@[i].ppn
                &&& final(self).data_frames@[i].bytes@.len()
                        == old(self).data_frames@[i].bytes@.len()
            },
            final(self).mapped_in(*page_table),
            forall|k: int| 0 <= k < data@.len()
                ==> final(self).data_frames@[k / (PAGE_SIZE as int)].bytes@[
                    k % (PAGE_SIZE as int)] == data@[k],
            forall|i: int, j: int|
                0 <= i < final(self).data_frames@.len() && 0 <= j < 4096
                    && i * (PAGE_SIZE as int) + j >= data@.len()
                    ==> final(self).data_frames@[i].bytes@[j]
                        == old(self).data_frames@[i].bytes@[j],
    {
        let len = data.len();
        let mut k: usize = 0;
        while k < len
            invariant
                self.wf(),
                self.vpn_range == old(self).vpn_range,
                self.map_type == MapType::Framed,
                self.map_type == old(self).map_type,
                self.map_perm == old(self).map_perm,
                self.data_frames@.len() == old(self).data_frames@.len(),
                len == data@.len(),
                k <= len,
                len <= (self.end() - self.start()) * PAGE_SIZE,
                forall|i: int| 0 <= i < self.data_frames@.len() ==> {
                    &&& (#[trigger] self.data_frames@[i]).ppn
                            == old(self).data_frames@[i].ppn
                    &&& self.data_frames@[i].bytes@.len()
                            == old(self).data_frames@[i].bytes@.len()
                    &&& self.data_frames@[i].wf()
                },
                self.mapped_in(*page_table),
                forall|k2: int| 0 <= k2 < k
                    ==> self.data_frames@[k2 / (PAGE_SIZE as int)].bytes@[
                        k2 % (PAGE_SIZE as int)] == data@[k2],
                forall|i: int, j: int|
                    0 <= i < self.data_frames@.len() && 0 <= j < 4096
                        && i * (PAGE_SIZE as int) + j >= k
                        ==> self.data_frames@[i].bytes@[j]
                            == old(self).data_frames@[i].bytes@[j],
            decreases len - k,
        {
            let ghost pre_self = *self;
            let page: usize = k / 4096;
            let off: usize = k % 4096;
            proof {
                assert(0 <= k as int / 4096 < self.data_frames@.len()
                    && k as int % 4096 == off as int && k as int / 4096 == page as int) by (
                nonlinear_arith)
                    requires
                        0 <= k < len,
                        len <= (self.end() - self.start()) * 4096,
                        self.data_frames@.len() == self.end() - self.start(),
                        page == k / 4096,
                        off == k % 4096,
                ;
            }
            let b = data[k];
            self.data_frames[page].bytes[off] = b;
            proof {
                assert forall|k2: int| 0 <= k2 < k + 1
                    implies self.data_frames@[k2 / (PAGE_SIZE as int)].bytes@[
                        k2 % (PAGE_SIZE as int)] == data@[k2] by {
                    assert(0 <= k2 / 4096 < self.data_frames@.len()
                        && 0 <= k2 % 4096 < 4096) by (nonlinear_arith)
                        requires 0 <= k2 <= k, 0 <= k as int / 4096 < self.data_frames@.len();
                    if k2 < k {
                        if k2 / 4096 != page as int {
                            assert(self.data_frames@[k2 / 4096]
                                == pre_self.data_frames@[k2 / 4096]);
                        } else if k2 % 4096 != off as int {
                        } else {
                            assert(k2 == k) by (nonlinear_arith)
                                requires
                                    k2 / 4096 == k as int / 4096,
                                    k2 % 4096 == k as int % 4096,
                                    k2 >= 0,
                                    k >= 0,
                            ;
                        }
                    }
                }
                assert forall|i: int, j: int|
                    0 <= i < self.data_frames@.len() && 0 <= j < 4096
                        && i * (PAGE_SIZE as int) + j >= k + 1
                    implies self.data_frames@[i].bytes@[j]
                        == old(self).data_frames@[i].bytes@[j] by {
                    if i == page as int && j == off as int {
                        assert(i * 4096 + j == k) by (nonlinear_arith)
                            requires i == k as int / 4096, j == k as int % 4096, k >= 0;
                    } else if i == page as int {
                        assert(self.data_frames@[i].bytes@[j]
                            == pre_self.data_frames@[i].bytes@[j]);
                    } else {
                        assert(self.data_frames@[i] == pre_self.data_frames@[i]);
                    }
                }
                assert forall|i: int| 0 <= i < self.data_frames@.len()
                    implies page_table.translate_spec((self.start() + i) as u64)
                        == Some(#[trigger] self.expected_pte(i)) by {
                    assert(self.data_frames@[i].ppn == pre_self.data_frames@[i].ppn);
                    assert(self.expected_pte(i) == pre_self.expected_pte(i));
                }
            }
            k = k + 1;
        }
    }
}

/// The virtual page number of the trampoline page: the highest page of
/// the 39-bit address space.
pub open spec fn trampoline_vpn() -> u64 {
    0x7FF_FFFFu64
}

/// An address space: a page table plus the map areas mapped through it.
/// The trampoline page is mapped directly, outside any area.
pub struct MemorySet {
    /// The Sv39 table realising the space.
    pub page_table: PageTable,
    /// The areas mapped in the space, pairwise disjoint.
    pub areas: Vec<MapArea>,
    /// The physical page the trampoline maps to, once mapped.
    pub trampoline: Ghost<Option<PhysPageNum>>,
}

impl MemorySet {
    /// The address space's invariant: a well-formed table; well-formed,
    /// pairwise disjoint areas, each fully mapped with its permissions and
    /// each backing frame recorded exactly once; the trampoline mapped
    /// read-execute outside every area; nothing else mapped; and no frame
    /// owned twice, neither between areas nor between an area and the
    /// table's own nodes.
    pub open spec fn wf(&self) -> bool {
        &&& self.page_table.wf()
        &&& forall|a: int| 0 <= a < self.areas@.len() ==> (#[trigger] self.areas@[a]).wf()
        &&& forall|a: int| 0 <= a < self.areas@.len()
                ==> (#[trigger] self.areas@[a]).mapped_in(self.page_table)
        &&& forall|a: int, b: int| 0 <= a < b < self.areas@.len()
                ==> self.areas@[a].end() <= self.areas@[b].start()
                    || self.areas@[b].end() <= self.areas@[a].start()
        &&& forall|a: int| 0 <= a < self.areas@.len()
                ==> !(#[trigger] self.areas@[a]).holds(trampoline_vpn())
        &&& match self.trampoline@ {
                Some(p) => p.0 < 0x1000_0000_0000u64
                    && self.page_table.translate_spec(trampoline_vpn()) == Some(
                    (PageTableEntry { bits: spec_pte_new(p.0, 11u8) }),
                ),
                None => self.page_table.translate_spec(trampoline_vpn()) is None,
            }
        &&& forall|w: u64|
                w < 0x800_0000u64 && (#[trigger] self.page_table.translate_spec(w)) is Some
                    ==> (w == trampoline_vpn() && self.trampoline@ is Some) || exists|a: int|
                        0 <= a < self.areas@.len() && (#[trigger] self.areas@[a]).holds(w)
        &&& forall|a: int, i: int|
                0 <= a < self.areas@.len() && 0 <= i < self.areas@[a].data_frames@.len()
                    ==> !self.page_table.owns_node(
                        (#[trigger] self.areas@[a].data_frames@[i]).ppn.0,
                    )
        &&& forall|a: int, i: int, b: int, j: int|
                0 <= a < self.areas@.len() && 0 <= i < self.areas@[a].data_frames@.len()
                && 0 <= b < self.areas@.len() && 0 <= j < self.areas@[b].data_frames@.len()
                && (a != b || i != j)
                    ==> (#[trigger] self.areas@[a].data_frames@[i]).ppn.0
                        != (#[trigger] self.areas@[b].data_frames@[j]).ppn.0
    }

    /// Every frame the space owns, table nodes and data frames alike, is
    /// live in the allocator.
    pub open spec fn frames_live(&self, al: StackFrameAllocator) -> bool {
        &&& self.page_table.frames_live(al)
        &&& forall|a: int| 0 <= a < self.areas@.len()
                ==> (#[trigger] self.areas@[a]).frames_live(al)
    }

    /// An empty address space: a fresh root table, no areas, nothing
    /// mapped.
    pub fn new_bare(allocator: &mut StackFrameAllocator) -> (r: MemorySet)
        requires
            old(allocator).wf(),
            old(allocator).avail() >= 1,
        ensures
            final(allocator).wf(),
            final(allocator).end == old(allocator).end,
            final(allocator).avail() == old(allocator).avail() - 1,
            forall|q: u64| old(allocator).is_live(q) ==> final(allocator).is_live(q),
            r.wf(),
            r.frames_live(*final(allocator)),
            r.areas@.len() == 0,
            r.trampoline@ is None,
            forall|w: u64| r.page_table.translate_spec(w) is None,
            !old(allocator).is_live(r.page_table.root_ppn.0),
    {
        let page_table = match PageTable::new(allocator) {
            Some(pt) => pt,
            None => {
                proof {
                    assert(false);
                }
                return MemorySet {
                    page_table: PageTable::from_token(0),
                    areas: Vec::new(),
                    trampoline: Ghost(None),
                };
            },
        };
        MemorySet { page_table, areas: Vec::new(), trampoline: Ghost(None) }
    }

    /// The `satp` token selecting this space.
    pub fn token(&self) -> (r: u64)
        requires
            self.wf(),
        ensures
            r == 0x8000_0000_0000_0000u64 + self.page_table.root_ppn.0,
            r >> 60 == 8,
            r % 0x1000_0000_0000u64 == self.page_table.root_ppn.0,
    {
        self.page_table.token()
    }

    /// The leaf entry a page translates to in this space, if any.
    pub fn translate(&self, vpn: VirtPageNum) -> (r: Option<PageTableEntry>)
        requires
            self.wf(),
        ensures
            r == self.page_table.translate_spec(vpn.0),
    {
        self.page_table.translate(vpn)
    }

    /// Map the trampoline page, outside the area list: the highest virtual
    /// page, read-execute, onto the physical page holding the trampoline
    /// code.
    pub fn map_trampoline(&mut self, allocator: &mut StackFrameAllocator,
        strampoline: PhysAddr)
        requires
            old(self).wf(),
            old(allocator).wf(),
            old(self).frames_live(*old(allocator)),
            old(self).trampoline@ is None,
            strampoline.0 % PAGE_SIZE == 0,
            strampoline.0 < 0x100_0000_0000_0000u64,
            old(allocator).avail() >= 2,
        ensures
            final(self).wf(),
            final(allocator).wf(),
            final(self).frames_live(*final(allocator)),
            final(allocator).end == old(allocator).end,
            final(allocator).avail() >= old(allocator).avail() - 2,
            forall|q: u64| old(allocator).is_live(q) ==> final(allocator).is_live(q),
            final(self).page_table.root_ppn == old(self).page_table.root_ppn,
            final(self).areas@ == old(self).areas@,
            final(self).trampoline@ == Some(PhysPageNum(strampoline.0 / PAGE_SIZE)),
            final(self).page_table.translate_spec(trampoline_vpn()) == Some(
                (PageTableEntry {
                    bits: spec_pte_new(strampoline.0 / PAGE_SIZE, 11u8),
                }),
            ),
            forall|w: u64| w < 0x800_0000u64 && w != trampoline_vpn()
                ==> final(self).page_table.translate_spec(w)
                    == old(self).page_table.translate_spec(w),
    {
        let vpn = VirtAddr::from_u64(crate::config::TRAMPOLINE).floor();
        proof {
            assert(vpn.0 == trampoline_vpn());
        }
        let ppn = strampoline.page_num();
        let ghost pre_pt = self.page_table;
        let ok = self.page_table.map(allocator, vpn, ppn, PTEFlags(PTE_R | PTE_X));
        proof {
            assert(ok);
            assert((2u8 | 8u8) | 1u8 == 11u8) by (bit_vector);
        }
        self.trampoline = Ghost(Some(ppn));
        proof {
            assert forall|a: int| 0 <= a < self.areas@.len()
                implies (#[trigger] self.areas@[a]).mapped_in(self.page_table) by {
                assert forall|i: int| 0 <= i < self.areas@[a].end() - self.areas@[a].start()
                    implies self.page_table.translate_spec(
                        (self.areas@[a].start() + i) as u64)
                        == Some(#[trigger] self.areas@[a].expected_pte(i)) by {
                    assert((self.areas@[a].start() + i) as u64 != trampoline_vpn());
                    assert(pre_pt.translate_spec((self.areas@[a].start() + i) as u64)
                        == Some(self.areas@[a].expected_pte(i)));
                }
            }
            assert forall|a: int, i: int|
                0 <= a < self.areas@.len() && 0 <= i < self.areas@[a].data_frames@.len()
                implies !self.page_table.owns_node(
                    (#[trigger] self.areas@[a].data_frames@[i]).ppn.0) by {
                if self.page_table.owns_node(self.areas@[a].data_frames@[i].ppn.0) {
                    assert(old(allocator).is_live(self.areas@[a].data_frames@[i].ppn.0));
                    assert(false);
                }
            }
            assert(self.wf());
        }
    }

    /// Map an area into the space, optionally copying initial data into a
    /// framed area's frames, and record it in the area list.
    fn push(&mut self, allocator: &mut StackFrameAllocator, map_area: MapArea,
        data: Option<&[u8]>)
        requires
            old(self).wf(),
            old(allocator).wf(),
            old(self).frames_live(*old(allocator)),
            map_area.wf(),
            map_area.data_frames@.len() == 0,
            forall|a: int| 0 <= a < old(self).areas@.len()
                ==> (#[trigger] old(self).areas@[a]).end() <= map_area.start()
                    || map_area.end() <= old(self).areas@[a].start(),
            !map_area.holds(trampoline_vpn()),
            old(allocator).avail() >= frames_needed(
                map_area.start(),
                map_area.end(),
                map_area.map_type == MapType::Framed,
            ),
            data is Some ==> map_area.map_type == MapType::Framed
                && data->Some_0@.len() <= (map_area.end() - map_area.start()) * PAGE_SIZE,
        ensures
            final(self).wf(),
            final(allocator).wf(),
            final(self).frames_live(*final(allocator)),
            final(allocator).end == old(allocator).end,
            forall|q: u64| old(allocator).is_live(q) ==> final(allocator).is_live(q),
            final(allocator).avail() >= old(allocator).avail() - frames_needed(
                map_area.start(),
                map_area.end(),
                map_area.map_type == MapType::Framed,
            ),
            final(self).page_table.root_ppn == old(self).page_table.root_ppn,
            final(self).trampoline@ == old(self).trampoline@,
            final(self).areas@.len() == old(self).areas@.len() + 1,
            forall|a: int| 0 <= a < old(self).areas@.len()
                ==> final(self).areas@[a] == old(self).areas@[a],
            final(self).areas@.last().vpn_range == map_area.vpn_range,
            final(self).areas@.last().map_type == map_area.map_type,
            final(self).areas@.last().map_perm == map_area.map_perm,
            final(self).areas@.last().mapped_in(final(self).page_table),
            forall|w: u64| w < 0x800_0000u64 && !map_area.holds(w)
                ==> final(self).page_table.translate_spec(w)
                    == old(self).page_table.translate_spec(w),
            data is Some ==> forall|k: int| 0 <= k < data->Some_0@.len()
                ==> final(self).areas@.last().data_frames@[
                    k / (PAGE_SIZE as int)].bytes@[k % (PAGE_SIZE as int)]
                    == data->Some_0@[k],
            forall|i: int, j: int|
                0 <= i < final(self).areas@.last().data_frames@.len() && 0 <= j < 4096
                && i * (PAGE_SIZE as int) + j >= spec_data_len(data)
                    ==> final(self).areas@.last().data_frames@[i].bytes@[j] == 0u8,
    {
        let mut map_area = map_area;
        let ghost pre_pt = self.page_table;
        proof {
            assert forall|v: u64| map_area.holds(v)
                implies (#[trigger] self.page_table.translate_spec(v)) is None by {
                if self.page_table.translate_spec(v) is Some {
                    assert(v == trampoline_vpn() && self.trampoline@ is Some
                        || exists|a: int| 0 <= a < self.areas@.len()
                            && (#[trigger] self.areas@[a]).holds(v));
                    if v != trampoline_vpn() || self.trampoline@ is None {
                        let a = choose|a: int| 0 <= a < self.areas@.len()
                            && (#[trigger] self.areas@[a]).holds(v);
                        assert(self.areas@[a].end() <= map_area.start()
                            || map_area.end() <= self.areas@[a].start());
                    }
                    assert(false);
                }
            }
        }
        map_area.map(&mut self.page_table, allocator);
        if let Some(bytes) = data {
            map_area.copy_data(&self.page_table, bytes);
        }
        let ghost new_area = map_area;
        let ghost mid_pt = self.page_table;
        self.areas.push(map_area);
        proof {
            let n = self.areas@.len() - 1;
            assert(self.areas@[n] == new_area);
            assert(forall|a: int| 0 <= a < n ==> self.areas@[a] == old(self).areas@[a]);
            // Old areas stay mapped: their pages lie outside the new range.
            assert forall|a: int| 0 <= a < self.areas@.len()
                implies (#[trigger] self.areas@[a]).mapped_in(self.page_table) by {
                if a < n {
                    assert forall|i: int|
                        0 <= i < self.areas@[a].end() - self.areas@[a].start()
                        implies self.page_table.translate_spec(
                            (self.areas@[a].start() + i) as u64)
                            == Some(#[trigger] self.areas@[a].expected_pte(i)) by {
                        assert(!map_area.holds((self.areas@[a].start() + i) as u64));
                        assert(pre_pt.translate_spec((self.areas@[a].start() + i) as u64)
                            == Some(self.areas@[a].expected_pte(i)));
                    }
                }
            }
            // The trampoline entry is outside the new range too.
            assert(!map_area.holds(trampoline_vpn()));
            // Nothing beyond the old mappings and the new range is mapped.
            assert forall|w: u64|
                w < 0x800_0000u64 && (#[trigger] self.page_table.translate_spec(w)) is Some
                implies (w == trampoline_vpn() && self.trampoline@ is Some) || exists|a: int|
                    0 <= a < self.areas@.len() && (#[trigger] self.areas@[a]).holds(w) by {
                if map_area.holds(w) {
                    assert(self.areas@[n].holds(w));
                } else {
                    assert(pre_pt.translate_spec(w) is Some);
                    if !(w == trampoline_vpn() && self.trampoline@ is Some) {
                        let a = choose|a: int| 0 <= a < old(self).areas@.len()
                            && (#[trigger] old(self).areas@[a]).holds(w);
                        assert(self.areas@[a].holds(w));
                    }
                }
            }
            // Frame disjointness: fresh frames against live ones.
            assert forall|a: int, i: int|
                0 <= a < self.areas@.len() && 0 <= i < self.areas@[a].data_frames@.len()
                implies !self.page_table.owns_node(
                    (#[trigger] self.areas@[a].data_frames@[i]).ppn.0) by {
                if a < n {
                    let p = self.areas@[a].data_frames@[i].ppn.0;
                    if self.page_table.owns_node(p) {
                        assert(old(self).areas@[a].frames_live(*old(allocator)));
                        assert(old(allocator).is_live(p));
                        assert(false);
                    }
                }
            }
            assert forall|a: int, i: int, b: int, j: int|
                0 <= a < self.areas@.len() && 0 <= i < self.areas@[a].data_frames@.len()
                && 0 <= b < self.areas@.len() && 0 <= j < self.areas@[b].data_frames@.len()
                && (a != b || i != j)
                implies (#[trigger] self.areas@[a].data_frames@[i]).ppn.0
                    != (#[trigger] self.areas@[b].data_frames@[j]).ppn.0 by {
                if a == n && b < n {
                    assert(old(allocator).is_live(self.areas@[b].data_frames@[j].ppn.0));
                    assert(!old(allocator).is_live(self.areas@[a].data_frames@[i].ppn.0));
                } else if b == n && a < n {
                    assert(old(allocator).is_live(self.areas@[a].data_frames@[i].ppn.0));
                    assert(!old(allocator).is_live(self.areas@[b].data_frames@[j].ppn.0));
                }
            }
            assert(self.wf());
            assert forall|i: int, j: int|
                0 <= i < self.areas@.last().data_frames@.len() && 0 <= j < 4096
                && i * (PAGE_SIZE as int) + j >= spec_data_len(data)
                implies self.areas@.last().data_frames@[i].bytes@[j] == 0u8 by {
                assert(self.areas@.last() == new_area);
            }
        }
    }

    /// Map a fresh framed area `[start_va, end_va)` with the given
    /// permissions. The caller vouches that the range overlaps no existing
    /// area.
    pub fn insert_framed_area(&mut self, allocator: &mut StackFrameAllocator,
        start_va: VirtAddr, end_va: VirtAddr, permission: MapPermission)
        requires
            old(self).wf(),
            old(allocator).wf(),
            old(self).frames_live(*old(allocator)),
            start_va.0 <= end_va.0,
            end_va.0 < 0x80_0000_0000u64,
            permission.wf(),
            forall|a: int| 0 <= a < old(self).areas@.len()
                ==> (#[trigger] old(self).areas@[a]).end() <= start_va.0 / PAGE_SIZE
                    || (end_va.0 + PAGE_SIZE - 1) / (PAGE_SIZE as int)
                        <= old(self).areas@[a].start(),
            (end_va.0 + PAGE_SIZE - 1) / (PAGE_SIZE as int) <= trampoline_vpn()
                || trampoline_vpn() < start_va.0 / PAGE_SIZE,
            old(allocator).avail() >= frames_needed(
                start_va.0 / PAGE_SIZE,
                ((end_va.0 + PAGE_SIZE - 1) / (PAGE_SIZE as int)) as u64,
                true,
            ),
        ensures
            final(self).wf(),
            final(allocator).wf(),
            final(self).frames_live(*final(allocator)),
            final(allocator).end == old(allocator).end,
            forall|q: u64| old(allocator).is_live(q) ==> final(allocator).is_live(q),
            final(allocator).avail() >= old(allocator).avail() - frames_needed(
                start_va.0 / PAGE_SIZE,
                (((end_va.0 + PAGE_SIZE - 1) as u64) / PAGE_SIZE) as u64,
                true,
            ),
            final(self).page_table.root_ppn == old(self).page_table.root_ppn,
            final(self).trampoline@ == old(self).trampoline@,
            final(self).areas@.len() == old(self).areas@.len() + 1,
            forall|a: int| 0 <= a < old(self).areas@.len()
                ==> final(self).areas@[a] == old(self).areas@[a],
            final(self).areas@.last().start() == start_va.0 / PAGE_SIZE,
            final(self).areas@.last().end()
                == (end_va.0 + PAGE_SIZE - 1) / (PAGE_SIZE as int),
            final(self).areas@.last().map_type == MapType::Framed,
            final(self).areas@.last().map_perm == permission,
            final(self).areas@.last().mapped_in(final(self).page_table),
            forall|w: u64| w < 0x800_0000u64
                && !(start_va.0 / PAGE_SIZE <= w
                    < (end_va.0 + PAGE_SIZE - 1) / (PAGE_SIZE as int))
                ==> final(self).page_table.translate_spec(w)
                    == old(self).page_table.translate_spec(w),
    {
        let area = MapArea::new(start_va, end_va, MapType::Framed, permission);
        self.push(allocator, area, None);
        proof {
            assert forall|w: u64|
                w < 0x800_0000u64 && !(start_va.0 / PAGE_SIZE <= w
                    < (end_va.0 + PAGE_SIZE - 1) / (PAGE_SIZE as int))
                implies self.page_table.translate_spec(w)
                    == old(self).page_table.translate_spec(w) by {
                assert(!area.holds(w));
            }
        }
    }
}

/// The linker-defined layout of the kernel image: section boundaries, the
/// end of the image, and the physical page holding the trampoline code.
/// All boundaries are page-aligned by the linker script.
pub struct KernelLayout {
    /// Start of the kernel text section.
    pub stext: u64,
    /// End of the kernel text section.
    pub etext: u64,
    /// Start of the read-only data section.
    pub srodata: u64,
    /// End of the read-only data section.
    pub erodata: u64,
    /// Start of the data section.
    pub sdata: u64,
    /// End of the data section.
    pub edata: u64,
    /// Start of the zero-initialised section, boot stack included.
    pub sbss_with_stack: u64,
    /// End of the zero-initialised section.
    pub ebss: u64,
    /// End of the kernel image; free frames start here.
    pub ekernel: u64,
    /// Physical address of the trampoline code page.
    pub strampoline: u64,
}

impl KernelLayout {
    /// What the linker script guarantees: page-aligned, ordered sections
    /// below the end of physical memory.
    pub open spec fn wf(&self) -> bool {
        &&& self.stext % PAGE_SIZE == 0
        &&& self.etext % PAGE_SIZE == 0
        &&& self.srodata % PAGE_SIZE == 0
        &&& self.erodata % PAGE_SIZE == 0
        &&& self.sdata % PAGE_SIZE == 0
        &&& self.edata % PAGE_SIZE == 0
        &&& self.sbss_with_stack % PAGE_SIZE == 0
        &&& self.ebss % PAGE_SIZE == 0
        &&& self.ekernel % PAGE_SIZE == 0
        &&& self.strampoline % PAGE_SIZE == 0
        &&& self.stext <= self.etext <= self.srodata <= self.erodata
        &&& self.erodata <= self.sdata <= self.edata <= self.sbss_with_stack
        &&& self.sbss_with_stack <= self.ebss <= self.ekernel <= MEMORY_END
        &&& self.strampoline < 0x100_0000_0000_0000u64
    }

    /// Frames needed to build the kernel space from this layout: the root
    /// table, the trampoline's walk, and each identity section's walk.
    pub open spec fn build_frames_needed(&self) -> int {
        1 + 2 + frames_needed(self.stext / PAGE_SIZE, self.etext / PAGE_SIZE, false)
            + frames_needed(self.srodata / PAGE_SIZE, self.erodata / PAGE_SIZE, false)
            + frames_needed(self.sdata / PAGE_SIZE, self.edata / PAGE_SIZE, false)
            + frames_needed(self.sbss_with_stack / PAGE_SIZE, self.ebss / PAGE_SIZE, false)
            + frames_needed(self.ekernel / PAGE_SIZE, MEMORY_END / PAGE_SIZE, false)
    }
}

/// Rounding an aligned address up to a page boundary leaves it unchanged.
proof fn lemma_aligned_ceil(v: u64)
    requires
        v % 4096 == 0,
        v < 0x80_0000_0000u64,
    ensures
        (v + 4095) / 4096 == v as int / 4096,
{
    assert((v + 4095) / 4096 == v as int / 4096) by (nonlinear_arith)
        requires v % 4096 == 0;
}

/// Division by the page size respects address order.
proof fn lemma_page_div_monotone(a: u64, b: u64)
    requires
        a <= b,
    ensures
        a / PAGE_SIZE <= b / PAGE_SIZE,
{
    assert(a as int / 4096 <= b as int / 4096) by (nonlinear_arith)
        requires a <= b;
}

impl MemorySet {
    /// The kernel's own address space: the trampoline page, then the
    /// kernel's text (read-execute), read-only data (read), data and bss
    /// (read-write) identity-mapped, and finally the whole free physical
    /// memory window (read-write), so that the kernel can reach every
    /// frame through its own mapping.
    #[verifier::rlimit(60)]
    pub fn new_kernel(allocator: &mut StackFrameAllocator, layout: &KernelLayout) -> (r:
        MemorySet)
        requires
            old(allocator).wf(),
            layout.wf(),
            old(allocator).avail() >= layout.build_frames_needed(),
        ensures
            final(allocator).wf(),
            final(allocator).end == old(allocator).end,
            forall|q: u64| old(allocator).is_live(q) ==> final(allocator).is_live(q),
            r.wf(),
            r.frames_live(*final(allocator)),
            r.trampoline@ == Some(PhysPageNum(layout.strampoline / PAGE_SIZE)),
            r.page_table.translate_spec(trampoline_vpn()) == Some(
                (PageTableEntry {
                    bits: spec_pte_new(layout.strampoline / PAGE_SIZE, 11u8),
                }),
            ),
            r.areas@.len() == 5,
            r.areas@[0].start() == layout.stext / PAGE_SIZE
                && r.areas@[0].end() == layout.etext / PAGE_SIZE
                && r.areas@[0].map_type == MapType::Identical
                && r.areas@[0].map_perm.0 == (MAP_PERM_R | MAP_PERM_X),
            r.areas@[1].start() == layout.srodata / PAGE_SIZE
                && r.areas@[1].end() == layout.erodata / PAGE_SIZE
                && r.areas@[1].map_type == MapType::Identical
                && r.areas@[1].map_perm.0 == MAP_PERM_R,
            r.areas@[2].start() == layout.sdata / PAGE_SIZE
                && r.areas@[2].end() == layout.edata / PAGE_SIZE
                && r.areas@[2].map_type == MapType::Identical
                && r.areas@[2].map_perm.0 == (MAP_PERM_R | MAP_PERM_W),
            r.areas@[3].start() == layout.sbss_with_stack / PAGE_SIZE
                && r.areas@[3].end() == layout.ebss / PAGE_SIZE
                && r.areas@[3].map_type == MapType::Identical
                && r.areas@[3].map_perm.0 == (MAP_PERM_R | MAP_PERM_W),
            r.areas@[4].start() == layout.ekernel / PAGE_SIZE
                && r.areas@[4].end() == MEMORY_END / PAGE_SIZE
                && r.areas@[4].map_type == MapType::Identical
                && r.areas@[4].map_perm.0 == (MAP_PERM_R | MAP_PERM_W),
            forall|a: int| 0 <= a < 5 ==> (#[trigger] r.areas@[a]).mapped_in(r.page_table),
    {
        proof {
            lemma_aligned_ceil(layout.etext);
            lemma_aligned_ceil(layout.erodata);
            lemma_aligned_ceil(layout.edata);
            lemma_aligned_ceil(layout.ebss);
            lemma_aligned_ceil(MEMORY_END);
            lemma_page_div_monotone(layout.stext, layout.etext);
            lemma_page_div_monotone(layout.etext, layout.srodata);
            lemma_page_div_monotone(layout.srodata, layout.erodata);
            lemma_page_div_monotone(layout.erodata, layout.sdata);
            lemma_page_div_monotone(layout.sdata, layout.edata);
            lemma_page_div_monotone(layout.edata, layout.sbss_with_stack);
            lemma_page_div_monotone(layout.sbss_with_stack, layout.ebss);
            lemma_page_div_monotone(layout.ebss, layout.ekernel);
            lemma_page_div_monotone(layout.ekernel, MEMORY_END);
        }
        let mut memory_set = MemorySet::new_bare(allocator);
        memory_set.map_trampoline(allocator, PhysAddr(layout.strampoline));
        let perm_rx = MapPermission(MAP_PERM_R | MAP_PERM_X);
        let perm_r = MapPermission(MAP_PERM_R);
        let perm_rw = MapPermission(MAP_PERM_R | MAP_PERM_W);
        proof {
            assert(((2u8 | 8u8) & 0x1Eu8 == (2u8 | 8u8)) && (2u8 & 0x1Eu8 == 2u8)
                && ((2u8 | 4u8) & 0x1Eu8 == (2u8 | 4u8))) by (bit_vector);
        }
        memory_set.push(
            allocator,
            MapArea::new(VirtAddr(layout.stext), VirtAddr(layout.etext), MapType::Identical,
                perm_rx),
            None,
        );
        memory_set.push(
            allocator,
            MapArea::new(VirtAddr(layout.srodata), VirtAddr(layout.erodata),
                MapType::Identical, perm_r),
            None,
        );
        memory_set.push(
            allocator,
            MapArea::new(VirtAddr(layout.sdata), VirtAddr(layout.edata), MapType::Identical,
                perm_rw),
            None,
        );
        memory_set.push(
            allocator,
            MapArea::new(VirtAddr(layout.sbss_with_stack), VirtAddr(layout.ebss),
                MapType::Identical, perm_rw),
            None,
        );
        memory_set.push(
            allocator,
            MapArea::new(VirtAddr(layout.ekernel), VirtAddr(MEMORY_END), MapType::Identical,
                perm_rw),
            None,
        );
        memory_set
    }
}

impl MemorySet {
    /// Whether a page lies in some framed area of the space.
    pub open spec fn page_covered(&self, vpn: u64) -> bool {
        exists|a: int|
            0 <= a < self.areas@.len() && (#[trigger] self.areas@[a]).holds(vpn)
                && self.areas@[a].map_type == MapType::Framed
    }

    /// The byte a user-space virtual address reads, through the framed
    /// area covering its page.
    pub open spec fn user_byte(&self, va: u64) -> u8 {
        let vpn = va / PAGE_SIZE;
        let a = choose|a: int|
            0 <= a < self.areas@.len() && (#[trigger] self.areas@[a]).holds(vpn)
                && self.areas@[a].map_type == MapType::Framed;
        self.areas@[a].frame_byte(vpn, (va % PAGE_SIZE) as int)
    }

    /// Index of the first area starting at the given page, if any.
    fn find_area(&self, start_vpn: u64) -> (r: Option<usize>)
        ensures
            match r {
                Some(i) => 0 <= i < self.areas@.len()
                    && self.areas@[i as int].start() == start_vpn
                    && forall|j: int| 0 <= j < i
                        ==> (#[trigger] self.areas@[j]).start() != start_vpn,
                None => forall|j: int| 0 <= j < self.areas@.len()
                    ==> (#[trigger] self.areas@[j]).start() != start_vpn,
            },
    {
        let mut i: usize = 0;
        while i < self.areas.len()
            invariant
                i <= self.areas@.len(),
                forall|j: int| 0 <= j < i ==> (#[trigger] self.areas@[j]).start() != start_vpn,
            decreases self.areas@.len() - i,
        {
            if self.areas[i].vpn_range.get_start().0 == start_vpn {
                return Some(i);
            }
            i = i + 1;
        }
        None
    }

    /// Index of a framed area covering the page, if any.
    fn find_covering(&self, vpn: u64) -> (r: Option<usize>)
        ensures
            match r {
                Some(i) => 0 <= i < self.areas@.len() && self.areas@[i as int].holds(vpn)
                    && self.areas@[i as int].map_type == MapType::Framed,
                None => !self.page_covered(vpn),
            },
    {
        let mut i: usize = 0;
        while i < self.areas.len()
            invariant
                i <= self.areas@.len(),
                forall|j: int| 0 <= j < i
                    ==> !((#[trigger] self.areas@[j]).holds(vpn)
                        && self.areas@[j].map_type == MapType::Framed),
            decreases self.areas@.len() - i,
        {
            let a = &self.areas[i];
            let framed = match a.map_type {
                MapType::Framed => true,
                MapType::Identical => false,
            };
            if framed && a.vpn_range.get_start().0 <= vpn && vpn < a.vpn_range.get_end().0 {
                return Some(i);
            }
            i = i + 1;
        }
        None
    }

    /// Move the high end of the area starting at `start` down to
    /// `new_end`, unmapping the pages cut off and freeing their frames.
    /// `false` when no area starts there.
    pub fn shrink_to(&mut self, allocator: &mut StackFrameAllocator, start: VirtAddr,
        new_end: VirtAddr) -> (r: bool)
        requires
            old(self).wf(),
            old(allocator).wf(),
            old(self).frames_live(*old(allocator)),
            start.0 < 0x80_0000_0000u64,
            new_end.0 < 0x80_0000_0000u64,
            forall|a: int|
                0 <= a < old(self).areas@.len()
                && (#[trigger] old(self).areas@[a]).start() == start.0 / PAGE_SIZE ==> {
                    &&& old(self).areas@[a].start()
                        <= (new_end.0 + PAGE_SIZE - 1) / (PAGE_SIZE as int)
                    &&& (new_end.0 + PAGE_SIZE - 1) / (PAGE_SIZE as int)
                        <= old(self).areas@[a].end()
                },
        ensures
            final(self).wf(),
            final(allocator).wf(),
            final(self).frames_live(*final(allocator)),
            final(allocator).end == old(allocator).end,
            forall|q: u64| final(allocator).is_live(q) ==> old(allocator).is_live(q),
            final(self).page_table.root_ppn == old(self).page_table.root_ppn,
            final(self).trampoline@ == old(self).trampoline@,
            final(self).areas@.len() == old(self).areas@.len(),
            r <==> exists|a: int|
                0 <= a < old(self).areas@.len()
                    && (#[trigger] old(self).areas@[a]).start() == start.0 / PAGE_SIZE,
            !r ==> final(self).areas@ == old(self).areas@
                && final(allocator).current == old(allocator).current
                && final(allocator).recycled@ == old(allocator).recycled@
                && forall|w: u64|
                    final(self).page_table.translate_spec(w)
                        == old(self).page_table.translate_spec(w),
            r ==> exists|i: int|
                {
                    &&& 0 <= i < old(self).areas@.len()
                    &&& (#[trigger] old(self).areas@[i]).start() == start.0 / PAGE_SIZE
                    &&& forall|j: int| 0 <= j < old(self).areas@.len() && j != i
                            ==> final(self).areas@[j] == old(self).areas@[j]
                    &&& final(self).areas@[i].start() == old(self).areas@[i].start()
                    &&& final(self).areas@[i].end()
                        == (new_end.0 + PAGE_SIZE - 1) / (PAGE_SIZE as int)
                    &&& final(self).areas@[i].map_type == old(self).areas@[i].map_type
                    &&& final(self).areas@[i].map_perm == old(self).areas@[i].map_perm
                    &&& forall|w: u64|
                            (new_end.0 + PAGE_SIZE - 1) / (PAGE_SIZE as int) <= w
                                < old(self).areas@[i].end()
                                ==> (#[trigger] final(self).page_table.translate_spec(
                                    w,
                                )) is None
                    &&& forall|w: u64|
                            w < 0x800_0000u64 && !((new_end.0 + PAGE_SIZE - 1) / (
                            PAGE_SIZE as int) <= w < old(self).areas@[i].end())
                                ==> final(self).page_table.translate_spec(w)
                                    == old(self).page_table.translate_spec(w)
                },
    {
        let start_vpn = start.floor();
        proof {
            assert(start.0 as int / 4096 == start.0 / PAGE_SIZE);
        }
        let i = match self.find_area(start_vpn.0) {
            Some(i) => i,
            None => {
                return false;
            },
        };
        let new_end_vpn = new_end.ceil();
        let ghost pre = *self;
        let ghost pre_alloc = *allocator;
        let area = &mut self.areas[i];
        area.shrink_to(&mut self.page_table, allocator, new_end_vpn);
        proof {
            let ii = i as int;
            assert(self.areas@ == pre.areas@.update(ii, self.areas@[ii]));
            assert(forall|j: int| 0 <= j < self.areas@.len() && j != ii
                ==> self.areas@[j] == pre.areas@[j]);
            let oe = pre.areas@[ii].end();
            let ne = self.areas@[ii].end();
            if self.areas@[ii].map_type == MapType::Identical {
                assert(self.areas@[ii].data_frames@ =~= pre.areas@[ii].data_frames@);
            }
            lemma_area_resize_wf(pre, *self, pre_alloc, *allocator, ii, ne, oe);
        }
        true
    }

    /// Move the high end of the area starting at `start` up to `new_end`,
    /// mapping the added pages to fresh frames. `false` when no area
    /// starts there.
    pub fn append_to(&mut self, allocator: &mut StackFrameAllocator, start: VirtAddr,
        new_end: VirtAddr) -> (r: bool)
        requires
            old(self).wf(),
            old(allocator).wf(),
            old(self).frames_live(*old(allocator)),
            start.0 < 0x80_0000_0000u64,
            new_end.0 < 0x80_0000_0000u64,
            forall|a: int|
                0 <= a < old(self).areas@.len()
                && (#[trigger] old(self).areas@[a]).start() == start.0 / PAGE_SIZE ==> {
                    &&& old(self).areas@[a].end()
                        <= (new_end.0 + PAGE_SIZE - 1) / (PAGE_SIZE as int)
                    &&& (new_end.0 + PAGE_SIZE - 1) / (PAGE_SIZE as int)
                        < trampoline_vpn()
                    &&& old(allocator).avail() >= frames_needed(
                        old(self).areas@[a].end(),
                        (((new_end.0 + PAGE_SIZE - 1) as u64) / PAGE_SIZE) as u64,
                        old(self).areas@[a].map_type == MapType::Framed,
                    )
                    &&& forall|b: int|
                            0 <= b < old(self).areas@.len() && b != a
                                ==> (#[trigger] old(self).areas@[b]).end()
                                    <= old(self).areas@[a].start()
                                    || (new_end.0 + PAGE_SIZE - 1) / (PAGE_SIZE as int)
                                        <= old(self).areas@[b].start()
                },
        ensures
            final(self).wf(),
            final(allocator).wf(),
            final(self).frames_live(*final(allocator)),
            final(allocator).end == old(allocator).end,
            forall|q: u64| old(allocator).is_live(q) ==> final(allocator).is_live(q),
            final(self).page_table.root_ppn == old(self).page_table.root_ppn,
            final(self).trampoline@ == old(self).trampoline@,
            final(self).areas@.len() == old(self).areas@.len(),
            r <==> exists|a: int|
                0 <= a < old(self).areas@.len()
                    && (#[trigger] old(self).areas@[a]).start() == start.0 / PAGE_SIZE,
            !r ==> final(self).areas@ == old(self).areas@
                && final(allocator).current == old(allocator).current
                && final(allocator).recycled@ == old(allocator).recycled@
                && forall|w: u64|
                    final(self).page_table.translate_spec(w)
                        == old(self).page_table.translate_spec(w),
            r ==> exists|i: int|
                {
                    &&& 0 <= i < old(self).areas@.len()
                    &&& (#[trigger] old(self).areas@[i]).start() == start.0 / PAGE_SIZE
                    &&& forall|j: int| 0 <= j < old(self).areas@.len() && j != i
                            ==> final(self).areas@[j] == old(self).areas@[j]
                    &&& final(self).areas@[i].start() == old(self).areas@[i].start()
                    &&& final(self).areas@[i].end()
                        == (new_end.0 + PAGE_SIZE - 1) / (PAGE_SIZE as int)
                    &&& final(self).areas@[i].map_type == old(self).areas@[i].map_type
                    &&& final(self).areas@[i].map_perm == old(self).areas@[i].map_perm
                    &&& final(self).areas@[i].mapped_in(final(self).page_table)
                    &&& forall|w: u64|
                            w < 0x800_0000u64 && !(old(self).areas@[i].end() <= w
                                < (new_end.0 + PAGE_SIZE - 1) / (PAGE_SIZE as int))
                                ==> final(self).page_table.translate_spec(w)
                                    == old(self).page_table.translate_spec(w)
                },
    {
        let start_vpn = start.floor();
        proof {
            assert(start.0 as int / 4096 == start.0 / PAGE_SIZE);
        }
        let i = match self.find_area(start_vpn.0) {
            Some(i) => i,
            None => {
                return false;
            },
        };
        let new_end_vpn = new_end.ceil();
        let ghost pre = *self;
        let ghost pre_alloc = *allocator;
        proof {
            // The pages being added are not mapped yet: they lie outside
            // every area and are not the trampoline page.
            assert forall|v: u64| pre.areas@[i as int].end() <= v < new_end_vpn.0
                implies (#[trigger] pre.page_table.translate_spec(v)) is None by {
                if pre.page_table.translate_spec(v) is Some {
                    if !(v == trampoline_vpn() && pre.trampoline@ is Some) {
                        let b = choose|b: int|
                            0 <= b < pre.areas@.len() && (#[trigger] pre.areas@[b]).holds(v);
                        assert(b != i as int);
                    }
                    assert(false);
                }
            }
        }
        let area = &mut self.areas[i];
        area.append_to(&mut self.page_table, allocator, new_end_vpn);
        proof {
            let ii = i as int;
            assert(self.areas@ == pre.areas@.update(ii, self.areas@[ii]));
            assert(forall|j: int| 0 <= j < self.areas@.len() && j != ii
                ==> self.areas@[j] == pre.areas@[j]);
            let oe = pre.areas@[ii].end();
            let ne = self.areas@[ii].end();
            lemma_area_grow_wf(pre, *self, pre_alloc, *allocator, ii, oe, ne);
        }
        true
    }
}

/// After an area shrank from `[start, oe)` to `[start, ne)` (its removed
/// frames returned to the allocator, other areas untouched), the whole
/// space is well-formed again.
proof fn lemma_area_resize_wf(
    pre: MemorySet,
    post: MemorySet,
    pre_alloc: StackFrameAllocator,
    post_alloc: StackFrameAllocator,
    i: int,
    ne: u64,
    oe: u64,
)
    requires
        pre.wf(),
        pre_alloc.wf(),
        post_alloc.wf(),
        pre.frames_live(pre_alloc),
        0 <= i < pre.areas@.len(),
        post.areas@.len() == pre.areas@.len(),
        forall|j: int| 0 <= j < pre.areas@.len() && j != i
            ==> post.areas@[j] == pre.areas@[j],
        pre.page_table.wf(),
        post.page_table.wf(),
        post.page_table.root_ppn == pre.page_table.root_ppn,
        forall|p: u64| post.page_table.owns_node(p) == pre.page_table.owns_node(p),
        post.trampoline@ == pre.trampoline@,
        oe == pre.areas@[i].end(),
        ne == post.areas@[i].end(),
        pre.areas@[i].start() <= ne <= oe,
        post.areas@[i].start() == pre.areas@[i].start(),
        post.areas@[i].map_type == pre.areas@[i].map_type,
        post.areas@[i].map_perm == pre.areas@[i].map_perm,
        post.areas@[i].wf(),
        post.areas@[i].mapped_in(post.page_table),
        post.areas@[i].frames_live(post_alloc),
        post.areas@[i].map_type == MapType::Framed ==> post.areas@[i].data_frames@
            == pre.areas@[i].data_frames@.take(ne - pre.areas@[i].start()),
        post.areas@[i].map_type == MapType::Identical
            ==> post.areas@[i].data_frames@ == pre.areas@[i].data_frames@,
        post.page_table.frames_live(post_alloc),
        forall|w: u64| ne <= w < oe
            ==> (#[trigger] post.page_table.translate_spec(w)) is None,
        forall|w: u64| w < 0x800_0000u64 && !(ne <= w < oe)
            ==> post.page_table.translate_spec(w) == pre.page_table.translate_spec(w),
        forall|q: u64| post_alloc.is_live(q)
            <==> (pre_alloc.is_live(q) && (pre.areas@[i].map_type == MapType::Framed
                ==> forall|k: int|
                    ne - pre.areas@[i].start() <= k < pre.areas@[i].data_frames@.len()
                        ==> q != (#[trigger] pre.areas@[i].data_frames@[k]).ppn.0)),
    ensures
        post.wf(),
        post.frames_live(post_alloc),
{
    let tramp = trampoline_vpn();
    assert(!pre.areas@[i].holds(tramp));
    // Every other area's pages are outside the unmapped interval.
    assert forall|a: int| 0 <= a < post.areas@.len()
        implies (#[trigger] post.areas@[a]).mapped_in(post.page_table) by {
        if a != i {
            assert(post.areas@[a] == pre.areas@[a]);
            assert forall|k: int| 0 <= k < post.areas@[a].end() - post.areas@[a].start()
                implies post.page_table.translate_spec(
                    (post.areas@[a].start() + k) as u64)
                    == Some(#[trigger] post.areas@[a].expected_pte(k)) by {
                let w = (post.areas@[a].start() + k) as u64;
                assert(pre.areas@[a].holds(w));
                assert(!(ne <= w < oe)) by {
                    if ne <= w < oe {
                        assert(pre.areas@[i].holds(w));
                    }
                }
                assert(pre.page_table.translate_spec(w)
                    == Some(pre.areas@[a].expected_pte(k)));
            }
        }
    }
    // Other areas' frames are distinct from the freed ones, so still live.
    assert forall|a: int| 0 <= a < post.areas@.len()
        implies (#[trigger] post.areas@[a]).frames_live(post_alloc) by {
        if a != i {
            assert forall|k: int| 0 <= k < post.areas@[a].data_frames@.len()
                implies post_alloc.is_live(
                    (#[trigger] post.areas@[a].data_frames@[k]).ppn.0) by {
                assert(pre_alloc.is_live(pre.areas@[a].data_frames@[k].ppn.0));
            }
        }
    }
    // The trampoline entry is outside the unmapped interval.
    assert(!(ne <= tramp < oe)) by {
        if ne <= tramp < oe {
            assert(pre.areas@[i].holds(tramp));
        }
    }
    // Completeness: anything still mapped was mapped before.
    assert forall|w: u64|
        w < 0x800_0000u64 && (#[trigger] post.page_table.translate_spec(w)) is Some
        implies (w == tramp && post.trampoline@ is Some) || exists|a: int|
            0 <= a < post.areas@.len() && (#[trigger] post.areas@[a]).holds(w) by {
        if !(ne <= w < oe) {
            assert(pre.page_table.translate_spec(w) is Some);
            if !(w == tramp && pre.trampoline@ is Some) {
                let a = choose|a: int|
                    0 <= a < pre.areas@.len() && (#[trigger] pre.areas@[a]).holds(w);
                if a == i {
                    assert(post.areas@[i].holds(w));
                } else {
                    assert(post.areas@[a].holds(w));
                }
            }
        }
    }
    assert(post.wf());
}

/// After an area grew from `[start, oe)` to `[start, ne)` (the added
/// pages mapped to fresh frames, other areas untouched), the whole space
/// is well-formed again.
proof fn lemma_area_grow_wf(
    pre: MemorySet,
    post: MemorySet,
    pre_alloc: StackFrameAllocator,
    post_alloc: StackFrameAllocator,
    i: int,
    oe: u64,
    ne: u64,
)
    requires
        pre.wf(),
        pre_alloc.wf(),
        post_alloc.wf(),
        pre.frames_live(pre_alloc),
        0 <= i < pre.areas@.len(),
        post.areas@.len() == pre.areas@.len(),
        forall|j: int| 0 <= j < pre.areas@.len() && j != i
            ==> post.areas@[j] == pre.areas@[j],
        post.page_table.wf(),
        post.page_table.root_ppn == pre.page_table.root_ppn,
        forall|p: u64| pre.page_table.owns_node(p) ==> post.page_table.owns_node(p),
        forall|p: u64| post.page_table.owns_node(p)
            ==> pre.page_table.owns_node(p) || !pre_alloc.is_live(p),
        post.trampoline@ == pre.trampoline@,
        oe == pre.areas@[i].end(),
        ne == post.areas@[i].end(),
        oe <= ne,
        ne < trampoline_vpn(),
        post.areas@[i].start() == pre.areas@[i].start(),
        post.areas@[i].map_type == pre.areas@[i].map_type,
        post.areas@[i].map_perm == pre.areas@[i].map_perm,
        post.areas@[i].wf(),
        post.areas@[i].mapped_in(post.page_table),
        post.areas@[i].frames_live(post_alloc),
        forall|k: int| 0 <= k < post.areas@[i].data_frames@.len()
            ==> !post.page_table.owns_node(
                (#[trigger] post.areas@[i].data_frames@[k]).ppn.0),
        forall|k: int| 0 <= k < pre.areas@[i].data_frames@.len()
            ==> post.areas@[i].data_frames@[k] == pre.areas@[i].data_frames@[k],
        forall|k: int|
            pre.areas@[i].data_frames@.len() <= k < post.areas@[i].data_frames@.len()
                ==> !pre_alloc.is_live((#[trigger] post.areas@[i].data_frames@[k]).ppn.0),
        post.page_table.frames_live(post_alloc),
        forall|q: u64| pre_alloc.is_live(q) ==> post_alloc.is_live(q),
        forall|a: int|
            0 <= a < pre.areas@.len() && a != i
                ==> (#[trigger] pre.areas@[a]).end() <= pre.areas@[i].start()
                    || ne <= pre.areas@[a].start(),
        forall|w: u64| w < 0x800_0000u64 && !(oe <= w < ne)
            ==> post.page_table.translate_spec(w) == pre.page_table.translate_spec(w),
    ensures
        post.wf(),
        post.frames_live(post_alloc),
{
    let tramp = trampoline_vpn();
    assert forall|a: int| 0 <= a < post.areas@.len()
        implies (#[trigger] post.areas@[a]).mapped_in(post.page_table) by {
        if a != i {
            assert(post.areas@[a] == pre.areas@[a]);
            assert forall|k: int| 0 <= k < post.areas@[a].end() - post.areas@[a].start()
                implies post.page_table.translate_spec(
                    (post.areas@[a].start() + k) as u64)
                    == Some(#[trigger] post.areas@[a].expected_pte(k)) by {
                let w = (post.areas@[a].start() + k) as u64;
                assert(pre.areas@[a].holds(w));
                assert(!(oe <= w < ne));
                assert(pre.page_table.translate_spec(w)
                    == Some(pre.areas@[a].expected_pte(k)));
            }
        }
    }
    assert forall|a: int| 0 <= a < post.areas@.len()
        implies (#[trigger] post.areas@[a]).frames_live(post_alloc) by {
        if a != i {
            assert forall|k: int| 0 <= k < post.areas@[a].data_frames@.len()
                implies post_alloc.is_live(
                    (#[trigger] post.areas@[a].data_frames@[k]).ppn.0) by {
                assert(pre_alloc.is_live(pre.areas@[a].data_frames@[k].ppn.0));
            }
        }
    }
    assert(!(oe <= tramp < ne));
    assert forall|w: u64|
        w < 0x800_0000u64 && (#[trigger] post.page_table.translate_spec(w)) is Some
        implies (w == tramp && post.trampoline@ is Some) || exists|a: int|
            0 <= a < post.areas@.len() && (#[trigger] post.areas@[a]).holds(w) by {
        if oe <= w < ne {
            assert(post.areas@[i].holds(w));
        } else {
            assert(pre.page_table.translate_spec(w) is Some);
            if !(w == tramp && pre.trampoline@ is Some) {
                let a = choose|a: int|
                    0 <= a < pre.areas@.len() && (#[trigger] pre.areas@[a]).holds(w);
                if a == i {
                    assert(post.areas@[i].holds(w));
                } else {
                    assert(post.areas@[a].holds(w));
                }
            }
        }
    }
    // No data frame anywhere is a table node, and frames stay pairwise
    // distinct: the grown area's new frames are fresh, everything else
    // was live already.
    assert forall|a: int, k: int|
        0 <= a < post.areas@.len() && 0 <= k < post.areas@[a].data_frames@.len()
        implies !post.page_table.owns_node(
            (#[trigger] post.areas@[a].data_frames@[k]).ppn.0) by {
        if a != i {
            let p = post.areas@[a].data_frames@[k].ppn.0;
            assert(pre_alloc.is_live(p));
            if post.page_table.owns_node(p) {
                assert(false);
            }
        }
    }
    let pre_n = pre.areas@[i].data_frames@.len() as int;
    assert forall|a: int, k: int, b: int, j: int|
        0 <= a < post.areas@.len() && 0 <= k < post.areas@[a].data_frames@.len()
        && 0 <= b < post.areas@.len() && 0 <= j < post.areas@[b].data_frames@.len()
        && (a != b || k != j)
        implies (#[trigger] post.areas@[a].data_frames@[k]).ppn.0
            != (#[trigger] post.areas@[b].data_frames@[j]).ppn.0 by {
        let fresh_a = a == i && k >= pre_n;
        let fresh_b = b == i && j >= pre_n;
        if fresh_a && !fresh_b {
            assert(pre_alloc.is_live(post.areas@[b].data_frames@[j].ppn.0)) by {
                if b == i {
                    assert(post.areas@[b].data_frames@[j]
                        == pre.areas@[i].data_frames@[j]);
                }
            }
            assert(!pre_alloc.is_live(post.areas@[a].data_frames@[k].ppn.0));
        } else if fresh_b && !fresh_a {
            assert(pre_alloc.is_live(post.areas@[a].data_frames@[k].ppn.0)) by {
                if a == i {
                    assert(post.areas@[a].data_frames@[k]
                        == pre.areas@[i].data_frames@[k]);
                }
            }
            assert(!pre_alloc.is_live(post.areas@[b].data_frames@[j].ppn.0));
        } else if !fresh_a && !fresh_b {
            if a == i && b == i {
            } else if a == i {
                assert(post.areas@[a].data_frames@[k] == pre.areas@[i].data_frames@[k]);
                assert(post.areas@[b].data_frames@[j] == pre.areas@[b].data_frames@[j]);
            } else if b == i {
                assert(post.areas@[a].data_frames@[k] == pre.areas@[a].data_frames@[k]);
                assert(post.areas@[b].data_frames@[j] == pre.areas@[i].data_frames@[j]);
            } else {
                assert(post.areas@[a].data_frames@[k] == pre.areas@[a].data_frames@[k]);
                assert(post.areas@[b].data_frames@[j] == pre.areas@[b].data_frames@[j]);
            }
        }
    }
    assert(post.wf());
}

/// Copy `len` bytes of an address space starting at virtual address
/// `ptr`, the way the kernel reads user memory during a syscall. `None`
/// unless every touched page lies in some framed area of the space:
/// identity-mapped pages read machine memory the model does not hold, so
/// only framed pages — and user spaces are framed throughout — are
/// readable here.
pub fn translated_byte_buffer(ms: &MemorySet, ptr: u64, len: u64) -> (r: Option<Vec<u8>>)
    requires
        ms.wf(),
        ptr + len < 0x80_0000_0000u64,
    ensures
        r is Some <==> forall|k: u64| k < len
            ==> #[trigger] ms.page_covered(((ptr + k) as u64) / PAGE_SIZE),
        match r {
            Some(v) => {
                &&& v@.len() == len
                &&& forall|k: int| 0 <= k < len ==> v@[k] == ms.user_byte((ptr + k) as u64)
            },
            None => true,
        },
{
    let mut out: Vec<u8> = Vec::new();
    let mut k: u64 = 0;
    while k < len
        invariant
            ms.wf(),
            ptr + len < 0x80_0000_0000u64,
            k <= len,
            out@.len() == k,
            forall|k2: u64| k2 < k
                ==> #[trigger] ms.page_covered(((ptr + k2) as u64) / PAGE_SIZE),
            forall|k2: int| 0 <= k2 < k ==> out@[k2] == ms.user_byte((ptr + k2) as u64),
        decreases len - k,
    {
        let va = ptr + k;
        let vpn = va / PAGE_SIZE;
        let i = match ms.find_covering(vpn) {
            Some(i) => i,
            None => {
                return None;
            },
        };
        let area = &ms.areas[i];
        let idx = (vpn - area.vpn_range.get_start().0) as usize;
        let off = (va % PAGE_SIZE) as usize;
        proof {
            assert(area.mapped_in(ms.page_table));
            assert(area.data_frames@[idx as int].wf());
        }
        let b = area.data_frames[idx].bytes[off];
        proof {
            // The covering framed area is unique, so the byte read is the
            // byte the space defines for this address.
            let a2 = choose|a: int|
                0 <= a < ms.areas@.len() && (#[trigger] ms.areas@[a]).holds(vpn)
                    && ms.areas@[a].map_type == MapType::Framed;
            assert(ms.areas@[a2].holds(vpn) && ms.areas@[i as int].holds(vpn));
            assert(a2 == i as int);
            assert(b == ms.user_byte(va));
        }
        out.push(b);
        k = k + 1;
    }
    Some(out)
}

/// First page of a loadable segment.
pub open spec fn seg_start_vpn(s: LoadSegment) -> u64 {
    s.vaddr / PAGE_SIZE
}

/// One past the last page of a loadable segment.
pub open spec fn seg_end_vpn(s: LoadSegment) -> u64 {
    ((s.vaddr + s.mem_size + PAGE_SIZE - 1) / (PAGE_SIZE as int)) as u64
}

/// The area permissions a segment's header flags ask for: always
/// user-accessible, plus read, write and execute as flagged.
pub open spec fn seg_perm_bits(s: LoadSegment) -> u8 {
    ((if s.flags & 4 == 4 {
        2u8
    } else {
        0u8
    }) | (if s.flags & 2 == 2 {
        4u8
    } else {
        0u8
    }) | (if s.flags & 1 == 1 {
        8u8
    } else {
        0u8
    }) | 16u8)
}

/// Frames needed to map one segment.
pub open spec fn seg_frames(s: LoadSegment) -> int {
    frames_needed(seg_start_vpn(s), seg_end_vpn(s), true)
}

/// Frames needed to map the segments from index `k` on.
pub open spec fn segs_frames_from(segs: Seq<LoadSegment>, k: int) -> int
    decreases segs.len() - k,
{
    if k < 0 || k >= segs.len() {
        0
    } else {
        seg_frames(segs[k]) + segs_frames_from(segs, k + 1)
    }
}

/// The segments from index `k` on are loadable after the pages below
/// `prev_end`: each fits the 39-bit space and starts at or after the page
/// where its predecessor ended.
pub open spec fn segs_ok_from(segs: Seq<LoadSegment>, k: int, prev_end: u64) -> bool
    decreases segs.len() - k,
{
    if k >= segs.len() {
        true
    } else {
        &&& segs[k].vaddr + segs[k].mem_size < 0x80_0000_0000u64
        &&& prev_end <= seg_start_vpn(segs[k])
        &&& segs_ok_from(segs, k + 1, seg_end_vpn(segs[k]))
    }
}

/// One past the last page any segment occupies.
pub open spec fn segs_max_end(segs: Seq<LoadSegment>) -> u64 {
    if segs.len() == 0 {
        0
    } else {
        seg_end_vpn(segs.last())
    }
}

/// An image's segments can become a user space: page-disjoint, ascending,
/// and leaving room for the guard page, the user stack and the trap
/// context below the trampoline.
pub open spec fn segs_ok(segs: Seq<LoadSegment>) -> bool {
    &&& segs_ok_from(segs, 0, 0)
    &&& segs_max_end(segs) + 4 <= trampoline_vpn()
}

/// Frames needed to build a user space from an image: the root table, the
/// trampoline walk, every segment, the user stack and the trap context.
pub open spec fn elf_build_frames(data: Seq<u8>) -> int {
    if elf_wf(data) {
        12 + segs_frames_from(load_segments(data), 0)
    } else {
        0
    }
}

/// Under `segs_ok_from`, segment page ranges ascend: every end stays at
/// or under the last segment's end.
proof fn lemma_segs_ascending(segs: Seq<LoadSegment>, k: int, prev_end: u64)
    requires
        segs_ok_from(segs, k, prev_end),
        0 <= k < segs.len(),
    ensures
        prev_end <= seg_end_vpn(segs[segs.len() - 1]),
        seg_end_vpn(segs[k]) <= seg_end_vpn(segs[segs.len() - 1]),
    decreases segs.len() - k,
{
    assert(prev_end <= seg_start_vpn(segs[k]));
    assert(seg_start_vpn(segs[k]) <= seg_end_vpn(segs[k])) by {
        assert(segs[k].vaddr as int / 4096
            <= (segs[k].vaddr + segs[k].mem_size + 4095) / 4096) by (nonlinear_arith);
    }
    if k + 1 < segs.len() {
        lemma_segs_ascending(segs, k + 1, seg_end_vpn(segs[k]));
    }
}

/// Each summand of the segment frame budget is non-negative.
proof fn lemma_seg_frames_nonneg(segs: Seq<LoadSegment>, k: int)
    ensures
        segs_frames_from(segs, k) >= 0,
        0 <= k < segs.len() ==> seg_frames(segs[k]) >= 0
            && segs_frames_from(segs, k)
                == seg_frames(segs[k]) + segs_frames_from(segs, k + 1),
    decreases segs.len() - k,
{
    if 0 <= k < segs.len() {
        let s = segs[k];
        let a = seg_start_vpn(s);
        let b = seg_end_vpn(s);
        if a < b {
            assert((b - 1) as u64 / 512 >= a / 512
                && (b - 1) as u64 / 262144 >= a / 262144) by (bit_vector)
                requires a <= (b - 1) as u64;
        }
        lemma_seg_frames_nonneg(segs, k + 1);
    }
}

impl MemorySet {
    /// Build a user address space from an ELF image: the trampoline page,
    /// one framed user area per loadable segment (initialised from the
    /// image's bytes, zero beyond them), a guard page, the user stack, and
    /// the kernel-only trap-context page just below the trampoline.
    /// Returns the space, the user stack top and the image's entry point;
    /// `None` exactly when the image is not a loadable 64-bit ELF.
    #[verifier::rlimit(100)]
    pub fn from_elf(allocator: &mut StackFrameAllocator, elf_data: &[u8],
        strampoline: PhysAddr) -> (r: Option<(MemorySet, u64, u64)>)
        requires
            old(allocator).wf(),
            strampoline.0 % PAGE_SIZE == 0,
            strampoline.0 < 0x100_0000_0000_0000u64,
            old(allocator).avail() >= elf_build_frames(elf_data@),
        ensures
            final(allocator).wf(),
            final(allocator).end == old(allocator).end,
            forall|q: u64| old(allocator).is_live(q) ==> final(allocator).is_live(q),
            final(allocator).avail() >= old(allocator).avail() - elf_build_frames(
                elf_data@,
            ),
            r is Some <==> (elf_wf(elf_data@) && segs_ok(load_segments(elf_data@))),
            match r {
                Some((ms, user_sp, entry)) => {
                    &&& entry == elf_entry(elf_data@)
                    &&& user_sp == (segs_max_end(load_segments(elf_data@)) + 1)
                        * PAGE_SIZE + USER_STACK_SIZE
                    &&& ms.wf()
                    &&& ms.frames_live(*final(allocator))
                    &&& ms.trampoline@ == Some(PhysPageNum(strampoline.0 / PAGE_SIZE))
                    &&& ms.areas@.len() == load_segments(elf_data@).len() + 2
                    &&& forall|j: int| 0 <= j < load_segments(elf_data@).len() ==> {
                            &&& (#[trigger] ms.areas@[j]).start()
                                == seg_start_vpn(load_segments(elf_data@)[j])
                            &&& ms.areas@[j].end()
                                == seg_end_vpn(load_segments(elf_data@)[j])
                            &&& ms.areas@[j].map_type == MapType::Framed
                            &&& ms.areas@[j].map_perm.0
                                == seg_perm_bits(load_segments(elf_data@)[j])
                            &&& forall|b: int|
                                    0 <= b < load_segments(elf_data@)[j].file_size
                                        ==> (#[trigger] ms.areas@[j].data_frames@[
                                            b / (PAGE_SIZE as int)].bytes@[b % (
                                        PAGE_SIZE as int)]) == elf_data@[load_segments(
                                            elf_data@,
                                        )[j].offset + b]
                        }
                    &&& ms.areas@[ms.areas@.len() - 2].start()
                        == segs_max_end(load_segments(elf_data@)) + 1
                    &&& ms.areas@[ms.areas@.len() - 2].end()
                        == segs_max_end(load_segments(elf_data@)) + 3
                    &&& ms.areas@[ms.areas@.len() - 2].map_type == MapType::Framed
                    &&& ms.areas@[ms.areas@.len() - 2].map_perm.0
                        == (MAP_PERM_R | MAP_PERM_W | MAP_PERM_U)
                    &&& ms.areas@.last().start() == trampoline_vpn() - 1
                    &&& ms.areas@.last().end() == trampoline_vpn()
                    &&& ms.areas@.last().map_type == MapType::Framed
                    &&& ms.areas@.last().map_perm.0 == (MAP_PERM_R | MAP_PERM_W)
                },
                None => true,
            },
    {
        let parsed = match parse_elf(elf_data) {
            Some(p) => p,
            None => {
                return None;
            },
        };
        let entry = parsed.0;
        let segs = parsed.1;
        proof {
            lemma_seg_frames_nonneg(segs@, 0);
        }
        // Validate the segment ranges: ascending, page-disjoint, in space.
        let mut k: usize = 0;
        let mut prev_end: u64 = 0;
        while k < segs.len()
            invariant
                segs@ == load_segments(elf_data@),
                elf_wf(elf_data@),
                allocator.wf(),
                allocator.end == old(allocator).end,
                forall|q: u64| old(allocator).is_live(q) ==> allocator.is_live(q),
                allocator.avail() >= elf_build_frames(elf_data@),
                elf_build_frames(elf_data@) >= 0,
                k <= segs@.len(),
                prev_end == (if k == 0 {
                    0u64
                } else {
                    seg_end_vpn(segs@[k - 1])
                }),
                prev_end <= 0x800_0000u64,
                segs_ok_from(segs@, 0, 0) == segs_ok_from(segs@, k as int, prev_end),
            decreases segs@.len() - k,
        {
            let s = segs[k];
            if s.mem_size > u64::MAX - s.vaddr || s.vaddr + s.mem_size >= 0x80_0000_0000u64 {
                proof {
                    assert(!segs_ok_from(segs@, k as int, prev_end));
                }
                return None;
            }
            if prev_end > s.vaddr / PAGE_SIZE {
                proof {
                    assert(!segs_ok_from(segs@, k as int, prev_end));
                }
                return None;
            }
            let seg_end = VirtAddr(s.vaddr + s.mem_size).ceil().0;
            proof {
                assert(seg_end == seg_end_vpn(segs@[k as int]));
                assert((s.vaddr + s.mem_size + 4095) / 4096 <= 0x800_0000) by (
                nonlinear_arith)
                    requires s.vaddr + s.mem_size < 0x80_0000_0000u64;
            }
            prev_end = seg_end;
            k = k + 1;
        }
        if prev_end > 0x7FF_FFFF - 4 {
            proof {
                if segs@.len() > 0 {
                    assert(!segs_ok(load_segments(elf_data@)));
                }
                assert(0x7FF_FFFFu64 - 4 >= 4);
            }
            return None;
        }
        let ghost max_end = prev_end;
        let data_len = elf_data.len();
        proof {
            assert(elf_data@.len() == data_len);
            assert(segs_ok(load_segments(elf_data@)));
            lemma_seg_frames_nonneg(segs@, 0);
            crate::elf::lemma_load_segments_wf(elf_data@);
        }
        // Build the space: trampoline first, then the segments in order.
        let mut ms = MemorySet::new_bare(allocator);
        ms.map_trampoline(allocator, strampoline);
        let mut max_end_vpn: u64 = 0;
        let mut k2: usize = 0;
        while k2 < segs.len()
            invariant
                segs@ == load_segments(elf_data@),
                elf_wf(elf_data@),
                segs_ok(segs@),
                elf_data@.len() <= usize::MAX,
                k2 <= segs@.len(),
                max_end_vpn == (if k2 == 0 {
                    0u64
                } else {
                    seg_end_vpn(segs@[k2 - 1])
                }),
                max_end == segs_max_end(segs@),
                max_end_vpn <= max_end,
                max_end + 4 <= trampoline_vpn(),
                segs_ok_from(segs@, k2 as int, max_end_vpn),
                ms.wf(),
                allocator.wf(),
                ms.frames_live(*allocator),
                allocator.end == old(allocator).end,
                forall|q: u64| old(allocator).is_live(q) ==> allocator.is_live(q),
                ms.trampoline@ == Some(PhysPageNum(strampoline.0 / PAGE_SIZE)),
                ms.areas@.len() == k2,
                forall|a: int| 0 <= a < k2
                    ==> (#[trigger] ms.areas@[a]).end() <= max_end_vpn,
                forall|j: int| 0 <= j < k2 ==> {
                    &&& (#[trigger] ms.areas@[j]).start() == seg_start_vpn(segs@[j])
                    &&& ms.areas@[j].end() == seg_end_vpn(segs@[j])
                    &&& ms.areas@[j].map_type == MapType::Framed
                    &&& ms.areas@[j].map_perm.0 == seg_perm_bits(segs@[j])
                    &&& forall|b: int| 0 <= b < segs@[j].file_size
                            ==> (#[trigger] ms.areas@[j].data_frames@[
                                b / (PAGE_SIZE as int)].bytes@[b % (PAGE_SIZE as int)])
                                == elf_data@[segs@[j].offset + b]
                },
                forall|j: int| 0 <= j < segs@.len() ==> {
                    &&& (#[trigger] segs@[j]).offset + segs@[j].file_size
                        <= elf_data@.len()
                    &&& segs@[j].file_size <= segs@[j].mem_size
                },
                allocator.avail() >= segs_frames_from(segs@, k2 as int) + 9,
                allocator.avail() >= old(allocator).avail() - elf_build_frames(elf_data@)
                    + segs_frames_from(segs@, k2 as int) + 9,
            decreases segs@.len() - k2,
        {
            let s = segs[k2];
            proof {
                lemma_seg_frames_nonneg(segs@, k2 as int);
                lemma_seg_frames_nonneg(segs@, k2 as int + 1);
                lemma_segs_ascending(segs@, k2 as int, max_end_vpn);
                assert(seg_end_vpn(segs@[k2 as int]) <= max_end);
            }
            let r_flag = s.flags & 4 == 4;
            let w_flag = s.flags & 2 == 2;
            let x_flag = s.flags & 1 == 1;
            let perm = MapPermission(
                (if r_flag {
                    MAP_PERM_R
                } else {
                    0
                }) | (if w_flag {
                    MAP_PERM_W
                } else {
                    0
                }) | (if x_flag {
                    MAP_PERM_X
                } else {
                    0
                }) | MAP_PERM_U,
            );
            proof {
                let pv = perm.0;
                assert(pv & 0x1Eu8 == pv) by (bit_vector)
                    requires pv == ((if r_flag { 2u8 } else { 0u8 }) | (if w_flag {
                        4u8
                    } else {
                        0u8
                    }) | (if x_flag { 8u8 } else { 0u8 }) | 16u8);
            }
            let area = MapArea::new(VirtAddr(s.vaddr), VirtAddr(s.vaddr + s.mem_size),
                MapType::Framed, perm);
            proof {
                // The segment's file bytes fit in its page range.
                assert(s.file_size <= (seg_end_vpn(segs@[k2 as int]) - seg_start_vpn(
                    segs@[k2 as int])) * 4096) by (nonlinear_arith)
                    requires
                        s == segs@[k2 as int],
                        s.file_size <= s.mem_size,
                        s.vaddr + s.mem_size < 0x80_0000_0000u64,
                        seg_start_vpn(segs@[k2 as int]) == s.vaddr / 4096,
                        seg_end_vpn(segs@[k2 as int])
                            == ((s.vaddr + s.mem_size + 4095) / 4096) as u64,
                ;
            }
            let data_slice = vstd::slice::slice_subrange(elf_data, s.offset as usize, (
            s.offset + s.file_size) as usize);
            let ghost pre_ms = ms;
            ms.push(allocator, area, Some(data_slice));
            proof {
                assert(forall|j: int| 0 <= j < k2
                    ==> ms.areas@[j] == pre_ms.areas@[j]);
                assert forall|b: int| 0 <= b < segs@[k2 as int].file_size
                    implies (#[trigger] ms.areas@[k2 as int].data_frames@[
                        b / (PAGE_SIZE as int)].bytes@[b % (PAGE_SIZE as int)])
                        == elf_data@[segs@[k2 as int].offset + b] by {
                    assert(data_slice@[b] == elf_data@[s.offset + b]);
                }
            }
            max_end_vpn = VirtAddr(s.vaddr + s.mem_size).ceil().0;
            k2 = k2 + 1;
        }
        proof {
            assert(max_end_vpn == max_end);
        }
        // The guard page, then the user stack.
        let user_stack_bottom = (max_end_vpn + 1) * PAGE_SIZE;
        let user_stack_top = user_stack_bottom + USER_STACK_SIZE;
        let perm_rwu = MapPermission(MAP_PERM_R | MAP_PERM_W | MAP_PERM_U);
        let perm_rw = MapPermission(MAP_PERM_R | MAP_PERM_W);
        proof {
            assert((2u8 | 4u8 | 16u8) & 0x1Eu8 == (2u8 | 4u8 | 16u8)
                && (2u8 | 4u8) & 0x1Eu8 == (2u8 | 4u8)) by (bit_vector);
            assert((max_end_vpn + 1) * 4096 % 4096 == 0 && (max_end_vpn + 1) * 4096 / 4096
                == max_end_vpn + 1 && ((max_end_vpn + 1) * 4096 + 8192) / 4096
                == max_end_vpn + 3 && ((max_end_vpn + 1) * 4096 + 8192) % 4096 == 0) by (
            nonlinear_arith)
                requires max_end_vpn < 0x800_0000u64;
            assert(((max_end_vpn + 1) * 4096 + 8192 + 4095) / 4096 == max_end_vpn + 3) by (
            nonlinear_arith)
                requires max_end_vpn < 0x800_0000u64;
        }
        proof {
            // The stack and trap-context areas need at most six and three
            // frames respectively.
            let sb = (max_end_vpn + 1) as u64;
            let st = (max_end_vpn + 3) as u64;
            assert((st - 1) as u64 / 512 - sb / 512 <= 1
                && (st - 1) as u64 / 262144 - sb / 262144 <= 1) by (bit_vector)
                requires st == (sb + 2) as u64;
            assert(frames_needed(sb, st, true) <= 6);
            assert(frames_needed(0x7FF_FFFEu64, 0x7FF_FFFFu64, true) == 3);
        }
        let ghost pre_stack_ms = ms;
        ms.push(
            allocator,
            MapArea::new(VirtAddr(user_stack_bottom), VirtAddr(user_stack_top),
                MapType::Framed, perm_rwu),
            None,
        );
        // The trap-context page, just below the trampoline.
        let tc_va = VirtAddr::from_u64(TRAP_CONTEXT);
        let tr_va = VirtAddr::from_u64(TRAMPOLINE);
        proof {
            assert(tc_va.0 / 4096 == 0x7FF_FFFEu64 && (tr_va.0 + 4095) / 4096
                == 0x7FF_FFFFu64 && tc_va.0 % 4096 == 0);
            assert(forall|a: int| 0 <= a < ms.areas@.len()
                ==> (#[trigger] ms.areas@[a]).end() <= max_end_vpn + 3);
        }
        let ghost pre_tc_ms = ms;
        ms.push(
            allocator,
            MapArea::new(tc_va, tr_va, MapType::Framed, perm_rw),
            None,
        );
        proof {
            let n = segs@.len() as int;
            assert(forall|j: int| 0 <= j < n
                ==> ms.areas@[j] == pre_stack_ms.areas@[j]);
            assert(ms.areas@[n] == pre_tc_ms.areas@[n]);
        }
        Some((ms, user_stack_top, entry))
    }
}

/// Law: in a well-formed space, every page of an active area translates
/// to a valid leaf whose permission flags are exactly the area's, and a
/// framed area's page maps to the frame recorded for it, which no other
/// page of the space records.
pub proof fn lemma_area_pages_mapped(ms: MemorySet, a: int, vpn: u64)
    requires
        ms.wf(),
        0 <= a < ms.areas@.len(),
        ms.areas@[a].holds(vpn),
    ensures
        ms.page_table.translate_spec(vpn) is Some,
        spec_pte_valid(ms.page_table.translate_spec(vpn)->Some_0.bits),
        crate::page_table::spec_pte_flags(ms.page_table.translate_spec(vpn)->Some_0.bits)
            == (ms.areas@[a].map_perm.0 | 1u8),
        ms.areas@[a].map_type == MapType::Framed ==> {
            &&& spec_pte_ppn(ms.page_table.translate_spec(vpn)->Some_0.bits)
                == ms.areas@[a].data_frames@[vpn - ms.areas@[a].start()].ppn.0
            &&& forall|j: int|
                    0 <= j < ms.areas@[a].data_frames@.len()
                    && j != vpn - ms.areas@[a].start()
                        ==> (#[trigger] ms.areas@[a].data_frames@[j]).ppn.0
                            != ms.areas@[a].data_frames@[vpn - ms.areas@[a].start()].ppn.0
        },
{
    let area = ms.areas@[a];
    let i = vpn - area.start();
    assert(area.mapped_in(ms.page_table));
    assert(ms.page_table.translate_spec((area.start() + i) as u64)
        == Some(area.expected_pte(i)));
    let pv = area.map_perm.0;
    assert((pv | 1u8) & 1 == 1) by (bit_vector);
    if area.map_type == MapType::Framed {
        assert(area.data_frames@[i].ppn.0 < 0x1000_0000_0000u64);
        crate::page_table::lemma_pte_round_trip(area.data_frames@[i].ppn.0, (pv | 1u8));
    } else {
        assert(vpn < 0x800_0000u64);
        crate::page_table::lemma_pte_round_trip(vpn, (pv | 1u8));
    }
}

/// Law: in every space whose trampoline is mapped, the trampoline page
/// translates to the trampoline code's frame, readable and executable but
/// not user-accessible.
pub proof fn lemma_trampoline_mapped(ms: MemorySet, p: PhysPageNum)
    requires
        ms.wf(),
        ms.trampoline@ == Some(p),
    ensures
        ms.page_table.translate_spec(trampoline_vpn()) is Some,
        spec_pte_valid(ms.page_table.translate_spec(trampoline_vpn())->Some_0.bits),
        spec_pte_ppn(ms.page_table.translate_spec(trampoline_vpn())->Some_0.bits) == p.0,
        crate::page_table::spec_pte_flags(
            ms.page_table.translate_spec(trampoline_vpn())->Some_0.bits,
        ) == 11u8,
        crate::page_table::spec_pte_flags(
            ms.page_table.translate_spec(trampoline_vpn())->Some_0.bits,
        ) & 16u8 == 0u8,
{
    crate::page_table::lemma_pte_round_trip(p.0, 11u8);
    assert(11u8 & 1 == 1 && 11u8 & 16u8 == 0u8) by (bit_vector);
}

/// Law: in a user space as the loader builds it, the trap-context page
/// just below the trampoline translates to a valid leaf that is readable
/// and writable but not user-accessible.
pub proof fn lemma_trap_context_mapped(ms: MemorySet)
    requires
        ms.wf(),
        ms.areas@.len() >= 1,
        ms.areas@.last().start() == trampoline_vpn() - 1,
        ms.areas@.last().end() == trampoline_vpn(),
        ms.areas@.last().map_type == MapType::Framed,
        ms.areas@.last().map_perm.0 == (MAP_PERM_R | MAP_PERM_W),
    ensures
        ms.page_table.translate_spec((trampoline_vpn() - 1) as u64) is Some,
        spec_pte_valid(
            ms.page_table.translate_spec((trampoline_vpn() - 1) as u64)->Some_0.bits,
        ),
        crate::page_table::spec_pte_flags(
            ms.page_table.translate_spec((trampoline_vpn() - 1) as u64)->Some_0.bits,
        ) == 7u8,
        crate::page_table::spec_pte_flags(
            ms.page_table.translate_spec((trampoline_vpn() - 1) as u64)->Some_0.bits,
        ) & 16u8 == 0u8,
{
    let n = ms.areas@.len() - 1;
    assert((2u8 | 4u8) == 6u8) by (bit_vector);
    lemma_area_pages_mapped(ms, n, (trampoline_vpn() - 1) as u64);
    assert(7u8 & 16u8 == 0u8 && (6u8 | 1u8) == 7u8) by (bit_vector);
}

/// Length of the optional initial data of a pushed area.
pub open spec fn spec_data_len(data: Option<&[u8]>) -> int {
    match data {
        Some(d) => d@.len() as int,
        None => 0,
    }
}

/// Mapping a page allocates zero, one or two interior table frames.
proof fn lemma_map_cost_bounds(pt: PageTable, v: u64)
    requires
        pt.wf(),
    ensures
        0 <= pt.map_cost(v) <= 2,
{
}

} // verus!
