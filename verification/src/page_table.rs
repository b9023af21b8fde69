//! The Sv39 three-level page table: 64-bit entries holding a 44-bit
//! physical page number and an 8-bit flag set, and a table structure that
//! walks and mutates the three levels, allocating interior table frames on
//! demand.
//!
//! Raw table frames are modelled as owned data: each table node couples the
//! frame tracker that owns the physical frame with the 512 entries that the
//! frame holds. A walk follows an entry's page number to the node owning
//! that frame; well-formedness makes that lookup unambiguous.

use vstd::prelude::*;
use crate::address::{PhysPageNum, VirtPageNum, vpn_index0, vpn_index1, vpn_index2};
use crate::frame_allocator::{FrameTracker, StackFrameAllocator, frame_alloc};

verus! {

/// Valid bit of a page-table entry.
pub const PTE_V: u8 = 1;
/// Readable bit.
pub const PTE_R: u8 = 2;
/// Writable bit.
pub const PTE_W: u8 = 4;
/// Executable bit.
pub const PTE_X: u8 = 8;
/// User-accessible bit.
pub const PTE_U: u8 = 16;
/// Global-mapping bit.
pub const PTE_G: u8 = 32;
/// Accessed bit.
pub const PTE_A: u8 = 64;
/// Dirty bit.
pub const PTE_D: u8 = 128;

/// The 8-bit flag set of a page-table entry.
#[derive(Clone, Copy, PartialEq, Eq, Structural, Debug)]
pub struct PTEFlags(pub u8);

impl PTEFlags {
    /// The empty flag set.
    pub fn empty() -> (r: PTEFlags)
        ensures
            r.0 == 0,
    {
        PTEFlags(0)
    }

    /// The set holding both arguments' flags.
    pub fn union(self, other: PTEFlags) -> (r: PTEFlags)
        ensures
            r.0 == (self.0 | other.0),
    {
        PTEFlags(self.0 | other.0)
    }

    /// Whether every flag of `other` is set in `self`.
    pub fn contains(self, other: PTEFlags) -> (r: bool)
        ensures
            r == ((self.0 & other.0) == other.0),
    {
        (self.0 & other.0) == other.0
    }
}

/// The physical page number packed in entry bits: bits 53..10.
pub open spec fn spec_pte_ppn(bits: u64) -> u64 {
    (bits >> 10) & 0xFFF_FFFF_FFFFu64
}

/// The flag byte packed in entry bits: bits 7..0.
pub open spec fn spec_pte_flags(bits: u64) -> u8 {
    bits as u8
}

/// Whether the entry's valid bit is set.
pub open spec fn spec_pte_valid(bits: u64) -> bool {
    bits & 1 == 1
}

/// The bits of an entry built from a page number and flags.
pub open spec fn spec_pte_new(ppn: u64, flags: u8) -> u64 {
    (ppn << 10) | (flags as u64)
}

/// A single Sv39 page-table entry.
#[derive(Clone, Copy, PartialEq, Eq, Structural, Debug)]
pub struct PageTableEntry {
    /// The raw 64-bit entry.
    pub bits: u64,
}

impl PageTableEntry {
    /// Pack a page number and flags into an entry.
    pub fn new(ppn: PhysPageNum, flags: PTEFlags) -> (r: PageTableEntry)
        requires
            ppn.0 < 0x1000_0000_0000u64,
        ensures
            r.bits == spec_pte_new(ppn.0, flags.0),
            spec_pte_ppn(r.bits) == ppn.0,
            spec_pte_flags(r.bits) == flags.0,
            spec_pte_valid(r.bits) == ((flags.0 & 1) == 1),
    {
        proof {
            lemma_pte_round_trip(ppn.0, flags.0);
        }
        PageTableEntry { bits: (ppn.0 << 10) | (flags.0 as u64) }
    }

    /// The all-zero, invalid entry.
    pub fn empty() -> (r: PageTableEntry)
        ensures
            r.bits == 0,
            !spec_pte_valid(r.bits),
    {
        proof {
            assert(0u64 & 1 == 0) by (bit_vector);
        }
        PageTableEntry { bits: 0 }
    }

    /// The packed physical page number.
    pub fn ppn(&self) -> (r: PhysPageNum)
        ensures
            r.0 == spec_pte_ppn(self.bits),
    {
        PhysPageNum((self.bits >> 10) & 0xFFF_FFFF_FFFFu64)
    }

    /// The packed flag set.
    pub fn flags(&self) -> (r: PTEFlags)
        ensures
            r.0 == spec_pte_flags(self.bits),
    {
        PTEFlags(self.bits as u8)
    }

    /// Whether the entry is valid.
    pub fn is_valid(&self) -> (r: bool)
        ensures
            r == spec_pte_valid(self.bits),
    {
        self.bits & 1 == 1
    }

    /// Whether the mapped page may be read.
    pub fn readable(&self) -> (r: bool)
        ensures
            r == ((self.bits & 2) == 2),
    {
        self.bits & 2 == 2
    }

    /// Whether the mapped page may be written.
    pub fn writable(&self) -> (r: bool)
        ensures
            r == ((self.bits & 4) == 4),
    {
        self.bits & 4 == 4
    }

    /// Whether the mapped page may be executed.
    pub fn executable(&self) -> (r: bool)
        ensures
            r == ((self.bits & 8) == 8),
    {
        self.bits & 8 == 8
    }
}

/// Law: packing a 44-bit page number with a flag byte and unpacking gives
/// both back unchanged.
pub proof fn lemma_pte_round_trip(ppn: u64, flags: u8)
    requires
        ppn < 0x1000_0000_0000u64,
    ensures
        spec_pte_ppn(spec_pte_new(ppn, flags)) == ppn,
        spec_pte_flags(spec_pte_new(ppn, flags)) == flags,
        spec_pte_valid(spec_pte_new(ppn, flags)) == ((flags & 1) == 1),
{
    assert(ppn < 0x1000_0000_0000u64 ==>
        ((((ppn << 10) | (flags as u64)) >> 10) & 0xFFF_FFFF_FFFFu64) == ppn) by (bit_vector);
    assert(((ppn << 10) | (flags as u64)) as u8 == flags) by (bit_vector);
    assert((((ppn << 10) | (flags as u64)) & 1 == 1) == ((flags & 1) == 1)) by (bit_vector);
}

/// One owned table frame: the tracker that owns the physical frame and the
/// 512 entries that the frame holds, as the kernel's typed view of it.
pub struct PtNode {
    /// Ownership of the frame.
    pub frame: FrameTracker,
    /// The 512 entries stored in the frame.
    pub entries: Vec<PageTableEntry>,
}

impl PtNode {
    /// The physical page number of the owned frame.
    pub open spec fn ppn(&self) -> u64 {
        self.frame.ppn.0
    }

    /// A full node: one whole frame, 512 entries.
    pub open spec fn wf(&self) -> bool {
        &&& self.entries@.len() == 512
        &&& self.frame.wf()
    }
}

/// Index of the first node owning frame `ppn`, or `-1` if none does.
pub open spec fn find_node(nodes: Seq<PtNode>, ppn: u64) -> int
    decreases nodes.len(),
{
    if nodes.len() == 0 {
        -1
    } else if nodes[0].ppn() == ppn {
        0
    } else {
        let r = find_node(nodes.drop_first(), ppn);
        if r < 0 {
            -1
        } else {
            r + 1
        }
    }
}

/// What `find_node` returns: `-1` exactly when no node owns the frame,
/// otherwise the first owning index.
pub proof fn lemma_find_node_props(nodes: Seq<PtNode>, ppn: u64)
    ensures
        find_node(nodes, ppn) == -1 ==> forall|j: int|
            0 <= j < nodes.len() ==> (#[trigger] nodes[j]).ppn() != ppn,
        find_node(nodes, ppn) != -1 ==> {
            &&& 0 <= find_node(nodes, ppn) < nodes.len()
            &&& nodes[find_node(nodes, ppn)].ppn() == ppn
            &&& forall|j: int| 0 <= j < find_node(nodes, ppn)
                    ==> (#[trigger] nodes[j]).ppn() != ppn
        },
    decreases nodes.len(),
{
    if nodes.len() > 0 && nodes[0].ppn() != ppn {
        let rest = nodes.drop_first();
        lemma_find_node_props(rest, ppn);
        let r = find_node(rest, ppn);
        if r == -1 {
            assert forall|j: int| 0 <= j < nodes.len()
                implies (#[trigger] nodes[j]).ppn() != ppn by {
                if j > 0 {
                    assert(rest[j - 1] == nodes[j]);
                }
            }
        } else {
            assert(nodes[r + 1] == rest[r]);
            assert forall|j: int| 0 <= j < r + 1
                implies (#[trigger] nodes[j]).ppn() != ppn by {
                if j > 0 {
                    assert(rest[j - 1] == nodes[j]);
                }
            }
        }
    }
}

/// The first index with a matching frame is what `find_node` returns.
pub proof fn lemma_find_node_first(nodes: Seq<PtNode>, ppn: u64, k: int)
    requires
        0 <= k < nodes.len(),
        nodes[k].ppn() == ppn,
        forall|j: int| 0 <= j < k ==> (#[trigger] nodes[j]).ppn() != ppn,
    ensures
        find_node(nodes, ppn) == k,
    decreases nodes.len(),
{
    if k > 0 {
        let rest = nodes.drop_first();
        lemma_find_node_first(rest, ppn, k - 1);
    }
}

/// Appending a node does not change where existing frames are found; the
/// new frame is found at the end if it was not present before.
pub proof fn lemma_find_node_push(nodes: Seq<PtNode>, n: PtNode, ppn: u64)
    ensures
        find_node(nodes, ppn) >= 0
            ==> find_node(nodes.push(n), ppn) == find_node(nodes, ppn),
        find_node(nodes, ppn) == -1 && n.ppn() == ppn
            ==> find_node(nodes.push(n), ppn) == nodes.len(),
        find_node(nodes, ppn) == -1 && n.ppn() != ppn
            ==> find_node(nodes.push(n), ppn) == -1,
    decreases nodes.len(),
{
    if nodes.len() == 0 {
        assert(nodes.push(n).len() == 1);
        assert(nodes.push(n)[0] == n);
        assert(nodes.push(n).drop_first() =~= Seq::<PtNode>::empty());
        assert(find_node(Seq::<PtNode>::empty(), ppn) == -1);
    } else {
        let rest = nodes.drop_first();
        assert(nodes.push(n)[0] == nodes[0]);
        assert(nodes.push(n).drop_first() =~= rest.push(n));
        lemma_find_node_push(rest, n, ppn);
        if nodes[0].ppn() != ppn {
            assert(find_node(nodes, ppn) == (if find_node(rest, ppn) < 0 {
                -1int
            } else {
                find_node(rest, ppn) + 1
            }));
            assert(find_node(nodes.push(n), ppn) == (if find_node(rest.push(n), ppn) < 0 {
                -1int
            } else {
                find_node(rest.push(n), ppn) + 1
            }));
        }
    }
}

/// Lookup depends only on which frames the nodes own, not on their entries.
pub proof fn lemma_find_node_same_ppns(a: Seq<PtNode>, b: Seq<PtNode>, ppn: u64)
    requires
        a.len() == b.len(),
        forall|k: int| 0 <= k < a.len() ==> (#[trigger] a[k]).ppn() == b[k].ppn(),
    ensures
        find_node(a, ppn) == find_node(b, ppn),
    decreases a.len(),
{
    if a.len() > 0 {
        lemma_find_node_same_ppns(a.drop_first(), b.drop_first(), ppn);
        assert forall|k: int| 0 <= k < a.drop_first().len()
            implies (#[trigger] a.drop_first()[k]).ppn() == b.drop_first()[k].ppn() by {
            assert(a.drop_first()[k] == a[k + 1]);
            assert(b.drop_first()[k] == b[k + 1]);
        }
    }
}

/// An Sv39 page table: the root frame (level 2) plus every interior table
/// frame allocated during walks, grouped by level. Leaf data frames are not
/// owned here; map areas own those.
pub struct PageTable {
    /// Physical page number of the root table frame.
    pub root_ppn: PhysPageNum,
    /// The root table node (level 2).
    pub root: PtNode,
    /// Level-1 table nodes, in order of allocation.
    pub l1: Vec<PtNode>,
    /// Level-0 table nodes, in order of allocation.
    pub l0: Vec<PtNode>,
}

impl PageTable {
    /// Structural invariant of the three-level table. Valid interior
    /// entries carry only the valid bit and point, injectively, at nodes
    /// of the next level down.
    pub open spec fn wf(&self) -> bool {
        &&& self.root.wf()
        &&& self.root.ppn() == self.root_ppn.0
        &&& self.root_ppn.0 < 0x1000_0000_0000u64
        &&& forall|i: int| 0 <= i < self.l1@.len() ==> (#[trigger] self.l1@[i]).wf()
        &&& forall|i: int| 0 <= i < self.l0@.len() ==> (#[trigger] self.l0@[i]).wf()
        &&& forall|i: int, j: int| 0 <= i < j < self.l1@.len()
                ==> self.l1@[i].ppn() != self.l1@[j].ppn()
        &&& forall|i: int, j: int| 0 <= i < j < self.l0@.len()
                ==> self.l0@[i].ppn() != self.l0@[j].ppn()
        &&& forall|e: int| 0 <= e < 512 && spec_pte_valid(#[trigger] self.root.entries@[e].bits)
                ==> {
                    &&& find_node(self.l1@, spec_pte_ppn(self.root.entries@[e].bits)) >= 0
                    &&& spec_pte_flags(self.root.entries@[e].bits) == 1u8
                }
        &&& forall|e1: int, e2: int|
                0 <= e1 < 512 && 0 <= e2 < 512 && e1 != e2
                && spec_pte_valid(#[trigger] self.root.entries@[e1].bits)
                && spec_pte_valid(#[trigger] self.root.entries@[e2].bits)
                ==> spec_pte_ppn(self.root.entries@[e1].bits)
                    != spec_pte_ppn(self.root.entries@[e2].bits)
        &&& forall|i: int, e: int|
                0 <= i < self.l1@.len() && 0 <= e < 512
                && spec_pte_valid(#[trigger] self.l1@[i].entries@[e].bits)
                ==> {
                    &&& find_node(self.l0@, spec_pte_ppn(self.l1@[i].entries@[e].bits)) >= 0
                    &&& spec_pte_flags(self.l1@[i].entries@[e].bits) == 1u8
                }
        &&& forall|i1: int, e1: int, i2: int, e2: int|
                0 <= i1 < self.l1@.len() && 0 <= e1 < 512
                && 0 <= i2 < self.l1@.len() && 0 <= e2 < 512
                && (i1 != i2 || e1 != e2)
                && spec_pte_valid(#[trigger] self.l1@[i1].entries@[e1].bits)
                && spec_pte_valid(#[trigger] self.l1@[i2].entries@[e2].bits)
                ==> spec_pte_ppn(self.l1@[i1].entries@[e1].bits)
                    != spec_pte_ppn(self.l1@[i2].entries@[e2].bits)
    }

    /// All frames owned by the table are live in the given allocator.
    pub open spec fn frames_live(&self, a: StackFrameAllocator) -> bool {
        &&& a.is_live(self.root_ppn.0)
        &&& forall|i: int| 0 <= i < self.l1@.len()
                ==> a.is_live((#[trigger] self.l1@[i]).ppn())
        &&& forall|i: int| 0 <= i < self.l0@.len()
                ==> a.is_live((#[trigger] self.l0@[i]).ppn())
    }

    /// Whether the table owns frame `p` as one of its table nodes.
    pub open spec fn owns_node(&self, p: u64) -> bool {
        p == self.root_ppn.0 || find_node(self.l1@, p) >= 0 || find_node(self.l0@, p) >= 0
    }

    /// The leaf entry the hardware would reach for a virtual page: walk the
    /// root entry, the level-1 entry, the level-0 entry, failing on the
    /// first invalid one.
    pub open spec fn translate_spec(&self, vpn: u64) -> Option<PageTableEntry> {
        let pte2 = self.root.entries@[vpn_index2(vpn) as int];
        if !spec_pte_valid(pte2.bits) {
            None
        } else {
            let n1 = find_node(self.l1@, spec_pte_ppn(pte2.bits));
            if n1 < 0 {
                None
            } else {
                let pte1 = self.l1@[n1].entries@[vpn_index1(vpn) as int];
                if !spec_pte_valid(pte1.bits) {
                    None
                } else {
                    let n0 = find_node(self.l0@, spec_pte_ppn(pte1.bits));
                    if n0 < 0 {
                        None
                    } else {
                        let pte0 = self.l0@[n0].entries@[vpn_index0(vpn) as int];
                        if !spec_pte_valid(pte0.bits) {
                            None
                        } else {
                            Some(pte0)
                        }
                    }
                }
            }
        }
    }

    /// How many interior table frames mapping page `v` would allocate:
    /// one per invalid entry on the walk's upper two levels.
    pub open spec fn map_cost(&self, v: u64) -> int {
        let pte2 = self.root.entries@[vpn_index2(v) as int];
        if !spec_pte_valid(pte2.bits) {
            2
        } else {
            let n1 = find_node(self.l1@, spec_pte_ppn(pte2.bits));
            if !spec_pte_valid(self.l1@[n1].entries@[vpn_index1(v) as int].bits) {
                1
            } else {
                0
            }
        }
    }

    /// A fresh table: allocates the root frame; every translation misses.
    /// `None` when physical memory is exhausted.
    pub fn new(allocator: &mut StackFrameAllocator) -> (r: Option<PageTable>)
        requires
            old(allocator).wf(),
        ensures
            final(allocator).wf(),
            final(allocator).end == old(allocator).end,
            r is None <==> old(allocator).avail() == 0,
            forall|q: u64| old(allocator).is_live(q) ==> final(allocator).is_live(q),
            match r {
                Some(pt) => {
                    &&& pt.wf()
                    &&& pt.frames_live(*final(allocator))
                    &&& !old(allocator).is_live(pt.root_ppn.0)
                    &&& forall|w: u64| pt.translate_spec(w) is None
                    &&& forall|p: u64| pt.owns_node(p) <==> p == pt.root_ppn.0
                    &&& pt.l1@.len() == 0
                    &&& pt.l0@.len() == 0
                    &&& final(allocator).avail() == old(allocator).avail() - 1
                },
                None => final(allocator).current == old(allocator).current
                    && final(allocator).recycled@ == old(allocator).recycled@,
            },
    {
        let frame = match frame_alloc(allocator) {
            Some(f) => f,
            None => {
                return None;
            },
        };
        let root_ppn = frame.ppn;
        let root = PtNode { frame, entries: empty_entries() };
        let pt = PageTable { root_ppn, root, l1: Vec::new(), l0: Vec::new() };
        proof {
            assert(forall|w: u64| pt.translate_spec(w) is None) by {
                assert(forall|w: u64| vpn_index2(w) < 512) by (bit_vector);
            }
            assert(forall|p: u64| find_node(pt.l1@, p) == -1 && find_node(pt.l0@, p) == -1);
        }
        Some(pt)
    }

    /// A read-only handle on another address space's table, carrying only
    /// the root page number from its `satp` token. It owns no frames, so in
    /// this model every translation through it misses.
    pub fn from_token(satp: u64) -> (r: PageTable)
        ensures
            r.root_ppn.0 == satp % 0x1000_0000_0000u64,
            r.wf(),
            r.l1@.len() == 0,
            r.l0@.len() == 0,
            forall|w: u64| r.translate_spec(w) is None,
            forall|p: u64| r.owns_node(p) <==> p == r.root_ppn.0,
    {
        let root_ppn = PhysPageNum::from_u64(satp);
        let root = PtNode { frame: FrameTracker::new(root_ppn), entries: empty_entries() };
        let pt = PageTable { root_ppn, root, l1: Vec::new(), l0: Vec::new() };
        proof {
            assert(forall|w: u64| pt.translate_spec(w) is None) by {
                assert(forall|w: u64| vpn_index2(w) < 512) by (bit_vector);
            }
            assert(forall|p: u64| find_node(pt.l1@, p) == -1 && find_node(pt.l0@, p) == -1);
        }
        pt
    }

    /// The `satp` value selecting this table: mode 8 (Sv39) in the top
    /// nibble, the root page number in the low 44 bits.
    pub fn token(&self) -> (r: u64)
        requires
            self.root_ppn.0 < 0x1000_0000_0000u64,
        ensures
            r == 0x8000_0000_0000_0000u64 + self.root_ppn.0,
            r >> 60 == 8,
            r % 0x1000_0000_0000u64 == self.root_ppn.0,
    {
        let p = self.root_ppn.0;
        proof {
            assert(p < 0x1000_0000_0000u64 ==> {
                &&& ((8u64 << 60) | p) == 0x8000_0000_0000_0000u64 + p
                &&& (((8u64 << 60) | p) >> 60) == 8
                &&& ((8u64 << 60) | p) % 0x1000_0000_0000u64 == p
            }) by (bit_vector);
        }
        (8u64 << 60) | p
    }

    /// Index of the level-1 node owning frame `ppn`, if any.
    fn find_l1(&self, ppn: u64) -> (r: Option<usize>)
        ensures
            match r {
                Some(i) => i == find_node(self.l1@, ppn),
                None => find_node(self.l1@, ppn) == -1,
            },
    {
        let mut i: usize = 0;
        while i < self.l1.len()
            invariant
                i <= self.l1@.len(),
                forall|j: int| 0 <= j < i ==> (#[trigger] self.l1@[j]).ppn() != ppn,
            decreases self.l1@.len() - i,
        {
            if self.l1[i].frame.ppn.0 == ppn {
                proof {
                    lemma_find_node_first(self.l1@, ppn, i as int);
                }
                return Some(i);
            }
            i = i + 1;
        }
        proof {
            lemma_find_node_props(self.l1@, ppn);
            if find_node(self.l1@, ppn) != -1 {
                assert(self.l1@[find_node(self.l1@, ppn)].ppn() == ppn);
            }
        }
        None
    }

    /// Index of the level-0 node owning frame `ppn`, if any.
    fn find_l0(&self, ppn: u64) -> (r: Option<usize>)
        ensures
            match r {
                Some(i) => i == find_node(self.l0@, ppn),
                None => find_node(self.l0@, ppn) == -1,
            },
    {
        let mut i: usize = 0;
        while i < self.l0.len()
            invariant
                i <= self.l0@.len(),
                forall|j: int| 0 <= j < i ==> (#[trigger] self.l0@[j]).ppn() != ppn,
            decreases self.l0@.len() - i,
        {
            if self.l0[i].frame.ppn.0 == ppn {
                proof {
                    lemma_find_node_first(self.l0@, ppn, i as int);
                }
                return Some(i);
            }
            i = i + 1;
        }
        proof {
            lemma_find_node_props(self.l0@, ppn);
            if find_node(self.l0@, ppn) != -1 {
                assert(self.l0@[find_node(self.l0@, ppn)].ppn() == ppn);
            }
        }
        None
    }

    /// Walk the table without allocating: the leaf entry reached for the
    /// page, or `None` on the first invalid level.
    pub fn translate(&self, vpn: VirtPageNum) -> (r: Option<PageTableEntry>)
        requires
            self.wf(),
        ensures
            r == self.translate_spec(vpn.0),
    {
        proof {
            let v = vpn.0;
            assert(vpn_index2(v) < 512 && vpn_index1(v) < 512 && vpn_index0(v) < 512)
                by (bit_vector);
        }
        let idxs = vpn.indexes();
        let pte2 = self.root.entries[idxs[0] as usize];
        if !pte2.is_valid() {
            return None;
        }
        let n1 = match self.find_l1(pte2.ppn().0) {
            Some(i) => i,
            None => {
                return None;
            },
        };
        proof {
            lemma_find_node_props(self.l1@, spec_pte_ppn(pte2.bits));
        }
        let pte1 = self.l1[n1].entries[idxs[1] as usize];
        if !pte1.is_valid() {
            return None;
        }
        let n0 = match self.find_l0(pte1.ppn().0) {
            Some(i) => i,
            None => {
                return None;
            },
        };
        proof {
            lemma_find_node_props(self.l0@, spec_pte_ppn(pte1.bits));
        }
        let pte0 = self.l0[n0].entries[idxs[2] as usize];
        if !pte0.is_valid() {
            return None;
        }
        Some(pte0)
    }
}
impl PageTable {
    /// Make the root entry at `i2` point at a level-1 node, allocating a
    /// fresh empty node when the entry is invalid. Returns the index of
    /// that node in `l1`, or `None` when memory is exhausted. No
    /// translation changes: a fresh interior node has no valid entries.
    fn ensure_l1(&mut self, allocator: &mut StackFrameAllocator, i2: usize) -> (r: Option<
        usize,
    >)
        requires
            old(self).wf(),
            old(allocator).wf(),
            old(self).frames_live(*old(allocator)),
            i2 < 512,
        ensures
            final(self).wf(),
            final(allocator).wf(),
            final(self).frames_live(*final(allocator)),
            final(self).root_ppn == old(self).root_ppn,
            final(self).l0@ == old(self).l0@,
            final(allocator).end == old(allocator).end,
            final(allocator).avail() >= old(allocator).avail() - 1,
            forall|q: u64| old(allocator).is_live(q) ==> final(allocator).is_live(q),
            forall|w: u64| final(self).translate_spec(w) == old(self).translate_spec(w),
            forall|p: u64| old(self).owns_node(p) ==> final(self).owns_node(p),
            forall|p: u64| final(self).owns_node(p)
                ==> old(self).owns_node(p) || !old(allocator).is_live(p),
            r is None ==> old(allocator).avail() == 0,
            spec_pte_valid(old(self).root.entries@[i2 as int].bits) ==> {
                &&& r is Some
                &&& final(allocator).avail() == old(allocator).avail()
                &&& final(self).l1@ == old(self).l1@
                &&& final(self).root.entries@ == old(self).root.entries@
            },
            !spec_pte_valid(old(self).root.entries@[i2 as int].bits) && r is Some
                ==> final(allocator).avail() == old(allocator).avail() - 1,
            match r {
                Some(n1) => {
                    &&& n1 < final(self).l1@.len()
                    &&& spec_pte_valid(final(self).root.entries@[i2 as int].bits)
                    &&& find_node(
                        final(self).l1@,
                        spec_pte_ppn(final(self).root.entries@[i2 as int].bits),
                    ) == n1 as int
                    &&& spec_pte_valid(old(self).root.entries@[i2 as int].bits)
                        || forall|e: int| 0 <= e < 512
                            ==> (#[trigger] final(self).l1@[n1 as int].entries@[e]).bits == 0
                },
                None => true,
            },
    {
        let pte2 = self.root.entries[i2];
        if pte2.is_valid() {
            let n1_opt = self.find_l1(pte2.ppn().0);
            proof {
                lemma_find_node_props(self.l1@, spec_pte_ppn(pte2.bits));
                assert(n1_opt is Some);
            }
            let n1 = if let Some(i) = n1_opt {
                i
            } else {
                proof {
                    assert(false);
                }
                0
            };
            return Some(n1);
        }
        let frame = match frame_alloc(allocator) {
            Some(f) => f,
            None => {
                return None;
            },
        };
        let node_ppn = frame.ppn;
        let fresh_entries = empty_entries();
        self.l1.push(PtNode { frame, entries: fresh_entries });
        let new_pte = PageTableEntry::new(node_ppn, PTEFlags(PTE_V));
        self.root.entries[i2] = new_pte;
        let n1 = self.l1.len() - 1;
        proof {
            let newidx = old(self).l1@.len() as int;
            let f = node_ppn.0;
            let nl1 = self.l1@;
            let nroot = self.root.entries@;
            assert(nl1 =~= old(self).l1@.push(nl1[newidx]));
            assert(nroot =~= old(self).root.entries@.update(i2 as int, new_pte));
            assert(forall|e: int| 0 <= e < 512
                ==> (#[trigger] nl1[newidx].entries@[e]).bits == 0);
            assert(0u64 & 1 == 0) by (bit_vector);
            assert(1u8 & 1 == 1) by (bit_vector);
            // The fresh frame differs from every frame the table already owns.
            assert forall|k: int| 0 <= k < newidx
                implies (#[trigger] old(self).l1@[k]).ppn() != f by {
                assert(old(allocator).is_live(old(self).l1@[k].ppn()));
            }
            lemma_find_node_props(old(self).l1@, f);
            lemma_find_node_push(old(self).l1@, nl1[newidx], f);
            assert(find_node(nl1, f) == newidx);
            // Valid root entries still point at level-1 nodes, injectively.
            assert forall|e: int| 0 <= e < 512 && spec_pte_valid(#[trigger] nroot[e].bits)
                implies find_node(nl1, spec_pte_ppn(nroot[e].bits)) >= 0
                    && spec_pte_flags(nroot[e].bits) == 1u8 by {
                if e != i2 as int {
                    assert(nroot[e] == old(self).root.entries@[e]);
                    assert(spec_pte_valid(old(self).root.entries@[e].bits));
                    lemma_find_node_push(old(self).l1@, nl1[newidx],
                        spec_pte_ppn(nroot[e].bits));
                }
            }
            assert forall|e1: int, e2: int|
                0 <= e1 < 512 && 0 <= e2 < 512 && e1 != e2
                && spec_pte_valid(#[trigger] nroot[e1].bits)
                && spec_pte_valid(#[trigger] nroot[e2].bits)
                implies spec_pte_ppn(nroot[e1].bits) != spec_pte_ppn(nroot[e2].bits) by {
                if e1 == i2 as int || e2 == i2 as int {
                    let o = if e1 == i2 as int { e2 } else { e1 };
                    assert(nroot[o] == old(self).root.entries@[o]);
                    let t = spec_pte_ppn(old(self).root.entries@[o].bits);
                    assert(find_node(old(self).l1@, t) >= 0);
                    lemma_find_node_props(old(self).l1@, t);
                    assert(old(allocator).is_live(
                        old(self).l1@[find_node(old(self).l1@, t)].ppn()));
                } else {
                    assert(nroot[e1] == old(self).root.entries@[e1]);
                    assert(nroot[e2] == old(self).root.entries@[e2]);
                }
            }
            // Level-1 entries are untouched but for the all-invalid new node.
            assert forall|i: int, e: int|
                0 <= i < nl1.len() && 0 <= e < 512
                && spec_pte_valid(#[trigger] nl1[i].entries@[e].bits)
                implies find_node(self.l0@, spec_pte_ppn(nl1[i].entries@[e].bits)) >= 0
                    && spec_pte_flags(nl1[i].entries@[e].bits) == 1u8 by {
                assert(i < newidx);
                assert(nl1[i] == old(self).l1@[i]);
                assert(spec_pte_valid(old(self).l1@[i].entries@[e].bits));
                assert(self.l0@ == old(self).l0@);
            }
            assert forall|i1x: int, e1: int, i2x: int, e2: int|
                0 <= i1x < nl1.len() && 0 <= e1 < 512
                && 0 <= i2x < nl1.len() && 0 <= e2 < 512
                && (i1x != i2x || e1 != e2)
                && spec_pte_valid(#[trigger] nl1[i1x].entries@[e1].bits)
                && spec_pte_valid(#[trigger] nl1[i2x].entries@[e2].bits)
                implies spec_pte_ppn(nl1[i1x].entries@[e1].bits)
                    != spec_pte_ppn(nl1[i2x].entries@[e2].bits) by {
                assert(i1x < newidx && i2x < newidx);
                assert(nl1[i1x] == old(self).l1@[i1x]);
                assert(nl1[i2x] == old(self).l1@[i2x]);
            }
            assert(self.wf());
            // No translation moved: the new node has only invalid entries.
            assert forall|w: u64| self.translate_spec(w) == old(self).translate_spec(w) by {
                assert(vpn_index2(w) < 512 && vpn_index1(w) < 512 && vpn_index0(w) < 512)
                    by (bit_vector);
                let e2 = vpn_index2(w) as int;
                if e2 == i2 as int {
                    assert(!spec_pte_valid(old(self).root.entries@[e2].bits));
                    assert(old(self).translate_spec(w) is None);
                    assert(nl1[newidx].entries@[vpn_index1(w) as int].bits == 0);
                    assert(self.translate_spec(w) is None);
                } else {
                    assert(nroot[e2] == old(self).root.entries@[e2]);
                    if spec_pte_valid(old(self).root.entries@[e2].bits) {
                        let t = spec_pte_ppn(old(self).root.entries@[e2].bits);
                        assert(find_node(old(self).l1@, t) >= 0);
                        lemma_find_node_push(old(self).l1@, nl1[newidx], t);
                        let k = find_node(old(self).l1@, t);
                        lemma_find_node_props(old(self).l1@, t);
                        assert(nl1[k] == old(self).l1@[k]);
                        assert(self.l0@ == old(self).l0@);
                    }
                }
            }
            assert forall|p: u64| old(self).owns_node(p) || self.owns_node(p)
                implies (old(self).owns_node(p) ==> self.owns_node(p))
                    && (self.owns_node(p)
                        ==> old(self).owns_node(p) || !old(allocator).is_live(p)) by {
                lemma_find_node_push(old(self).l1@, nl1[newidx], p);
            }
        }
        Some(n1)
    }

    /// Make the entry `i1` of level-1 node `n1` point at a level-0 node,
    /// allocating a fresh empty node when the entry is invalid. Returns the
    /// index of that node in `l0`, or `None` when memory is exhausted.
    fn ensure_l0(&mut self, allocator: &mut StackFrameAllocator, n1: usize, i1: usize) -> (r:
        Option<usize>)
        requires
            old(self).wf(),
            old(allocator).wf(),
            old(self).frames_live(*old(allocator)),
            n1 < old(self).l1@.len(),
            i1 < 512,
        ensures
            final(self).wf(),
            final(allocator).wf(),
            final(self).frames_live(*final(allocator)),
            final(self).root_ppn == old(self).root_ppn,
            final(self).root.entries@ == old(self).root.entries@,
            final(self).l1@.len() == old(self).l1@.len(),
            forall|k: int| 0 <= k < old(self).l1@.len()
                ==> (#[trigger] final(self).l1@[k]).ppn() == old(self).l1@[k].ppn(),
            final(allocator).end == old(allocator).end,
            final(allocator).avail() >= old(allocator).avail() - 1,
            forall|q: u64| old(allocator).is_live(q) ==> final(allocator).is_live(q),
            forall|w: u64| final(self).translate_spec(w) == old(self).translate_spec(w),
            forall|p: u64| old(self).owns_node(p) ==> final(self).owns_node(p),
            forall|p: u64| final(self).owns_node(p)
                ==> old(self).owns_node(p) || !old(allocator).is_live(p),
            r is None ==> old(allocator).avail() == 0,
            spec_pte_valid(old(self).l1@[n1 as int].entries@[i1 as int].bits) ==> {
                &&& r is Some
                &&& final(allocator).avail() == old(allocator).avail()
            },
            !spec_pte_valid(old(self).l1@[n1 as int].entries@[i1 as int].bits) && r is Some
                ==> final(allocator).avail() == old(allocator).avail() - 1,
            match r {
                Some(n0) => {
                    &&& n0 < final(self).l0@.len()
                    &&& spec_pte_valid(final(self).l1@[n1 as int].entries@[i1 as int].bits)
                    &&& find_node(
                        final(self).l0@,
                        spec_pte_ppn(final(self).l1@[n1 as int].entries@[i1 as int].bits),
                    ) == n0 as int
                },
                None => true,
            },
    {
        let pte1 = self.l1[n1].entries[i1];
        if pte1.is_valid() {
            let n0_opt = self.find_l0(pte1.ppn().0);
            proof {
                lemma_find_node_props(self.l0@, spec_pte_ppn(pte1.bits));
                assert(n0_opt is Some);
            }
            let n0 = if let Some(i) = n0_opt {
                i
            } else {
                proof {
                    assert(false);
                }
                0
            };
            return Some(n0);
        }
        let frame = match frame_alloc(allocator) {
            Some(f) => f,
            None => {
                return None;
            },
        };
        let node_ppn = frame.ppn;
        let fresh_entries = empty_entries();
        self.l0.push(PtNode { frame, entries: fresh_entries });
        let new_pte = PageTableEntry::new(node_ppn, PTEFlags(PTE_V));
        self.l1[n1].entries[i1] = new_pte;
        let n0 = self.l0.len() - 1;
        proof {
            let newidx = old(self).l0@.len() as int;
            let f = node_ppn.0;
            let nl0 = self.l0@;
            let nl1 = self.l1@;
            assert(nl0 =~= old(self).l0@.push(nl0[newidx]));
            assert(forall|k: int| 0 <= k < nl1.len() && k != n1
                ==> nl1[k] == old(self).l1@[k]);
            assert(nl1[n1 as int].entries@
                =~= old(self).l1@[n1 as int].entries@.update(i1 as int, new_pte));
            assert(nl1[n1 as int].ppn() == old(self).l1@[n1 as int].ppn());
            assert(forall|k: int| 0 <= k < nl1.len()
                ==> (#[trigger] nl1[k]).ppn() == old(self).l1@[k].ppn());
            assert(forall|e: int| 0 <= e < 512
                ==> (#[trigger] nl0[newidx].entries@[e]).bits == 0);
            assert(0u64 & 1 == 0) by (bit_vector);
            assert(1u8 & 1 == 1) by (bit_vector);
            assert forall|k: int| 0 <= k < newidx
                implies (#[trigger] old(self).l0@[k]).ppn() != f by {
                assert(old(allocator).is_live(old(self).l0@[k].ppn()));
            }
            lemma_find_node_props(old(self).l0@, f);
            lemma_find_node_push(old(self).l0@, nl0[newidx], f);
            assert(find_node(nl0, f) == newidx);
            lemma_find_node_same_ppns_all(old(self).l1@, nl1);
            // Valid level-1 entries still point at level-0 nodes, injectively.
            assert forall|i: int, e: int|
                0 <= i < nl1.len() && 0 <= e < 512
                && spec_pte_valid(#[trigger] nl1[i].entries@[e].bits)
                implies find_node(nl0, spec_pte_ppn(nl1[i].entries@[e].bits)) >= 0
                    && spec_pte_flags(nl1[i].entries@[e].bits) == 1u8 by {
                if i != n1 as int || e != i1 as int {
                    assert(nl1[i].entries@[e] == old(self).l1@[i].entries@[e]);
                    assert(spec_pte_valid(old(self).l1@[i].entries@[e].bits));
                    assert(find_node(old(self).l0@,
                        spec_pte_ppn(old(self).l1@[i].entries@[e].bits)) >= 0);
                    lemma_find_node_push(old(self).l0@, nl0[newidx],
                        spec_pte_ppn(nl1[i].entries@[e].bits));
                }
            }
            assert forall|i1x: int, e1: int, i2x: int, e2: int|
                0 <= i1x < nl1.len() && 0 <= e1 < 512
                && 0 <= i2x < nl1.len() && 0 <= e2 < 512
                && (i1x != i2x || e1 != e2)
                && spec_pte_valid(#[trigger] nl1[i1x].entries@[e1].bits)
                && spec_pte_valid(#[trigger] nl1[i2x].entries@[e2].bits)
                implies spec_pte_ppn(nl1[i1x].entries@[e1].bits)
                    != spec_pte_ppn(nl1[i2x].entries@[e2].bits) by {
                let fresh1 = i1x == n1 as int && e1 == i1 as int;
                let fresh2 = i2x == n1 as int && e2 == i1 as int;
                if fresh1 || fresh2 {
                    let oi = if fresh1 { i2x } else { i1x };
                    let oe = if fresh1 { e2 } else { e1 };
                    assert(nl1[oi].entries@[oe] == old(self).l1@[oi].entries@[oe]);
                    assert(spec_pte_valid(old(self).l1@[oi].entries@[oe].bits));
                    let t = spec_pte_ppn(old(self).l1@[oi].entries@[oe].bits);
                    assert(find_node(old(self).l0@, t) >= 0);
                    lemma_find_node_props(old(self).l0@, t);
                    assert(old(allocator).is_live(
                        old(self).l0@[find_node(old(self).l0@, t)].ppn()));
                } else {
                    assert(nl1[i1x].entries@[e1] == old(self).l1@[i1x].entries@[e1]);
                    assert(nl1[i2x].entries@[e2] == old(self).l1@[i2x].entries@[e2]);
                }
            }
            assert(self.wf());
            // No translation moved: the new node has only invalid entries.
            assert forall|w: u64| self.translate_spec(w) == old(self).translate_spec(w) by {
                assert(vpn_index2(w) < 512 && vpn_index1(w) < 512 && vpn_index0(w) < 512)
                    by (bit_vector);
                let e2 = vpn_index2(w) as int;
                assert(self.root.entries@[e2] == old(self).root.entries@[e2]);
                if spec_pte_valid(old(self).root.entries@[e2].bits) {
                    let t1 = spec_pte_ppn(old(self).root.entries@[e2].bits);
                    assert(find_node(old(self).l1@, t1) >= 0);
                    lemma_find_node_same_ppns(old(self).l1@, nl1, t1);
                    let k = find_node(old(self).l1@, t1);
                    lemma_find_node_props(old(self).l1@, t1);
                    if k == n1 as int && vpn_index1(w) as int == i1 as int {
                        assert(!spec_pte_valid(
                            old(self).l1@[k].entries@[vpn_index1(w) as int].bits));
                        assert(old(self).translate_spec(w) is None);
                        assert(nl0[newidx].entries@[vpn_index0(w) as int].bits == 0);
                        assert(self.translate_spec(w) is None);
                    } else {
                        assert(nl1[k].entries@[vpn_index1(w) as int]
                            == old(self).l1@[k].entries@[vpn_index1(w) as int]);
                        let pte1b = old(self).l1@[k].entries@[vpn_index1(w) as int];
                        if spec_pte_valid(pte1b.bits) {
                            assert(find_node(old(self).l0@, spec_pte_ppn(pte1b.bits)) >= 0);
                            lemma_find_node_push(old(self).l0@, nl0[newidx],
                                spec_pte_ppn(pte1b.bits));
                            let k0 = find_node(old(self).l0@, spec_pte_ppn(pte1b.bits));
                            lemma_find_node_props(old(self).l0@, spec_pte_ppn(pte1b.bits));
                            assert(nl0[k0] == old(self).l0@[k0]);
                        }
                    }
                }
            }
            assert forall|p: u64| old(self).owns_node(p) || self.owns_node(p)
                implies (old(self).owns_node(p) ==> self.owns_node(p))
                    && (self.owns_node(p)
                        ==> old(self).owns_node(p) || !old(allocator).is_live(p)) by {
                lemma_find_node_push(old(self).l0@, nl0[newidx], p);
                lemma_find_node_same_ppns(old(self).l1@, nl1, p);
            }
        }
        Some(n0)
    }

    /// Map one page: walk the indices top down, allocating interior table
    /// frames as needed, then write the leaf entry `(ppn, flags | V)`.
    /// The page must currently be unmapped. Returns `false`, changing no
    /// translation, when physical memory runs out mid-walk.
    pub fn map(&mut self, allocator: &mut StackFrameAllocator, vpn: VirtPageNum,
        ppn: PhysPageNum, flags: PTEFlags) -> (ok: bool)
        requires
            old(self).wf(),
            old(allocator).wf(),
            old(self).frames_live(*old(allocator)),
            vpn.0 < 0x800_0000u64,
            ppn.0 < 0x1000_0000_0000u64,
            old(self).translate_spec(vpn.0) is None,
        ensures
            final(self).wf(),
            final(allocator).wf(),
            final(self).frames_live(*final(allocator)),
            final(self).root_ppn == old(self).root_ppn,
            final(allocator).end == old(allocator).end,
            final(allocator).avail() >= old(allocator).avail() - 2,
            forall|q: u64| old(allocator).is_live(q) ==> final(allocator).is_live(q),
            forall|p: u64| old(self).owns_node(p) ==> final(self).owns_node(p),
            forall|p: u64| final(self).owns_node(p)
                ==> old(self).owns_node(p) || !old(allocator).is_live(p),
            old(allocator).avail() >= old(self).map_cost(vpn.0) ==> ok,
            ok ==> final(allocator).avail()
                == old(allocator).avail() - old(self).map_cost(vpn.0),
            ok ==> final(self).translate_spec(vpn.0) == Some(
                (PageTableEntry { bits: spec_pte_new(ppn.0, flags.0 | 1u8) }),
            ),
            forall|w: u64| w < 0x800_0000u64 && w != vpn.0
                ==> final(self).translate_spec(w) == old(self).translate_spec(w),
            !ok ==> forall|w: u64| final(self).translate_spec(w) == old(self).translate_spec(w),
    {
        proof {
            let v = vpn.0;
            assert(vpn_index2(v) < 512 && vpn_index1(v) < 512 && vpn_index0(v) < 512)
                by (bit_vector);
        }
        let idxs = vpn.indexes();
        let i2 = idxs[0] as usize;
        let i1 = idxs[1] as usize;
        let i0 = idxs[2] as usize;
        proof {
            if spec_pte_valid(old(self).root.entries@[i2 as int].bits) {
                lemma_find_node_props(old(self).l1@,
                    spec_pte_ppn(old(self).root.entries@[i2 as int].bits));
            }
        }
        let n1 = match self.ensure_l1(allocator, i2) {
            Some(n) => n,
            None => {
                return false;
            },
        };
        let ghost after_a = *self;
        let n0 = match self.ensure_l0(allocator, n1, i1) {
            Some(n) => n,
            None => {
                return false;
            },
        };
        let ghost mid = *self;
        let leaf = PageTableEntry::new(ppn, PTEFlags(flags.0 | PTE_V));
        proof {
            let fl = flags.0;
            assert((fl | 1u8) & 1 == 1) by (bit_vector);
        }
        self.l0[n0].entries[i0] = leaf;
        proof {
            let nl0 = self.l0@;
            assert(self.l1@ == mid.l1@);
            assert(self.root.entries@ == mid.root.entries@);
            assert(mid.root.entries@ == after_a.root.entries@);
            assert(nl0[n0 as int].entries@
                =~= mid.l0@[n0 as int].entries@.update(i0 as int, leaf));
            assert(forall|k: int| 0 <= k < nl0.len() && k != n0 ==> nl0[k] == mid.l0@[k]);
            assert(forall|k: int| 0 <= k < nl0.len()
                ==> (#[trigger] nl0[k]).ppn() == mid.l0@[k].ppn());
            lemma_find_node_same_ppns_all(mid.l0@, nl0);
            assert(self.wf());
            // The mapped page now walks root -> n1 -> n0 -> the new leaf.
            assert(spec_pte_valid(self.root.entries@[i2 as int].bits));
            let t1 = spec_pte_ppn(self.root.entries@[i2 as int].bits);
            lemma_find_node_same_ppns(after_a.l1@, mid.l1@, t1);
            assert(find_node(self.l1@, t1) == n1 as int);
            assert(spec_pte_valid(self.l1@[n1 as int].entries@[i1 as int].bits));
            let t0 = spec_pte_ppn(self.l1@[n1 as int].entries@[i1 as int].bits);
            assert(find_node(mid.l0@, t0) == n0 as int);
            assert(find_node(nl0, t0) == n0 as int);
            assert(nl0[n0 as int].entries@[i0 as int] == leaf);
            assert(self.translate_spec(vpn.0) == Some(leaf));
            // Every other page translates as before the leaf write.
            assert forall|w: u64| w < 0x800_0000u64 && w != vpn.0
                implies self.translate_spec(w) == mid.translate_spec(w) by {
                assert(vpn_index2(w) < 512 && vpn_index1(w) < 512 && vpn_index0(w) < 512)
                    by (bit_vector);
                let e2 = vpn_index2(w) as int;
                let pte2 = self.root.entries@[e2];
                if spec_pte_valid(pte2.bits) {
                    let t1w = spec_pte_ppn(pte2.bits);
                    let k1 = find_node(self.l1@, t1w);
                    lemma_find_node_props(self.l1@, t1w);
                    if k1 >= 0 {
                        let pte1 = self.l1@[k1].entries@[vpn_index1(w) as int];
                        if spec_pte_valid(pte1.bits) {
                            let t0w = spec_pte_ppn(pte1.bits);
                            let k0 = find_node(nl0, t0w);
                            lemma_find_node_props(nl0, t0w);
                            if k0 >= 0 {
                                if k0 == n0 as int && vpn_index0(w) == vpn_index0(vpn.0) {
                                    // Both walks end in the written slot, so
                                    // the two pages coincide: contradiction.
                                    lemma_paths_collide(*self, i2 as int, i1 as int,
                                        n1 as int, e2, vpn_index1(w) as int, k1, n0 as int);
                                    crate::address::lemma_vpn_indexes_injective(vpn.0, w);
                                    assert(false);
                                } else {
                                    assert(nl0[k0].entries@[vpn_index0(w) as int]
                                        == mid.l0@[k0].entries@[vpn_index0(w) as int]);
                                }
                            }
                        }
                    }
                }
            }
            assert forall|p: u64| old(self).owns_node(p) || self.owns_node(p)
                implies (old(self).owns_node(p) ==> self.owns_node(p))
                    && (self.owns_node(p)
                        ==> old(self).owns_node(p) || !old(allocator).is_live(p)) by {
                lemma_find_node_same_ppns(mid.l0@, nl0, p);
            }
        }
        true
    }

    /// Clear the leaf entry of a mapped page; afterwards the page does not
    /// translate. Interior table frames are kept.
    pub fn unmap(&mut self, vpn: VirtPageNum)
        requires
            old(self).wf(),
            vpn.0 < 0x800_0000u64,
        ensures
            final(self).wf(),
            final(self).root_ppn == old(self).root_ppn,
            final(self).root.entries@ == old(self).root.entries@,
            final(self).l1@.len() == old(self).l1@.len(),
            final(self).l0@.len() == old(self).l0@.len(),
            forall|a: StackFrameAllocator| old(self).frames_live(a)
                ==> final(self).frames_live(a),
            forall|p: u64| final(self).owns_node(p) == old(self).owns_node(p),
            final(self).translate_spec(vpn.0) is None,
            forall|w: u64| w < 0x800_0000u64 && w != vpn.0
                ==> final(self).translate_spec(w) == old(self).translate_spec(w),
    {
        proof {
            let v = vpn.0;
            assert(vpn_index2(v) < 512 && vpn_index1(v) < 512 && vpn_index0(v) < 512)
                by (bit_vector);
        }
        let idxs = vpn.indexes();
        let i2 = idxs[0] as usize;
        let i1 = idxs[1] as usize;
        let i0 = idxs[2] as usize;
        let pte2 = self.root.entries[i2];
        if !pte2.is_valid() {
            return;
        }
        let n1 = match self.find_l1(pte2.ppn().0) {
            Some(i) => i,
            None => {
                return;
            },
        };
        proof {
            lemma_find_node_props(self.l1@, spec_pte_ppn(pte2.bits));
        }
        let pte1 = self.l1[n1].entries[i1];
        if !pte1.is_valid() {
            return;
        }
        let n0 = match self.find_l0(pte1.ppn().0) {
            Some(i) => i,
            None => {
                return;
            },
        };
        proof {
            lemma_find_node_props(self.l0@, spec_pte_ppn(pte1.bits));
        }
        let ghost mid = *self;
        let cleared = PageTableEntry::empty();
        self.l0[n0].entries[i0] = cleared;
        proof {
            let nl0 = self.l0@;
            assert(self.l1@ == mid.l1@);
            assert(self.root.entries@ == mid.root.entries@);
            assert(nl0[n0 as int].entries@
                =~= mid.l0@[n0 as int].entries@.update(i0 as int, cleared));
            assert(forall|k: int| 0 <= k < nl0.len() && k != n0 ==> nl0[k] == mid.l0@[k]);
            assert(forall|k: int| 0 <= k < nl0.len()
                ==> (#[trigger] nl0[k]).ppn() == mid.l0@[k].ppn());
            lemma_find_node_same_ppns_all(mid.l0@, nl0);
            assert(self.wf());
            assert(0u64 & 1 == 0) by (bit_vector);
            // The cleared page no longer translates.
            let t1 = spec_pte_ppn(self.root.entries@[i2 as int].bits);
            assert(find_node(self.l1@, t1) == n1 as int);
            let t0 = spec_pte_ppn(self.l1@[n1 as int].entries@[i1 as int].bits);
            assert(find_node(mid.l0@, t0) == n0 as int);
            assert(find_node(nl0, t0) == n0 as int);
            assert(self.translate_spec(vpn.0) is None);
            // Every other page translates as before.
            assert forall|w: u64| w < 0x800_0000u64 && w != vpn.0
                implies self.translate_spec(w) == mid.translate_spec(w) by {
                assert(vpn_index2(w) < 512 && vpn_index1(w) < 512 && vpn_index0(w) < 512)
                    by (bit_vector);
                let e2 = vpn_index2(w) as int;
                let pte2b = self.root.entries@[e2];
                if spec_pte_valid(pte2b.bits) {
                    let t1w = spec_pte_ppn(pte2b.bits);
                    let k1 = find_node(self.l1@, t1w);
                    lemma_find_node_props(self.l1@, t1w);
                    if k1 >= 0 {
                        let pte1b = self.l1@[k1].entries@[vpn_index1(w) as int];
                        if spec_pte_valid(pte1b.bits) {
                            let t0w = spec_pte_ppn(pte1b.bits);
                            let k0 = find_node(nl0, t0w);
                            lemma_find_node_props(nl0, t0w);
                            if k0 >= 0 {
                                if k0 == n0 as int && vpn_index0(w) == vpn_index0(vpn.0) {
                                    lemma_paths_collide(*self, i2 as int, i1 as int,
                                        n1 as int, e2, vpn_index1(w) as int, k1, n0 as int);
                                    crate::address::lemma_vpn_indexes_injective(vpn.0, w);
                                    assert(false);
                                } else {
                                    assert(nl0[k0].entries@[vpn_index0(w) as int]
                                        == mid.l0@[k0].entries@[vpn_index0(w) as int]);
                                }
                            }
                        }
                    }
                }
            }
            assert forall|p: u64| self.owns_node(p) == old(self).owns_node(p) by {
                lemma_find_node_same_ppns(mid.l0@, nl0, p);
            }
        }
    }
}
/// Lookup is unchanged between two node lists whose frames agree pointwise.
proof fn lemma_find_node_same_ppns_all(a: Seq<PtNode>, b: Seq<PtNode>)
    requires
        a.len() == b.len(),
        forall|k: int| 0 <= k < a.len() ==> (#[trigger] a[k]).ppn() == b[k].ppn(),
    ensures
        forall|t: u64|
            #![trigger find_node(a, t)]
            #![trigger find_node(b, t)]
            find_node(a, t) == find_node(b, t),
{
    assert forall|t: u64|
        #![trigger find_node(a, t)]
        #![trigger find_node(b, t)]
        find_node(a, t) == find_node(b, t) by {
        lemma_find_node_same_ppns(a, b, t);
    }
}

/// If two walks through a well-formed table reach the same level-0 node,
/// they passed through the same level-1 node and used the same root and
/// level-1 slots: interior entries point injectively downwards.
proof fn lemma_paths_collide(
    pt: PageTable,
    e2a: int,
    e1a: int,
    n1a: int,
    e2b: int,
    e1b: int,
    n1b: int,
    n0: int,
)
    requires
        pt.wf(),
        0 <= e2a < 512,
        0 <= e1a < 512,
        0 <= e2b < 512,
        0 <= e1b < 512,
        spec_pte_valid(pt.root.entries@[e2a].bits),
        spec_pte_valid(pt.root.entries@[e2b].bits),
        find_node(pt.l1@, spec_pte_ppn(pt.root.entries@[e2a].bits)) == n1a,
        find_node(pt.l1@, spec_pte_ppn(pt.root.entries@[e2b].bits)) == n1b,
        0 <= n1a < pt.l1@.len(),
        0 <= n1b < pt.l1@.len(),
        spec_pte_valid(pt.l1@[n1a].entries@[e1a].bits),
        spec_pte_valid(pt.l1@[n1b].entries@[e1b].bits),
        find_node(pt.l0@, spec_pte_ppn(pt.l1@[n1a].entries@[e1a].bits)) == n0,
        find_node(pt.l0@, spec_pte_ppn(pt.l1@[n1b].entries@[e1b].bits)) == n0,
        0 <= n0 < pt.l0@.len(),
    ensures
        e2a == e2b,
        e1a == e1b,
        n1a == n1b,
{
    lemma_find_node_props(pt.l0@, spec_pte_ppn(pt.l1@[n1a].entries@[e1a].bits));
    lemma_find_node_props(pt.l0@, spec_pte_ppn(pt.l1@[n1b].entries@[e1b].bits));
    assert(spec_pte_ppn(pt.l1@[n1a].entries@[e1a].bits)
        == spec_pte_ppn(pt.l1@[n1b].entries@[e1b].bits));
    assert(n1a == n1b && e1a == e1b);
    lemma_find_node_props(pt.l1@, spec_pte_ppn(pt.root.entries@[e2a].bits));
    lemma_find_node_props(pt.l1@, spec_pte_ppn(pt.root.entries@[e2b].bits));
    assert(spec_pte_ppn(pt.root.entries@[e2a].bits)
        == spec_pte_ppn(pt.root.entries@[e2b].bits));
}

/// A frame owned as a table node of a table whose frames are live is live.
pub proof fn lemma_owned_node_live(pt: PageTable, a: StackFrameAllocator, p: u64)
    requires
        pt.frames_live(a),
        pt.owns_node(p),
    ensures
        a.is_live(p),
{
    if find_node(pt.l1@, p) >= 0 {
        lemma_find_node_props(pt.l1@, p);
    } else if find_node(pt.l0@, p) >= 0 {
        lemma_find_node_props(pt.l0@, p);
    }
}

/// A frame not owned as a table node differs from every table node frame.
pub proof fn lemma_not_owned_differs(pt: PageTable, p: u64)
    requires
        !pt.owns_node(p),
    ensures
        p != pt.root_ppn.0,
        forall|i: int| 0 <= i < pt.l1@.len() ==> (#[trigger] pt.l1@[i]).ppn() != p,
        forall|i: int| 0 <= i < pt.l0@.len() ==> (#[trigger] pt.l0@[i]).ppn() != p,
{
    lemma_find_node_props(pt.l1@, p);
    lemma_find_node_props(pt.l0@, p);
}

/// A full frame of entries, all invalid.
fn empty_entries() -> (r: Vec<PageTableEntry>)
    ensures
        r@.len() == 512,
        forall|i: int| 0 <= i < 512 ==> (#[trigger] r@[i]).bits == 0,
        forall|i: int| 0 <= i < 512 ==> !spec_pte_valid(#[trigger] r@[i].bits),
{
    proof {
        assert(0u64 & 1 == 0) by (bit_vector);
    }
    let mut v: Vec<PageTableEntry> = Vec::new();
    let mut i: usize = 0;
    while i < 512
        invariant
            i <= 512,
            v@.len() == i,
            forall|j: int| 0 <= j < i ==> (#[trigger] v@[j]).bits == 0,
        decreases 512 - i,
    {
        v.push(PageTableEntry { bits: 0 });
        i = i + 1;
    }
    v
}

} // verus!
