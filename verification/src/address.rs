//! Bit-exact address and page-number types of the Sv39 scheme: 56-bit
//! physical and 39-bit virtual addresses, their page numbers, and the
//! page-by-page virtual range used to describe contiguous segments.

use vstd::prelude::*;
use crate::config::PAGE_SIZE;

verus! {

/// A physical address; only the low 56 bits are meaningful.
#[derive(Clone, Copy, PartialEq, Eq, Structural, Debug)]
pub struct PhysAddr(pub u64);

/// A virtual address; only the low 39 bits are meaningful.
#[derive(Clone, Copy, PartialEq, Eq, Structural, Debug)]
pub struct VirtAddr(pub u64);

/// A physical page number: a physical address shifted right by 12.
#[derive(Clone, Copy, PartialEq, Eq, Structural, Debug)]
pub struct PhysPageNum(pub u64);

/// A virtual page number: a virtual address shifted right by 12.
#[derive(Clone, Copy, PartialEq, Eq, Structural, Debug)]
pub struct VirtPageNum(pub u64);

impl PhysAddr {
    /// Keep the 56 meaningful bits of a machine word.
    pub fn from_u64(v: u64) -> (r: PhysAddr)
        ensures
            r.0 == v % 0x100_0000_0000_0000u64,
    {
        proof {
            assert(v & 0xFF_FFFF_FFFF_FFFFu64 == v % 0x100_0000_0000_0000u64) by (bit_vector);
        }
        PhysAddr(v & 0xFF_FFFF_FFFF_FFFFu64)
    }

    /// Offset of the address within its page.
    pub fn page_offset(&self) -> (r: u64)
        ensures
            r == self.0 % PAGE_SIZE,
    {
        self.0 % PAGE_SIZE
    }

    /// The page containing the address.
    pub fn floor(&self) -> (r: PhysPageNum)
        ensures
            r.0 == self.0 / PAGE_SIZE,
    {
        PhysPageNum(self.0 / PAGE_SIZE)
    }

    /// The first page boundary at or above the address.
    pub fn ceil(&self) -> (r: PhysPageNum)
        requires
            self.0 < 0x100_0000_0000_0000u64,
        ensures
            r.0 == (self.0 + PAGE_SIZE - 1) / (PAGE_SIZE as int),
    {
        PhysPageNum((self.0 + PAGE_SIZE - 1) / PAGE_SIZE)
    }

    /// Whether the address lies on a page boundary.
    pub fn aligned(&self) -> (r: bool)
        ensures
            r == (self.0 % PAGE_SIZE == 0),
    {
        self.0 % PAGE_SIZE == 0
    }

    /// The page number of a page-aligned address.
    pub fn page_num(&self) -> (r: PhysPageNum)
        requires
            self.0 % PAGE_SIZE == 0,
        ensures
            r.0 == self.0 / PAGE_SIZE,
    {
        self.floor()
    }
}

impl PhysPageNum {
    /// Keep the 44 meaningful bits of a machine word.
    pub fn from_u64(v: u64) -> (r: PhysPageNum)
        ensures
            r.0 == v % 0x1000_0000_0000u64,
    {
        proof {
            assert(v & 0xFFF_FFFF_FFFFu64 == v % 0x1000_0000_0000u64) by (bit_vector);
        }
        PhysPageNum(v & 0xFFF_FFFF_FFFFu64)
    }

    /// The first address of the page.
    pub fn start_addr(&self) -> (r: PhysAddr)
        requires
            self.0 < 0x1000_0000_0000u64,
        ensures
            r.0 == self.0 * PAGE_SIZE,
    {
        PhysAddr(self.0 * PAGE_SIZE)
    }
}

impl VirtAddr {
    /// Keep the 39 meaningful bits of a machine word.
    pub fn from_u64(v: u64) -> (r: VirtAddr)
        ensures
            r.0 == v % 0x80_0000_0000u64,
    {
        proof {
            assert(v & 0x7F_FFFF_FFFFu64 == v % 0x80_0000_0000u64) by (bit_vector);
        }
        VirtAddr(v & 0x7F_FFFF_FFFFu64)
    }

    /// The machine word denoting this address: bit 38 is copied into all
    /// higher bits, as the hardware expects of a canonical Sv39 address.
    pub fn sign_extended(&self) -> (r: u64)
        requires
            self.0 < 0x80_0000_0000u64,
        ensures
            self.0 < 0x40_0000_0000u64 ==> r == self.0,
            self.0 >= 0x40_0000_0000u64 ==> r == self.0 + 0xFFFF_FF80_0000_0000u64,
    {
        if self.0 >= 0x40_0000_0000u64 {
            proof {
                let v = self.0;
                assert(v < 0x80_0000_0000u64 && v >= 0x40_0000_0000u64 ==>
                    (v | 0xFFFF_FF80_0000_0000u64) == v + 0xFFFF_FF80_0000_0000u64)
                    by (bit_vector);
            }
            self.0 | 0xFFFF_FF80_0000_0000u64
        } else {
            self.0
        }
    }

    /// The page containing the address.
    pub fn floor(&self) -> (r: VirtPageNum)
        ensures
            r.0 == self.0 / PAGE_SIZE,
    {
        VirtPageNum(self.0 / PAGE_SIZE)
    }

    /// The first page boundary at or above the address.
    pub fn ceil(&self) -> (r: VirtPageNum)
        requires
            self.0 < 0x80_0000_0000u64,
        ensures
            r.0 == (self.0 + PAGE_SIZE - 1) / (PAGE_SIZE as int),
    {
        if self.0 == 0 {
            VirtPageNum(0)
        } else {
            VirtPageNum((self.0 - 1 + PAGE_SIZE) / PAGE_SIZE)
        }
    }

    /// Offset of the address within its page.
    pub fn page_offset(&self) -> (r: u64)
        ensures
            r == self.0 % PAGE_SIZE,
    {
        self.0 % PAGE_SIZE
    }

    /// Whether the address lies on a page boundary.
    pub fn aligned(&self) -> (r: bool)
        ensures
            r == (self.0 % PAGE_SIZE == 0),
    {
        self.page_offset() == 0
    }

    /// The page number of a page-aligned address.
    pub fn page_num(&self) -> (r: VirtPageNum)
        requires
            self.0 % PAGE_SIZE == 0,
        ensures
            r.0 == self.0 / PAGE_SIZE,
    {
        self.floor()
    }
}

impl VirtPageNum {
    /// The first address of the page.
    pub fn start_addr(&self) -> (r: VirtAddr)
        requires
            self.0 < 0x800_0000u64,
        ensures
            r.0 == self.0 * PAGE_SIZE,
    {
        VirtAddr(self.0 * PAGE_SIZE)
    }

    /// The three 9-bit page-table indices of the page number, the level-2
    /// (root) index first, as Sv39 orders them.
    pub fn indexes(&self) -> (r: [u64; 3])
        ensures
            r[0] == vpn_index2(self.0),
            r[1] == vpn_index1(self.0),
            r[2] == vpn_index0(self.0),
    {
        [(self.0 >> 18) & 511, (self.0 >> 9) & 511, self.0 & 511]
    }
}

/// Level-2 (root) index of a virtual page number.
pub open spec fn vpn_index2(vpn: u64) -> u64 {
    (vpn >> 18) & 511
}

/// Level-1 index of a virtual page number.
pub open spec fn vpn_index1(vpn: u64) -> u64 {
    (vpn >> 9) & 511
}

/// Level-0 (leaf) index of a virtual page number.
pub open spec fn vpn_index0(vpn: u64) -> u64 {
    vpn & 511
}

/// Two 27-bit page numbers with the same three indices are the same page.
pub proof fn lemma_vpn_indexes_injective(a: u64, b: u64)
    requires
        a < 0x800_0000u64,
        b < 0x800_0000u64,
        vpn_index2(a) == vpn_index2(b),
        vpn_index1(a) == vpn_index1(b),
        vpn_index0(a) == vpn_index0(b),
    ensures
        a == b,
{
    assert(a < 0x800_0000u64 && b < 0x800_0000u64
        && (a >> 18) & 511 == (b >> 18) & 511
        && (a >> 9) & 511 == (b >> 9) & 511
        && a & 511 == b & 511 ==> a == b) by (bit_vector);
}

/// Rounding a page-aligned virtual address down to its page and taking that
/// page's first address gives the original address back.
pub proof fn lemma_aligned_va_round_trip(va: VirtAddr)
    requires
        va.0 % PAGE_SIZE == 0,
    ensures
        va.0 / PAGE_SIZE * PAGE_SIZE == va.0,
{
    assert(va.0 / 4096 * 4096 == va.0) by (nonlinear_arith)
        requires va.0 % 4096 == 0;
}

/// Rounding a physical address up comes to at least rounding it down, the two
/// differ by at most one page, and they agree exactly on aligned addresses.
pub proof fn lemma_pa_ceil_floor(pa: PhysAddr)
    requires
        pa.0 < 0x100_0000_0000_0000u64,
    ensures
        (pa.0 + PAGE_SIZE - 1) / (PAGE_SIZE as int) >= pa.0 as int / PAGE_SIZE as int,
        (pa.0 + PAGE_SIZE - 1) / (PAGE_SIZE as int) <= pa.0 as int / PAGE_SIZE as int + 1,
        ((pa.0 + PAGE_SIZE - 1) / (PAGE_SIZE as int) == pa.0 as int / PAGE_SIZE as int)
            <==> (pa.0 % PAGE_SIZE == 0),
{
    let v = pa.0 as int;
    assert((v + 4095) / 4096 >= v / 4096 && (v + 4095) / 4096 <= v / 4096 + 1
        && (((v + 4095) / 4096 == v / 4096) <==> (v % 4096 == 0))) by (nonlinear_arith)
        requires v >= 0;
}

/// A type whose values can advance to a successor, page by page.
pub trait StepByOne: Sized {
    /// Whether a successor exists.
    spec fn can_step(&self) -> bool;

    /// The successor value.
    spec fn stepped(&self) -> Self;

    /// Advance to the successor.
    fn step(&mut self)
        requires
            old(self).can_step(),
        ensures
            *final(self) == old(self).stepped(),
    ;
}

impl StepByOne for VirtPageNum {
    open spec fn can_step(&self) -> bool {
        self.0 < u64::MAX
    }

    open spec fn stepped(&self) -> VirtPageNum {
        VirtPageNum((self.0 + 1) as u64)
    }

    fn step(&mut self) {
        self.0 = self.0 + 1;
    }
}

/// A half-open range `[l, r)` of virtual page numbers.
#[derive(Clone, Copy)]
pub struct SimpleRange {
    /// First page of the range.
    pub l: VirtPageNum,
    /// One past the last page.
    pub r: VirtPageNum,
}

impl SimpleRange {
    /// Build the range `[start, end)`.
    pub fn new(start: VirtPageNum, end: VirtPageNum) -> (r: SimpleRange)
        requires
            start.0 <= end.0,
        ensures
            r.l == start,
            r.r == end,
    {
        SimpleRange { l: start, r: end }
    }

    /// First page of the range.
    pub fn get_start(&self) -> (r: VirtPageNum)
        ensures
            r == self.l,
    {
        self.l
    }

    /// One past the last page of the range.
    pub fn get_end(&self) -> (r: VirtPageNum)
        ensures
            r == self.r,
    {
        self.r
    }

    /// An iterator over the pages of the range.
    pub fn iter(&self) -> (r: SimpleRangeIterator)
        ensures
            r.current == self.l,
            r.end == self.r,
    {
        SimpleRangeIterator { current: self.l, end: self.r }
    }

    /// The first page of the range, as a spec value.
    pub open spec fn start(&self) -> VirtPageNum {
        self.l
    }

    /// One past the last page, as a spec value.
    pub open spec fn end(&self) -> VirtPageNum {
        self.r
    }

    /// Whether a page number lies inside the range.
    pub open spec fn holds(&self, vpn: u64) -> bool {
        self.l.0 <= vpn < self.r.0
    }

    /// Number of pages in the range.
    pub open spec fn len(&self) -> int {
        self.r.0 - self.l.0
    }
}

/// Walks a `SimpleRange` one page at a time.
pub struct SimpleRangeIterator {
    /// Next page to be yielded.
    pub current: VirtPageNum,
    /// One past the last page.
    pub end: VirtPageNum,
}

impl SimpleRangeIterator {
    /// Start an iteration at `l`, stopping before `r`.
    pub fn new(l: VirtPageNum, r: VirtPageNum) -> (it: SimpleRangeIterator)
        ensures
            it.current == l,
            it.end == r,
    {
        SimpleRangeIterator { current: l, end: r }
    }

    /// The next page of the range, or `None` once the end is reached.
    pub fn next(&mut self) -> (r: Option<VirtPageNum>)
        requires
            old(self).current.0 <= old(self).end.0,
        ensures
            final(self).end == old(self).end,
            old(self).current.0 == old(self).end.0 ==> r is None
                && final(self).current == old(self).current,
            old(self).current.0 < old(self).end.0 ==> r == Some(old(self).current)
                && final(self).current.0 == old(self).current.0 + 1,
    {
        if self.current == self.end {
            None
        } else {
            let t = self.current;
            self.current.step();
            Some(t)
        }
    }
}

/// A range of virtual page numbers.
pub type VPNRange = SimpleRange;

} // verus!
