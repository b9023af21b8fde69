//! Reading a 64-bit little-endian ELF image: the header fields the loader
//! needs and the program-header records of its loadable segments, parsed
//! from the raw bytes with bounds checks in place of trust.

use vstd::prelude::*;

verus! {

/// The little-endian 16-bit integer at offset `i`.
pub open spec fn le16(s: Seq<u8>, i: int) -> u64 {
    (s[i] + s[i + 1] * 0x100) as u64
}

/// The little-endian 32-bit integer at offset `i`.
pub open spec fn le32(s: Seq<u8>, i: int) -> u64 {
    (le16(s, i) + le16(s, i + 2) * 0x10000) as u64
}

/// The little-endian 64-bit integer at offset `i`.
pub open spec fn le64(s: Seq<u8>, i: int) -> u64 {
    (le32(s, i) + le32(s, i + 4) * 0x1_0000_0000) as u64
}

/// Read the little-endian 16-bit integer at offset `i`.
pub fn read_le16(data: &[u8], i: usize) -> (r: u64)
    requires
        i + 2 <= data@.len(),
        data@.len() <= usize::MAX,
    ensures
        r == le16(data@, i as int),
{
    (data[i] as u64) + (data[i + 1] as u64) * 0x100
}

/// Read the little-endian 32-bit integer at offset `i`.
pub fn read_le32(data: &[u8], i: usize) -> (r: u64)
    requires
        i + 4 <= data@.len(),
        data@.len() <= usize::MAX,
    ensures
        r == le32(data@, i as int),
{
    let lo = read_le16(data, i);
    let hi = read_le16(data, i + 2);
    proof {
        assert(le16(data@, i as int) < 0x10000 && le16(data@, i as int + 2) < 0x10000);
    }
    lo + hi * 0x10000
}

/// Read the little-endian 64-bit integer at offset `i`.
pub fn read_le64(data: &[u8], i: usize) -> (r: u64)
    requires
        i + 8 <= data@.len(),
        data@.len() <= usize::MAX,
    ensures
        r == le64(data@, i as int),
{
    let lo = read_le32(data, i);
    let hi = read_le32(data, i + 4);
    proof {
        assert(le32(data@, i as int) < 0x1_0000_0000
            && le32(data@, i as int + 4) < 0x1_0000_0000);
        assert(lo < 0x1_0000_0000 && hi < 0x1_0000_0000
            ==> lo + hi * 0x1_0000_0000 <= 0xFFFF_FFFF_FFFF_FFFF) by (nonlinear_arith);
    }
    lo + hi * 0x1_0000_0000
}

/// One loadable segment of an ELF image, as its program header records it.
#[derive(Clone, Copy, PartialEq, Eq, Structural, Debug)]
pub struct LoadSegment {
    /// First virtual address of the segment.
    pub vaddr: u64,
    /// Bytes the segment occupies in memory.
    pub mem_size: u64,
    /// Offset of the segment's initial bytes within the image.
    pub offset: u64,
    /// Number of initial bytes; the rest of the segment is zero.
    pub file_size: u64,
    /// The `R`/`W`/`X` permission mask of the header (`PF_X` = 1,
    /// `PF_W` = 2, `PF_R` = 4).
    pub flags: u64,
}

/// Byte offset of program header `i` within the image.
pub open spec fn ph_base(data: Seq<u8>, i: int) -> int {
    le64(data, 32) + i * le16(data, 54)
}

/// Whether program header `i` marks a loadable segment (type `LOAD`).
pub open spec fn ph_is_load(data: Seq<u8>, i: int) -> bool {
    le32(data, ph_base(data, i)) == 1
}

/// The segment record program header `i` holds.
pub open spec fn ph_segment(data: Seq<u8>, i: int) -> LoadSegment {
    LoadSegment {
        vaddr: le64(data, ph_base(data, i) + 16),
        mem_size: le64(data, ph_base(data, i) + 40),
        offset: le64(data, ph_base(data, i) + 8),
        file_size: le64(data, ph_base(data, i) + 32),
        flags: le32(data, ph_base(data, i) + 4),
    }
}

/// The loadable segments among the first `n` program headers, in order.
pub open spec fn load_segments_upto(data: Seq<u8>, n: int) -> Seq<LoadSegment>
    decreases n,
{
    if n <= 0 {
        Seq::empty()
    } else {
        load_segments_upto(data, n - 1) + (if ph_is_load(data, n - 1) {
            seq![ph_segment(data, n - 1)]
        } else {
            Seq::<LoadSegment>::empty()
        })
    }
}

/// All loadable segments of the image.
pub open spec fn load_segments(data: Seq<u8>) -> Seq<LoadSegment> {
    load_segments_upto(data, le16(data, 56) as int)
}

/// A well-formed 64-bit ELF image, as far as the loader reads it: the
/// magic, the 64-bit class, a program-header table of the standard entry
/// size lying inside the image, and every loadable segment with its file
/// bytes inside the image.
pub open spec fn elf_wf(data: Seq<u8>) -> bool {
    &&& data.len() >= 64
    &&& data[0] == 0x7fu8
    &&& data[1] == 0x45u8
    &&& data[2] == 0x4cu8
    &&& data[3] == 0x46u8
    &&& data[4] == 2u8
    &&& le16(data, 54) >= 56
    &&& le64(data, 32) + le16(data, 56) * le16(data, 54) <= data.len()
    &&& forall|i: int| 0 <= i < le16(data, 56) && #[trigger] ph_is_load(data, i) ==> {
            &&& ph_segment(data, i).offset + ph_segment(data, i).file_size <= data.len()
            &&& ph_segment(data, i).file_size <= ph_segment(data, i).mem_size
        }
}

/// The image's entry point.
pub open spec fn elf_entry(data: Seq<u8>) -> u64 {
    le64(data, 24)
}

/// In a well-formed image, every loadable segment's file bytes lie
/// inside the image, and occupy no more than its memory size.
pub proof fn lemma_load_segments_bounds(data: Seq<u8>, n: int)
    requires
        forall|i: int| 0 <= i < n && #[trigger] ph_is_load(data, i) ==> {
            &&& ph_segment(data, i).offset + ph_segment(data, i).file_size <= data.len()
            &&& ph_segment(data, i).file_size <= ph_segment(data, i).mem_size
        },
    ensures
        forall|j: int| 0 <= j < load_segments_upto(data, n).len() ==> {
            &&& (#[trigger] load_segments_upto(data, n)[j]).offset
                + load_segments_upto(data, n)[j].file_size <= data.len()
            &&& load_segments_upto(data, n)[j].file_size
                <= load_segments_upto(data, n)[j].mem_size
        },
    decreases n,
{
    if n > 0 {
        lemma_load_segments_bounds(data, n - 1);
        let prev = load_segments_upto(data, n - 1);
        let cur = load_segments_upto(data, n);
        assert forall|j: int| 0 <= j < cur.len() implies {
            &&& (#[trigger] cur[j]).offset + cur[j].file_size <= data.len()
            &&& cur[j].file_size <= cur[j].mem_size
        } by {
            if j < prev.len() {
                assert(cur[j] == prev[j]);
            } else {
                assert(ph_is_load(data, n - 1));
                assert(cur[j] == ph_segment(data, n - 1));
            }
        }
    }
}

/// The bounds above, for the whole well-formed image.
pub proof fn lemma_load_segments_wf(data: Seq<u8>)
    requires
        elf_wf(data),
    ensures
        forall|j: int| 0 <= j < load_segments(data).len() ==> {
            &&& (#[trigger] load_segments(data)[j]).offset
                + load_segments(data)[j].file_size <= data.len()
            &&& load_segments(data)[j].file_size <= load_segments(data)[j].mem_size
        },
{
    lemma_load_segments_bounds(data, le16(data, 56) as int);
}

/// Parse an ELF image: its entry point and its loadable segments, in
/// program-header order. `None` exactly when the image is not a
/// well-formed 64-bit ELF as `elf_wf` states it.
pub fn parse_elf(data: &[u8]) -> (r: Option<(u64, Vec<LoadSegment>)>)
    ensures
        r is Some <==> elf_wf(data@),
        match r {
            Some((entry, segs)) => {
                &&& entry == elf_entry(data@)
                &&& segs@ == load_segments(data@)
            },
            None => true,
        },
{
    if data.len() < 64 {
        return None;
    }
    if !(data[0] == 0x7f && data[1] == 0x45 && data[2] == 0x4c && data[3] == 0x46) {
        return None;
    }
    if data[4] != 2 {
        return None;
    }
    let entry = read_le64(data, 24);
    let ph_off = read_le64(data, 32);
    let ph_entsize = read_le16(data, 54);
    let ph_count = read_le16(data, 56);
    if ph_entsize < 56 {
        return None;
    }
    proof {
        assert(le16(data@, 56) < 0x1_0000 && le16(data@, 54) < 0x1_0000
            && le16(data@, 56) * le16(data@, 54) < 0x1_0000_0000) by (nonlinear_arith)
            requires
                le16(data@, 56) == data@[56] + data@[57] * 0x100,
                le16(data@, 54) == data@[54] + data@[55] * 0x100,
                data@[56] < 256 && data@[57] < 256 && data@[54] < 256 && data@[55] < 256,
        ;
    }
    if ph_off > u64::MAX - ph_count * ph_entsize {
        proof {
            assert(!elf_wf(data@));
        }
        return None;
    }
    if ph_off + ph_count * ph_entsize > data.len() as u64 {
        return None;
    }
    let mut segs: Vec<LoadSegment> = Vec::new();
    let mut i: u64 = 0;
    while i < ph_count
        invariant
            data@.len() >= 64,
            data@.len() <= usize::MAX,
            ph_off == le64(data@, 32),
            ph_entsize == le16(data@, 54),
            ph_count == le16(data@, 56),
            ph_entsize >= 56,
            ph_off + ph_count * ph_entsize <= data@.len(),
            i <= ph_count,
            segs@ == load_segments_upto(data@, i as int),
            forall|j: int| 0 <= j < i && #[trigger] ph_is_load(data@, j) ==> {
                &&& ph_segment(data@, j).offset + ph_segment(data@, j).file_size
                    <= data@.len()
                &&& ph_segment(data@, j).file_size <= ph_segment(data@, j).mem_size
            },
        decreases ph_count - i,
    {
        proof {
            assert(ph_off + i * ph_entsize + ph_entsize <= ph_off + ph_count * ph_entsize
                && i * ph_entsize <= ph_count * ph_entsize) by (nonlinear_arith)
                requires i < ph_count, ph_entsize >= 0, ph_off >= 0;
            assert(ph_count * ph_entsize < 0x1_0000_0000) by (nonlinear_arith)
                requires ph_count < 0x1_0000, ph_entsize < 0x1_0000;
            assert(le16(data@, 56) < 0x1_0000 && le16(data@, 54) < 0x1_0000);
        }
        let base = (ph_off + i * ph_entsize) as usize;
        proof {
            assert(base as int == ph_base(data@, i as int));
        }
        let p_type = read_le32(data, base);
        if p_type == 1 {
            let seg = LoadSegment {
                vaddr: read_le64(data, base + 16),
                mem_size: read_le64(data, base + 40),
                offset: read_le64(data, base + 8),
                file_size: read_le64(data, base + 32),
                flags: read_le32(data, base + 4),
            };
            if seg.offset > data.len() as u64 || seg.file_size > data.len() as u64 - seg.offset
            {
                proof {
                    assert(ph_is_load(data@, i as int));
                    assert(!elf_wf(data@));
                }
                return None;
            }
            if seg.file_size > seg.mem_size {
                proof {
                    assert(ph_is_load(data@, i as int));
                    assert(!elf_wf(data@));
                }
                return None;
            }
            proof {
                assert(seg == ph_segment(data@, i as int));
            }
            segs.push(seg);
            proof {
                assert(segs@ =~= load_segments_upto(data@, i + 1));
            }
        } else {
            proof {
                assert(!ph_is_load(data@, i as int));
                assert(segs@ =~= load_segments_upto(data@, i + 1));
            }
        }
        i = i + 1;
    }
    proof {
        assert(elf_wf(data@));
    }
    Some((entry, segs))
}

} // verus!
