//! Reading the program headers of a 64-bit little-endian ELF image.
use vstd::prelude::*;
use crate::address::VA_HALF;

verus! {

/// Size of the ELF file header.
pub const EHDR_SIZE: usize = 64;

/// Size of one program header.
pub const PHDR_SIZE: usize = 56;

/// Program-header type of a loadable segment.
pub const PT_LOAD: u64 = 1;

/// Segment flag: executable.
pub const PF_X: u64 = 1;

/// Segment flag: writable.
pub const PF_W: u64 = 2;

/// Segment flag: readable.
pub const PF_R: u64 = 4;

/// The unsigned value of little-endian bytes.
pub open spec fn le_value(s: Seq<u8>) -> nat
    decreases s.len(),
{
    if s.len() == 0 {
        0
    } else {
        s[0] as nat + 256 * le_value(s.drop_first())
    }
}

/// `256^k`.
pub open spec fn byte_span(k: nat) -> nat
    decreases k,
{
    if k == 0 {
        1
    } else {
        256 * byte_span((k - 1) as nat)
    }
}

/// The little-endian field of `n` bytes at `off`.
pub open spec fn field(d: Seq<u8>, off: int, n: int) -> nat {
    le_value(d.subrange(off, off + n))
}

/// A loadable segment: where it goes, how large it is in memory, where its
/// bytes are in the file and how many, and its permission flags.
#[derive(Copy, Clone, Debug, PartialEq, Eq, Structural)]
pub struct ElfSegment {
    pub vaddr: u64,
    pub memsz: u64,
    pub offset: u64,
    pub filesz: u64,
    pub flags: u64,
}

/// The parts of an image that loading needs.
pub struct ElfImage {
    pub entry: u64,
    pub segments: Vec<ElfSegment>,
}

/// Offset of program header `k`.
pub open spec fn ph_at(d: Seq<u8>, k: int) -> int {
    field(d, 32, 8) + k * PHDR_SIZE
}

/// Program header `k` read as a segment.
pub open spec fn segment_at(d: Seq<u8>, k: int) -> ElfSegment {
    let o = ph_at(d, k);
    ElfSegment {
        vaddr: field(d, o + 16, 8) as u64,
        memsz: field(d, o + 40, 8) as u64,
        offset: field(d, o + 8, 8) as u64,
        filesz: field(d, o + 32, 8) as u64,
        flags: field(d, o + 4, 4) as u64,
    }
}

/// Whether program header `k` describes a loadable segment.
pub open spec fn is_load(d: Seq<u8>, k: int) -> bool {
    field(d, ph_at(d, k), 4) == PT_LOAD
}

/// A loadable segment fits in the file and in the user half of the address space.
pub open spec fn segment_ok(d: Seq<u8>, s: ElfSegment) -> bool {
    &&& s.filesz <= s.memsz
    &&& s.offset + s.filesz <= d.len()
    &&& s.vaddr + s.memsz < VA_HALF
}

/// The loadable segments among the first `k` program headers, in order.
pub open spec fn load_segments(d: Seq<u8>, k: int) -> Seq<ElfSegment>
    decreases k,
{
    if k <= 0 {
        Seq::empty()
    } else if is_load(d, k - 1) {
        load_segments(d, k - 1).push(segment_at(d, k - 1))
    } else {
        load_segments(d, k - 1)
    }
}

/// Number of program headers.
pub open spec fn ph_count(d: Seq<u8>) -> int {
    field(d, 56, 2) as int
}

/// The file header is a 64-bit ELF header whose program headers lie in the file.
pub open spec fn header_ok(d: Seq<u8>) -> bool {
    &&& d.len() >= EHDR_SIZE
    &&& d[0] == 0x7f && d[1] == 0x45 && d[2] == 0x4c && d[3] == 0x46
    &&& field(d, 54, 2) == PHDR_SIZE
    &&& field(d, 32, 8) + ph_count(d) * PHDR_SIZE <= d.len()
}

/// An image can be loaded: a good header, at least one loadable segment,
/// every loadable segment sound, and an entry point in the user half.
pub open spec fn image_ok(d: Seq<u8>) -> bool {
    &&& header_ok(d)
    &&& load_segments(d, ph_count(d)).len() > 0
    &&& forall|i: int|
        0 <= i < load_segments(d, ph_count(d)).len() ==> segment_ok(
            d,
            #[trigger] load_segments(d, ph_count(d))[i],
        )
    &&& field(d, 24, 8) < VA_HALF
}

proof fn lemma_byte_span_bound(k: nat)
    requires
        k <= 7,
    ensures
        byte_span(k) <= 0x100_0000_0000_0000,
        byte_span(k) > 0,
    decreases k,
{
    reveal_with_fuel(byte_span, 8);
    if k > 0 {
        lemma_byte_span_bound((k - 1) as nat);
    }
}

proof fn lemma_le_bound(s: Seq<u8>)
    ensures
        le_value(s) < byte_span(s.len()),
    decreases s.len(),
{
    if s.len() > 0 {
        lemma_le_bound(s.drop_first());
    }
}

/// The little-endian value of the `n` bytes at `off`.
fn read_le(data: &[u8], off: usize, n: usize) -> (r: u64)
    requires
        1 <= n <= 8,
        off + n <= data@.len(),
    ensures
        r == field(data@, off as int, n as int),
{
    let _len = data.len();
    let mut acc: u64 = 0;
    let mut i: usize = n;
    proof {
        assert(data@.subrange(off + n, off + n) =~= Seq::<u8>::empty());
    }
    while i > 0
        invariant
            0 <= i <= n <= 8,
            off + n <= data@.len(),
            acc == le_value(data@.subrange(off + i, off + n)),
            data@.len() <= usize::MAX,
        decreases i,
    {
        proof {
            lemma_le_bound(data@.subrange(off + i, off + n));
            lemma_byte_span_bound((n - i) as nat);
        }
        i = i - 1;
        let b = data[off + i];
        proof {
            let s = data@.subrange(off + i, off + n);
            assert(s.drop_first() =~= data@.subrange(off + i + 1, off + n));
            assert(s[0] == b);
        }
        acc = (b as u64) + acc * 256;
    }
    acc
}

/// Reads the entry point and the loadable segments of an image; `None`
/// when the image cannot be loaded.
pub fn parse_elf(data: &[u8]) -> (r: Option<ElfImage>)
    ensures
        r.is_some() <==> image_ok(data@),
        r.is_some() ==> r.unwrap().entry == field(data@, 24, 8) && r.unwrap().segments@
            == load_segments(data@, ph_count(data@)),
{
    let len = data.len();
    if len < EHDR_SIZE {
        return None;
    }
    if data[0] != 0x7f || data[1] != 0x45 || data[2] != 0x4c || data[3] != 0x46 {
        return None;
    }
    if read_le(data, 54, 2) != PHDR_SIZE as u64 {
        return None;
    }
    let phoff = read_le(data, 32, 8);
    let phnum = read_le(data, 56, 2);
    if phoff > len as u64 || phnum > (len as u64 - phoff) / (PHDR_SIZE as u64) {
        return None;
    }
    proof {
        let room = (len - phoff) as int;
        assert(phnum * 56 <= room) by (nonlinear_arith)
            requires phnum <= room / 56, room >= 0;
    }
    let entry = read_le(data, 24, 8);
    let mut segments: Vec<ElfSegment> = Vec::new();
    let mut all_ok = true;
    let mut k: u64 = 0;
    while k < phnum
        invariant
            header_ok(data@),
            len == data@.len(),
            phoff == field(data@, 32, 8),
            phnum == ph_count(data@),
            k <= phnum,
            segments@ == load_segments(data@, k as int),
            all_ok == forall|i: int|
                0 <= i < segments@.len() ==> segment_ok(data@, #[trigger] segments@[i]),
        decreases phnum - k,
    {
        proof {
            assert(k * 56 + 56 <= phnum * 56) by (nonlinear_arith)
                requires k < phnum;
            assert(phoff + k * 56 + 56 <= len);
        }
        let o = (phoff + k * (PHDR_SIZE as u64)) as usize;
        let p_type = read_le(data, o, 4);
        if p_type == PT_LOAD {
            let seg = ElfSegment {
                vaddr: read_le(data, o + 16, 8),
                memsz: read_le(data, o + 40, 8),
                offset: read_le(data, o + 8, 8),
                filesz: read_le(data, o + 32, 8),
                flags: read_le(data, o + 4, 4),
            };
            let ok = seg.filesz <= seg.memsz && seg.offset <= len as u64 && seg.filesz <= len as u64
                - seg.offset && seg.vaddr < VA_HALF && seg.memsz < VA_HALF - seg.vaddr;
            proof {
                assert(seg == segment_at(data@, k as int));
                assert(ok == segment_ok(data@, seg));
            }
            let ghost prev = segments@;
            segments.push(seg);
            all_ok = all_ok && ok;
            proof {
                assert(segments@ == prev.push(seg));
                assert(segments@ == load_segments(data@, (k + 1) as int));
                let n = prev.len() as int;
                assert(segments@[n] == seg);
                if all_ok {
                    assert forall|i: int|
                        0 <= i < segments@.len() implies segment_ok(
                        data@,
                        #[trigger] segments@[i],
                    ) by {
                        if i < n {
                            assert(segments@[i] == prev[i]);
                        }
                    }
                } else if !ok {
                    assert(!segment_ok(data@, segments@[n]));
                } else {
                    let j = choose|j: int| 0 <= j < prev.len() && !segment_ok(data@, #[trigger] prev[j]);
                    assert(segments@[j] == prev[j]);
                }
            }
        }
        k = k + 1;
    }
    if !all_ok || segments.len() == 0 || entry >= VA_HALF {
        return None;
    }
    Some(ElfImage { entry, segments })
}

} // verus!
