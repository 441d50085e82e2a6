//! Address spaces: a page table, the areas mapped into it and the frames it owns.
use vstd::prelude::*;
use crate::address::{PhysPageNum, VirtAddr, VirtPageNum, SimpleRange, VPNRange, VA_HALF, VA_SPAN, PPN_SPAN, page_floor, page_ceil};
use crate::config::{PAGE_SIZE, TRAMPOLINE, TRAP_CONTEXT, TRAMPOLINE_VPN, TRAP_CONTEXT_VPN, USER_STACK_SIZE};
use crate::elf::{parse_elf, image_ok, field, load_segments, ph_count, ElfSegment, PF_R, PF_W, PF_X};
use crate::frame::FrameArena;
use crate::page_table::{PageTable, PageTableEntry, PTE_R, PTE_U, PTE_V, PTE_W, PTE_X, VPN_SPAN};

verus! {

/// How the pages of an area get their frames.
#[derive(Copy, Clone, Debug, PartialEq, Eq, Structural)]
pub enum MapType {
    /// Each virtual page maps the physical page of the same number.
    Identical,
    /// Each virtual page gets a frame of its own.
    Framed,
}

/// A contiguous run of virtual pages mapped with one permission.
#[derive(Copy, Clone)]
pub struct MapArea {
    pub vpn_range: VPNRange,
    pub map_type: MapType,
    pub map_perm: u8,
}

/// The entry that maps a page to frame `ppn` with permission `perm`.
pub open spec fn leaf_entry(ppn: u64, perm: u8) -> PageTableEntry {
    PageTableEntry { bits: (ppn * 1024 + (perm | PTE_V)) as u64 }
}

/// The entry of the trampoline page: frame 0, readable and executable.
pub open spec fn trampoline_entry() -> PageTableEntry {
    leaf_entry(0, PTE_R | PTE_X)
}

/// `child` maps the pages that `parent` maps: the trampoline to the same
/// entry, every other page to a frame of its own, made after `before`, with
/// the parent's flags and a copy of the parent's bytes.
pub open spec fn forked_from(
    child: &MemorySet,
    parent: &MemorySet,
    before: &FrameArena,
    after: &FrameArena,
) -> bool {
    &&& child@.dom() == parent@.dom()
    &&& forall|k: u64| #[trigger]
        child@.contains_key(k) ==> if k == TRAMPOLINE_VPN {
            child@[k] == parent@[k]
        } else {
            &&& child@[k].spec_flags() == parent@[k].spec_flags()
            &&& before.len() <= child@[k].spec_ppn() < after.len()
            &&& after.page(child@[k].spec_ppn() as int) == before.page(
                parent@[k].spec_ppn() as int,
            )
        }
    &&& forall|k1: u64, k2: u64|
        #![trigger child@[k1], child@[k2]]
        child@.contains_key(k1) && child@.contains_key(k2) && k1 != k2 && k1 != TRAMPOLINE_VPN
            && k2 != TRAMPOLINE_VPN ==> child@[k1].spec_ppn() != child@[k2].spec_ppn()
}

/// The highest page end among the first `k` segments.
pub open spec fn max_end_page(segs: Seq<ElfSegment>, k: int) -> int
    decreases k,
{
    if k <= 0 {
        0
    } else {
        let e = page_ceil((segs[k - 1].vaddr + segs[k - 1].memsz) as u64);
        let m = max_end_page(segs, k - 1);
        if e > m {
            e
        } else {
            m
        }
    }
}

/// First page of segment `s`.
pub open spec fn seg_lo(s: ElfSegment) -> int {
    page_floor(s.vaddr)
}

/// The page just past segment `s`.
pub open spec fn seg_hi(s: ElfSegment) -> int {
    page_ceil((s.vaddr + s.memsz) as u64)
}

/// Pages taken by the first `k` segments.
pub open spec fn pages_of(segs: Seq<ElfSegment>, k: int) -> int
    decreases k,
{
    if k <= 0 {
        0
    } else {
        pages_of(segs, k - 1) + seg_hi(segs[k - 1]) - seg_lo(segs[k - 1])
    }
}

/// No page belongs to two segments.
pub open spec fn segments_disjoint(segs: Seq<ElfSegment>) -> bool {
    forall|i: int, j: int|
        #![trigger segs[i], segs[j]]
        0 <= i < segs.len() && 0 <= j < segs.len() && i != j ==> seg_hi(segs[i]) <= seg_lo(segs[j])
            || seg_hi(segs[j]) <= seg_lo(segs[i])
}

/// Frames that loading image `d` takes: the root page, the loaded pages,
/// two pages of user stack and the trap-context page.
pub open spec fn frames_needed(d: Seq<u8>) -> int {
    let segs = load_segments(d, ph_count(d));
    1 + pages_of(segs, segs.len() as int) + 3
}

/// Image `d` loads into an arena of `len` frames: it is sound, its
/// segments share no page, and enough page numbers are left.
pub open spec fn loadable(d: Seq<u8>, len: nat) -> bool {
    &&& image_ok(d)
    &&& segments_disjoint(load_segments(d, ph_count(d)))
    &&& len + frames_needed(d) <= PPN_SPAN
}

proof fn lemma_segment_pages(d: Seq<u8>, s: ElfSegment)
    requires
        crate::elf::segment_ok(d, s),
    ensures
        seg_lo(s) <= seg_hi(s) <= 0x400_0000,
{
    vstd::arithmetic::div_mod::lemma_div_is_ordered(s.vaddr as int, (s.vaddr + s.memsz) as int + 4095, 4096);
    vstd::arithmetic::div_mod::lemma_div_is_ordered(
        (s.vaddr + s.memsz) as int + 4095,
        VA_HALF as int + 4095,
        4096,
    );
}

proof fn lemma_pages_of_grows(d: Seq<u8>, segs: Seq<ElfSegment>, i: int, n: int)
    requires
        0 <= i <= n <= segs.len(),
        forall|j: int| 0 <= j < segs.len() ==> crate::elf::segment_ok(d, #[trigger] segs[j]),
    ensures
        pages_of(segs, i) <= pages_of(segs, n),
        pages_of(segs, i) >= 0,
    decreases n,
{
    if i < n {
        lemma_pages_of_grows(d, segs, i, n - 1);
        lemma_segment_pages(d, segs[n - 1]);
    } else if i > 0 {
        lemma_pages_of_grows(d, segs, i - 1, i - 1);
        lemma_segment_pages(d, segs[i - 1]);
    }
}

proof fn lemma_max_end(d: Seq<u8>, segs: Seq<ElfSegment>, i: int)
    requires
        0 <= i <= segs.len(),
        forall|j: int| 0 <= j < segs.len() ==> crate::elf::segment_ok(d, #[trigger] segs[j]),
    ensures
        forall|j: int| 0 <= j < i ==> seg_hi(#[trigger] segs[j]) <= max_end_page(segs, i),
        0 <= max_end_page(segs, i) <= 0x400_0000,
    decreases i,
{
    if i > 0 {
        lemma_max_end(d, segs, i - 1);
        lemma_segment_pages(d, segs[i - 1]);
    }
}

/// The page permission of a segment with ELF flags `flags`: user pages,
/// readable, writable and executable as the flags say.
pub open spec fn seg_perm(flags: u64) -> u8 {
    let p1: u8 = if (flags / PF_R) % 2 == 1 {
        PTE_U | PTE_R
    } else {
        PTE_U
    };
    let p2: u8 = if (flags / PF_W) % 2 == 1 {
        p1 | PTE_W
    } else {
        p1
    };
    if (flags / PF_X) % 2 == 1 {
        p2 | PTE_X
    } else {
        p2
    }
}

/// The file bytes of segment `s` of image `d` sit at its addresses in `ms`.
pub open spec fn segment_bytes_loaded(ms: &MemorySet, mem: &FrameArena, d: Seq<u8>, s: ElfSegment) -> bool {
    forall|q: int|
        0 <= q < s.filesz ==> #[trigger] byte_at(ms, mem, (s.vaddr + q) as u64) == Some(
            d[s.offset + q],
        )
}

/// A write of byte `b` at `va` leaves every other mapped byte outside the
/// trampoline as it was, and puts `b` at `va`.
pub proof fn lemma_wrote_byte(ms: &MemorySet, m1: &FrameArena, m2: &FrameArena, va: u64, b: u8, a: u64)
    requires
        ms.wf(m1),
        wrote_byte(ms, m1, m2, va, b),
        ms@.contains_key((va / PAGE_SIZE) as u64),
        (va / PAGE_SIZE) as u64 != TRAMPOLINE_VPN,
    ensures
        byte_at(ms, m2, va) == Some(b),
        a != va && (a / PAGE_SIZE) as u64 != TRAMPOLINE_VPN ==> byte_at(ms, m2, a) == byte_at(ms, m1, a),
{
    let kv = (va / PAGE_SIZE) as u64;
    let ka = (a / PAGE_SIZE) as u64;
    m1.lemma_page_len(ms@[kv].spec_ppn() as int);
    if a != va && ka != TRAMPOLINE_VPN && ms@.contains_key(ka) {
        let pa = ms@[ka].spec_ppn() as int;
        m1.lemma_page_len(pa);
        if ka == kv {
            vstd::arithmetic::div_mod::lemma_fundamental_div_mod(a as int, 4096);
            vstd::arithmetic::div_mod::lemma_fundamental_div_mod(va as int, 4096);
            assert(a % PAGE_SIZE != va % PAGE_SIZE);
            assert(m2.page(pa)[(a % PAGE_SIZE) as int] == m1.page(pa)[(a % PAGE_SIZE) as int]);
        } else {
            assert(ms@[ka].spec_ppn() != ms@[kv].spec_ppn());
            assert(m2.page(pa) == m1.page(pa));
        }
    }
}

/// A loaded space stays loaded when no byte of any frame changes.
pub proof fn lemma_loaded_same_pages(
    ms: &MemorySet,
    d: Seq<u8>,
    before: &FrameArena,
    m1: &FrameArena,
    m2: &FrameArena,
)
    requires
        loaded_from(ms, d, before, m1),
        m2.wf(),
        m2.len() == m1.len(),
        forall|i: int| 0 <= i < m1.len() ==> #[trigger] m2.page(i) == m1.page(i),
    ensures
        loaded_from(ms, d, before, m2),
{
    let segs = load_segments(d, ph_count(d));
    assert forall|j: int| 0 <= j < segs.len() implies #[trigger] segment_bytes_loaded(ms, m2, d, segs[j]) by {
        assert(segment_bytes_loaded(ms, m1, d, segs[j]));
        assert forall|q: int|
            0 <= q < segs[j].filesz implies #[trigger] byte_at(ms, m2, (segs[j].vaddr + q) as u64)
            == Some(d[segs[j].offset + q]) by {
            let a = (segs[j].vaddr + q) as u64;
            let ka = (a / PAGE_SIZE) as u64;
            assert(byte_at(ms, m1, a) == Some(d[segs[j].offset + q]));
            assert(m2.page(ms@[ka].spec_ppn() as int) == m1.page(ms@[ka].spec_ppn() as int));
        }
    }
}

/// Every address of a segment's file bytes lies in one of its pages.
proof fn lemma_addr_in_segment(d: Seq<u8>, s: ElfSegment, q: int)
    requires
        crate::elf::segment_ok(d, s),
        0 <= q < s.filesz,
    ensures
        seg_lo(s) <= (s.vaddr + q) / 4096,
        (s.vaddr + q) / 4096 < seg_hi(s),
        (s.vaddr + q) / 4096 < 0x400_0000,
{
    let va = s.vaddr + q;
    vstd::arithmetic::div_mod::lemma_div_is_ordered(s.vaddr as int, va, 4096);
    vstd::arithmetic::div_mod::lemma_div_is_ordered(va + 4096, (s.vaddr + s.memsz) as int + 4095, 4096);
    vstd::arithmetic::div_mod::lemma_div_is_ordered(va, VA_HALF as int, 4096);
    assert((va + 4096) / 4096 == va / 4096 + 1);
}

/// Page `k` of `ms` is mapped with the permission of segment `s`.
pub open spec fn seg_mapped(ms: &MemorySet, s: ElfSegment, k: u64) -> bool {
    ms@.contains_key(k) && ms@[k] == leaf_entry(ms@[k].spec_ppn(), seg_perm(s.flags))
}

/// `ms` is the space built from image `d`: every page of every loadable
/// segment mapped with the segment's permission and holding its file bytes,
/// two pages of user stack
/// one guard page above the highest segment, the trap-context page, the
/// read-only trampoline, and every frame but the trampoline's made after
/// `before`.
pub open spec fn loaded_from(ms: &MemorySet, d: Seq<u8>, before: &FrameArena, after: &FrameArena) -> bool {
    let segs = load_segments(d, ph_count(d));
    let top = max_end_page(segs, segs.len() as int);
    &&& image_ok(d)
    &&& ms.wf(after)
    &&& ms@.contains_key(TRAP_CONTEXT_VPN)
    &&& ms@.contains_key(TRAMPOLINE_VPN)
    &&& ms@[TRAMPOLINE_VPN] == trampoline_entry()
    &&& ms.root().0 >= before.len()
    &&& forall|k: u64|
        #[trigger] ms@.contains_key(k) && k != TRAMPOLINE_VPN ==> ms@[k].spec_ppn() >= before.len()
    &&& forall|j: int, k: u64|
        0 <= j < segs.len() && seg_lo(segs[j]) <= k < seg_hi(segs[j]) ==> #[trigger] seg_mapped(
            ms,
            segs[j],
            k,
        )
    &&& forall|k: u64|
        top + 1 <= k < top + 3 ==> #[trigger] ms@.contains_key(k) && ms@[k] == leaf_entry(
            ms@[k].spec_ppn(),
            PTE_R | PTE_W | PTE_U,
        )
    &&& forall|j: int|
        0 <= j < segs.len() ==> #[trigger] segment_bytes_loaded(ms, after, d, segs[j])
}

/// The initial user stack pointer for image `d`: the top of a stack that
/// starts one guard page above the highest loaded page.
pub open spec fn user_stack_top(d: Seq<u8>) -> int {
    let segs = load_segments(d, ph_count(d));
    (max_end_page(segs, segs.len() as int) + 1) * PAGE_SIZE + USER_STACK_SIZE
}

/// The byte at user address `va` in space `ms`, if its page is mapped.
pub open spec fn byte_at(ms: &MemorySet, mem: &FrameArena, va: u64) -> Option<u8> {
    let k = (va / PAGE_SIZE) as u64;
    if ms@.contains_key(k) {
        Some(mem.page(ms@[k].spec_ppn() as int)[(va % PAGE_SIZE) as int])
    } else {
        None
    }
}

/// `after` is `before` with byte `b` stored at user address `va` of `ms`,
/// when that page is mapped; otherwise nothing changed.
pub open spec fn wrote_byte(ms: &MemorySet, before: &FrameArena, after: &FrameArena, va: u64, b: u8) -> bool {
    let k = (va / PAGE_SIZE) as u64;
    &&& after.len() == before.len()
    &&& if ms@.contains_key(k) {
        &&& after.page(ms@[k].spec_ppn() as int) == before.page(ms@[k].spec_ppn() as int).update(
            (va % PAGE_SIZE) as int,
            b,
        )
        &&& forall|i: int|
            0 <= i < before.len() && i != ms@[k].spec_ppn() ==> #[trigger] after.page(i)
                == before.page(i)
    } else {
        *after == *before
    }
}

/// One address space.
pub struct MemorySet {
    page_table: PageTable,
    areas: Vec<MapArea>,
    frames: Vec<PhysPageNum>,
}

impl MemorySet {
    /// What the space maps: virtual page number to entry.
    pub closed spec fn view(&self) -> Map<u64, PageTableEntry> {
        self.page_table@
    }

    /// The root page of the page table.
    pub closed spec fn root(&self) -> PhysPageNum {
        self.page_table.root()
    }

    /// Number of mapped pages.
    pub closed spec fn page_count(&self) -> nat {
        self.page_table.leaves_view().len()
    }

    /// The frames that the space owns and releases when it goes.
    pub closed spec fn owned(&self) -> Seq<PhysPageNum> {
        self.frames@
    }

    /// The page table is well formed.
    pub closed spec fn table_wf(&self) -> bool {
        self.page_table.wf()
    }

    /// The space is sound with respect to the frames of `mem`.
    pub open spec fn wf(&self, mem: &FrameArena) -> bool {
        &&& self.table_wf()
        &&& mem.wf()
        &&& self.root().0 < mem.len()
        &&& forall|k: u64| #[trigger] self@.contains_key(k) ==> self@[k].spec_ppn() < mem.len()
        &&& forall|i: int| 0 <= i < self.owned().len() ==> (#[trigger] self.owned()[i]).0 < mem.len()
        &&& self.frames_distinct()
    }

    /// No two pages but the trampoline share a frame.
    pub open spec fn frames_distinct(&self) -> bool {
        forall|k1: u64, k2: u64|
            #![trigger self@[k1], self@[k2]]
            self@.contains_key(k1) && self@.contains_key(k2) && k1 != k2 && k1 != TRAMPOLINE_VPN
                && k2 != TRAMPOLINE_VPN ==> self@[k1].spec_ppn() != self@[k2].spec_ppn()
    }

    /// A space with nothing mapped and a fresh root page; `None` when no
    /// frame is left.
    pub fn new_bare(mem: &mut FrameArena) -> (r: Option<Self>)
        requires
            old(mem).wf(),
        ensures
            final(mem).wf(),
            final(mem).extends(old(mem)),
            old(mem).len() < PPN_SPAN <==> r.is_some(),
            r.is_some() ==> final(mem).len() == old(mem).len() + 1,
            r.is_some() ==> r.unwrap().wf(final(mem)) && r.unwrap()@ == Map::<u64, PageTableEntry>::empty()
                && r.unwrap().root().0 == old(mem).len()
                && r.unwrap().owned() == seq![r.unwrap().root()],
    {
        match mem.alloc_frame() {
            None => None,
            Some(root) => {
                let mut frames: Vec<PhysPageNum> = Vec::new();
                frames.push(root);
                let ms = MemorySet { page_table: PageTable::new(root), areas: Vec::new(), frames };
                proof {
                    assert(ms.owned() =~= seq![root]);
                }
                Some(ms)
            },
        }
    }

    /// Gives back every frame the space owns that exists and is still
    /// handed out; each frame is released once. No byte of any frame changes.
    pub fn recycle_data_pages(&self, mem: &mut FrameArena)
        requires
            old(mem).wf(),
        ensures
            final(mem).wf(),
            self.wf(old(mem)) ==> self.wf(final(mem)),
            final(mem).len() == old(mem).len(),
            forall|i: int| 0 <= i < old(mem).len() ==> #[trigger] final(mem).page(i) == old(mem).page(i),
            forall|i: int|
                0 <= i < self.owned().len() && self.owned()[i].0 < old(mem).len() ==> !final(mem).used(
                    #[trigger] self.owned()[i].0 as int,
                ),
            forall|i: int|
                0 <= i < old(mem).len() && !self.owned().contains(PhysPageNum(i as u64))
                    ==> #[trigger] final(mem).used(i) == old(mem).used(i),
    {
        let n = mem.frame_count();
        let mut j: usize = 0;
        while j < self.frames.len()
            invariant
                mem.wf(),
                n == mem.len(),
                j <= self.frames@.len(),
                mem.len() == old(mem).len(),
                forall|i: int| 0 <= i < old(mem).len() ==> #[trigger] mem.page(i) == old(mem).page(i),
                forall|i: int|
                    0 <= i < j && self.frames@[i].0 < old(mem).len() ==> !mem.used(
                        #[trigger] self.frames@[i].0 as int,
                    ),
                forall|i: int|
                    0 <= i < old(mem).len() && !self.frames@.contains(PhysPageNum(i as u64))
                        ==> #[trigger] mem.used(i) == old(mem).used(i),
            decreases self.frames@.len() - j,
        {
            let ppn = self.frames[j];
            if (ppn.0 as usize) < n && ppn.0 < n as u64 {
                if mem.is_used(ppn) {
                    mem.dealloc_frame(ppn);
                }
            }
            proof {
                assert forall|i: int|
                    0 <= i < old(mem).len() && !self.frames@.contains(PhysPageNum(i as u64))
                        implies #[trigger] mem.used(i) == old(mem).used(i) by {
                    if i == ppn.0 {
                        assert(self.frames@[j as int] == PhysPageNum(i as u64));
                    }
                }
            }
            j = j + 1;
        }
    }

    /// The value for the `satp` register that selects this space.
    pub fn token(&self) -> (r: u64)
        requires
            self.table_wf(),
        ensures
            r == crate::page_table::SATP_SV39 + self.root().0,
    {
        self.page_table.token()
    }

    /// The entry that maps `vpn`, if any.
    pub fn translate(&self, vpn: VirtPageNum) -> (r: Option<PageTableEntry>)
        requires
            self.table_wf(),
        ensures
            r == (if self@.contains_key(vpn.0) {
                Some(self@[vpn.0])
            } else {
                None
            }),
    {
        self.page_table.translate(vpn)
    }

    /// Maps the shared trampoline page: frame 0, readable and executable.
    pub fn map_trampoline(&mut self, mem: &FrameArena)
        requires
            old(self).wf(mem),
            mem.len() > 0,
            !old(self)@.contains_key(TRAMPOLINE_VPN),
        ensures
            final(self).wf(mem),
            final(self)@ == old(self)@.insert(TRAMPOLINE_VPN, trampoline_entry()),
            final(self).root() == old(self).root(),
            final(self).owned() == old(self).owned(),
    {
        let pte = PageTableEntry::new(PhysPageNum(0), PTE_R | PTE_X | PTE_V);
        proof {
            assert((2u8 | 8u8) | 1u8 == 11u8) by (bit_vector);
            assert(pte == trampoline_entry());
        }
        self.page_table.map(VirtPageNum(TRAMPOLINE_VPN), pte);
        proof {
            assert(self.owned() == old(self).owned());
            assert forall|k: u64| #[trigger] self@.contains_key(k) implies self@[k].spec_ppn()
                < mem.len() by {
                if k != TRAMPOLINE_VPN {
                    assert(old(self)@.contains_key(k));
                }
            }
            assert forall|k1: u64, k2: u64|
                #![trigger self@[k1], self@[k2]]
                self@.contains_key(k1) && self@.contains_key(k2) && k1 != k2 && k1 != TRAMPOLINE_VPN
                    && k2 != TRAMPOLINE_VPN implies self@[k1].spec_ppn() != self@[k2].spec_ppn() by {
                assert(old(self)@.contains_key(k1) && old(self)@.contains_key(k2));
            }
        }
    }

    /// Maps `vpn` to a fresh zeroed frame with permission `perm`; `false`
    /// (and nothing changed) when no frame is left.
    pub fn push_framed_page(&mut self, mem: &mut FrameArena, vpn: VirtPageNum, perm: u8) -> (r: bool)
        requires
            old(self).wf(old(mem)),
            !old(self)@.contains_key(vpn.0),
            vpn.0 < VPN_SPAN,
        ensures
            final(self).wf(final(mem)),
            final(mem).extends(old(mem)),
            final(self).root() == old(self).root(),
            r <==> old(mem).len() < PPN_SPAN,
            r ==> final(mem).len() == old(mem).len() + 1
                && final(self)@ == old(self)@.insert(vpn.0, leaf_entry(old(mem).len() as u64, perm))
                && final(mem).page(old(mem).len() as int) == Seq::new(PAGE_SIZE as nat, |j: int| 0u8)
                && final(self).owned() == old(self).owned().push(PhysPageNum(old(mem).len() as u64)),
            !r ==> *final(self) == *old(self) && *final(mem) == *old(mem),
    {
        match mem.alloc_frame() {
            None => false,
            Some(ppn) => {
                let pte = PageTableEntry::new(ppn, perm | PTE_V);
                proof {
                    assert(pte == leaf_entry(ppn.0, perm));
                    assert((perm | 1u8) % 2 == 1) by (bit_vector);
                }
                self.page_table.map(vpn, pte);
                self.frames.push(ppn);
                proof {
                    assert forall|k: u64| #[trigger] self@.contains_key(k) implies self@[k].spec_ppn()
                        < mem.len() by {
                        if k != vpn.0 {
                            assert(old(self)@.contains_key(k));
                        }
                    }
                    assert forall|i: int| 0 <= i < self.owned().len() implies (
                    #[trigger] self.owned()[i]).0 < mem.len() by {
                        if i < old(self).owned().len() {
                            assert(self.owned()[i] == old(self).owned()[i]);
                        }
                    }
                    assert forall|k1: u64, k2: u64|
                        #![trigger self@[k1], self@[k2]]
                        self@.contains_key(k1) && self@.contains_key(k2) && k1 != k2 && k1
                            != TRAMPOLINE_VPN && k2 != TRAMPOLINE_VPN implies self@[k1].spec_ppn()
                            != self@[k2].spec_ppn() by {
                        if k1 == vpn.0 {
                            assert(old(self)@.contains_key(k2));
                        } else if k2 == vpn.0 {
                            assert(old(self)@.contains_key(k1));
                        } else {
                            assert(old(self)@.contains_key(k1) && old(self)@.contains_key(k2));
                        }
                    }
                }
                true
            },
        }
    }

    /// The byte at user address `va`, if its page is mapped.
    pub fn read_byte_at(&self, mem: &FrameArena, va: u64) -> (r: Option<u8>)
        requires
            self.wf(mem),
        ensures
            r == byte_at(self, mem, va),
    {
        match self.translate(VirtPageNum(va / PAGE_SIZE)) {
            None => None,
            Some(pte) => Some(mem.read_byte(pte.ppn(), (va % PAGE_SIZE) as usize)),
        }
    }

    /// Stores `b` at user address `va`; `false` (nothing changed) when its
    /// page is not mapped. Only the frame of that page changes.
    pub fn write_byte_at(&self, mem: &mut FrameArena, va: u64, b: u8) -> (r: bool)
        requires
            self.wf(old(mem)),
        ensures
            self.wf(final(mem)),
            final(mem).len() == old(mem).len(),
            r == self@.contains_key((va / PAGE_SIZE) as u64),
            wrote_byte(self, old(mem), final(mem), va, b),
    {
        match self.translate(VirtPageNum(va / PAGE_SIZE)) {
            None => false,
            Some(pte) => {
                mem.write_byte(pte.ppn(), (va % PAGE_SIZE) as usize, b);
                true
            },
        }
    }

    /// Builds a user space from an executable image: each loadable segment
    /// mapped with its permissions and its file bytes copied in, a user
    /// stack above a guard page, the trap-context page and the trampoline.
    /// Returns the space, the initial user stack pointer and the entry point;
    /// `None` when the image cannot be loaded or frames run out.
    pub fn from_elf(elf_data: &[u8], mem: &mut FrameArena) -> (r: Option<(MemorySet, u64, u64)>)
        requires
            old(mem).wf(),
            old(mem).len() > 0,
        ensures
            final(mem).wf(),
            final(mem).extends(old(mem)),
            !image_ok(elf_data@) ==> r.is_none() && *final(mem) == *old(mem),
            loadable(elf_data@, old(mem).len()) ==> r.is_some(),
            r.is_some() ==> {
                let (ms, sp, entry) = r.unwrap();
                &&& loaded_from(&ms, elf_data@, old(mem), final(mem))
                &&& entry == field(elf_data@, 24, 8)
                &&& sp == user_stack_top(elf_data@)
            },
    {
        let img = match parse_elf(elf_data) {
            None => return None,
            Some(i) => i,
        };
        let ghost m_start = *old(mem);
        let _len = elf_data.len();
        proof {
            lemma_pages_of_grows(elf_data@, img.segments@, 0, img.segments@.len() as int);
        }
        let mut ms = match MemorySet::new_bare(mem) {
            None => return None,
            Some(m) => m,
        };
        ms.map_trampoline(mem);
        let ghost segs = img.segments@;
        let ghost ok = loadable(elf_data@, m_start.len());
        proof {
            lemma_pages_of_grows(elf_data@, segs, 0, segs.len() as int);
        }
        let n = img.segments.len();
        let mut max_end_vpn: u64 = 0;
        let mut i: usize = 0;
        while i < n
            invariant
                image_ok(elf_data@),
                elf_data@.len() <= usize::MAX,
                segs == load_segments(elf_data@, ph_count(elf_data@)),
                segs == img.segments@,
                n == segs.len(),
                i <= n,
                ms.wf(mem),
                mem.extends(&m_start),
                m_start == *old(mem),
                ms.root().0 >= m_start.len(),
                ms@.contains_key(TRAMPOLINE_VPN),
                ms@[TRAMPOLINE_VPN] == trampoline_entry(),
                forall|k: u64|
                    #[trigger] ms@.contains_key(k) && k != TRAMPOLINE_VPN ==> ms@[k].spec_ppn()
                        >= m_start.len(),
                max_end_vpn == max_end_page(segs, i as int),
                max_end_vpn <= 0x400_0000,
                ok == loadable(elf_data@, m_start.len()),
                mem.len() == m_start.len() + 1 + pages_of(segs, i as int),
                forall|k: u64|
                    #[trigger] ms@.contains_key(k) ==> k == TRAMPOLINE_VPN || exists|j: int|
                        0 <= j < i && seg_lo(#[trigger] segs[j]) <= k < seg_hi(segs[j]),
                forall|j: int, k: u64|
                    0 <= j < i && seg_lo(segs[j]) <= k < seg_hi(segs[j]) ==> #[trigger] seg_mapped(
                        &ms,
                        segs[j],
                        k,
                    ),
                forall|j: int|
                    0 <= j < i ==> #[trigger] segment_bytes_loaded(&ms, mem, elf_data@, segs[j]),
            decreases n - i,
        {
            let seg = img.segments[i];
            proof {
                assert(crate::elf::segment_ok(elf_data@, segs[i as int]));
            }
            let mut perm: u8 = PTE_U;
            if (seg.flags / PF_R) % 2 == 1 {
                perm = perm | PTE_R;
            }
            if (seg.flags / PF_W) % 2 == 1 {
                perm = perm | PTE_W;
            }
            if (seg.flags / PF_X) % 2 == 1 {
                perm = perm | PTE_X;
            }
            proof {
                assert(segs[i as int] == seg);
                assert(perm == seg_perm(seg.flags));
            }
            let start = VirtAddr(seg.vaddr);
            let end = VirtAddr(seg.vaddr + seg.memsz);
            let ghost ms0 = ms;
            let ghost mem0 = *mem;
            proof {
                lemma_segment_pages(elf_data@, seg);
                lemma_pages_of_grows(elf_data@, segs, i + 1, n as int);
                if ok {
                    assert forall|k: u64|
                        page_floor(start.0) <= k < page_ceil(end.0) implies !#[trigger] ms@.contains_key(
                        k,
                    ) by {
                        if ms@.contains_key(k) && k != TRAMPOLINE_VPN {
                            let j = choose|j: int|
                                0 <= j < i && seg_lo(#[trigger] segs[j]) <= k < seg_hi(segs[j]);
                            assert(segs[j] != segs[i as int] || j != i);
                        }
                    }
                }
            }
            if !ms.insert_framed_area(mem, start, end, perm) {
                return None;
            }
            proof {
                assert forall|k: u64|
                    #[trigger] ms@.contains_key(k) && k != TRAMPOLINE_VPN implies ms@[k].spec_ppn()
                        >= m_start.len() by {
                    if ms0@.contains_key(k) {
                        assert(ms@[k] == ms0@[k]);
                    }
                }
                assert forall|k: u64|
                    #[trigger] ms@.contains_key(k) implies k == TRAMPOLINE_VPN || exists|j: int|
                        0 <= j < i + 1 && seg_lo(#[trigger] segs[j]) <= k < seg_hi(segs[j]) by {
                    if !ms0@.contains_key(k) {
                        assert(segs[i as int] == seg);
                    }
                }
                assert forall|j: int, k: u64|
                    0 <= j < i + 1 && seg_lo(segs[j]) <= k < seg_hi(segs[j]) implies #[trigger] seg_mapped(
                        &ms,
                        segs[j],
                        k,
                    ) by {
                    if j < i {
                        assert(seg_mapped(&ms0, segs[j], k));
                        assert(ms@[k] == ms0@[k]);
                    } else {
                        assert(segs[j] == seg);
                    }
                }
                assert forall|j: int|
                    0 <= j < i implies #[trigger] segment_bytes_loaded(&ms, mem, elf_data@, segs[j]) by {
                    assert(segment_bytes_loaded(&ms0, &mem0, elf_data@, segs[j]));
                    assert forall|q: int|
                        0 <= q < segs[j].filesz implies #[trigger] byte_at(
                        &ms,
                        mem,
                        (segs[j].vaddr + q) as u64,
                    ) == Some(elf_data@[segs[j].offset + q]) by {
                        assert(crate::elf::segment_ok(elf_data@, segs[j]));
                        lemma_addr_in_segment(elf_data@, segs[j], q);
                        let a = (segs[j].vaddr + q) as u64;
                        let ka = (a / PAGE_SIZE) as u64;
                        assert(seg_mapped(&ms0, segs[j], ka));
                        assert(ms@[ka] == ms0@[ka]);
                        assert(byte_at(&ms0, &mem0, a) == Some(elf_data@[segs[j].offset + q]));
                        assert(mem.page(ms0@[ka].spec_ppn() as int) == mem0.page(ms0@[ka].spec_ppn() as int));
                    }
                }
            }
            let mut k: u64 = 0;
            while k < seg.filesz
                invariant
                    crate::elf::segment_ok(elf_data@, seg),
                    elf_data@.len() <= usize::MAX,
                    image_ok(elf_data@),
                    ms.wf(mem),
                    mem.extends(&m_start),
                    m_start == *old(mem),
                    k <= seg.filesz,
                    forall|k: u64|
                        #[trigger] ms@.contains_key(k) && k != TRAMPOLINE_VPN ==> ms@[k].spec_ppn()
                            >= m_start.len(),
                    forall|q: u64| seg_lo(seg) <= q < seg_hi(seg) ==> #[trigger] ms@.contains_key(q),
                    forall|q: u64| seg_lo(seg) <= q < seg_hi(seg) ==> !#[trigger] ms0@.contains_key(q),
                    forall|j: int, kk: u64|
                        0 <= j < i && seg_lo(segs[j]) <= kk < seg_hi(segs[j]) ==> #[trigger] seg_mapped(
                            &ms0,
                            segs[j],
                            kk,
                        ),
                    segs == load_segments(elf_data@, ph_count(elf_data@)),
                    i < segs.len(),
                    segs[i as int] == seg,
                    forall|j: int|
                        0 <= j < i ==> #[trigger] segment_bytes_loaded(&ms, mem, elf_data@, segs[j]),
                    forall|q: int|
                        0 <= q < k ==> #[trigger] byte_at(&ms, mem, (seg.vaddr + q) as u64) == Some(
                            elf_data@[seg.offset + q],
                        ),
                    mem.len() == m_start.len() + 1 + pages_of(segs, i + 1),
                decreases seg.filesz - k,
            {
                let b = elf_data[(seg.offset + k) as usize];
                let ghost mem1 = *mem;
                let va = seg.vaddr + k;
                proof {
                    vstd::arithmetic::div_mod::lemma_div_is_ordered(seg.vaddr as int, va as int, 4096);
                    vstd::arithmetic::div_mod::lemma_div_is_ordered(
                        va as int + 4096,
                        (seg.vaddr + seg.memsz) as int + 4095,
                        4096,
                    );
                    assert((va as int + 4096) / 4096 == va as int / 4096 + 1);
                    assert(ms@.contains_key((va / PAGE_SIZE) as u64));
                }
                if !ms.write_byte_at(mem, va, b) {
                    return None;
                }
                proof {
                    lemma_addr_in_segment(elf_data@, seg, k as int);
                    lemma_wrote_byte(&ms, &mem1, mem, va, b, va);
                    assert forall|q: int|
                        0 <= q < k + 1 implies #[trigger] byte_at(&ms, mem, (seg.vaddr + q) as u64)
                        == Some(elf_data@[seg.offset + q]) by {
                        if q < k {
                            lemma_addr_in_segment(elf_data@, seg, q);
                            lemma_wrote_byte(&ms, &mem1, mem, va, b, (seg.vaddr + q) as u64);
                        }
                    }
                    assert forall|j: int|
                        0 <= j < i implies #[trigger] segment_bytes_loaded(&ms, mem, elf_data@, segs[j]) by {
                        assert(segment_bytes_loaded(&ms, &mem1, elf_data@, segs[j]));
                        assert forall|q: int|
                            0 <= q < segs[j].filesz implies #[trigger] byte_at(
                            &ms,
                            mem,
                            (segs[j].vaddr + q) as u64,
                        ) == Some(elf_data@[segs[j].offset + q]) by {
                            assert(crate::elf::segment_ok(elf_data@, segs[j]));
                            lemma_addr_in_segment(elf_data@, segs[j], q);
                            let a = (segs[j].vaddr + q) as u64;
                            let ka = (a / PAGE_SIZE) as u64;
                            assert(seg_mapped(&ms0, segs[j], ka));
                            assert(ms0@.contains_key(ka));
                            assert(byte_at(&ms, &mem1, a) == Some(elf_data@[segs[j].offset + q]));
                            lemma_wrote_byte(&ms, &mem1, mem, va, b, a);
                        }
                    }
                }
                proof {
                    assert(va < VA_HALF);
                    assert((va / PAGE_SIZE) < TRAMPOLINE_VPN);
                    let t = ms@[(va / PAGE_SIZE) as u64].spec_ppn();
                    assert(t >= m_start.len());
                    assert forall|i: int| 0 <= i < m_start.len() implies #[trigger] mem.page(i)
                        == m_start.page(i) by {
                        assert(mem.page(i) == mem1.page(i));
                    }
                }
                k = k + 1;
            }
            let end_vpn = end.ceil();
            proof {
                vstd::arithmetic::div_mod::lemma_div_is_ordered(
                    (seg.vaddr + seg.memsz) as int + 4095,
                    VA_HALF as int + 4095,
                    4096,
                );
            }
            if end_vpn.0 > max_end_vpn {
                max_end_vpn = end_vpn.0;
            }
            i = i + 1;
        }
        let user_stack_bottom = max_end_vpn * PAGE_SIZE + PAGE_SIZE;
        let stack_top = user_stack_bottom + USER_STACK_SIZE;
        let ghost ms1 = ms;
        let ghost mem_a = *mem;
        proof {
            lemma_max_end(elf_data@, segs, n as int);
            assert(page_floor(user_stack_bottom) == max_end_vpn + 1);
            assert(page_ceil(stack_top) == max_end_vpn + 3);
            if ok {
                assert forall|k: u64|
                    page_floor(user_stack_bottom) <= k < page_ceil(stack_top) implies !#[trigger] ms@.contains_key(
                    k,
                ) by {
                    if ms@.contains_key(k) && k != TRAMPOLINE_VPN {
                        let j = choose|j: int|
                            0 <= j < n && seg_lo(#[trigger] segs[j]) <= k < seg_hi(segs[j]);
                    }
                }
            }
        }
        if !ms.insert_framed_area(
            mem,
            VirtAddr(user_stack_bottom),
            VirtAddr(stack_top),
            PTE_R | PTE_W | PTE_U,
        ) {
            return None;
        }
        let ghost ms2 = ms;
        let ghost mem_b = *mem;
        let tc = VirtAddr::from(TRAP_CONTEXT);
        let tr = VirtAddr::from(TRAMPOLINE);
        proof {
            assert(tc.0 == 0x7f_ffff_e000u64);
            assert(tr.0 == 0x7f_ffff_f000u64);
            assert(page_floor(tc.0) == TRAP_CONTEXT_VPN);
            assert(page_ceil(tr.0) == TRAMPOLINE_VPN);
            if ok {
                assert forall|k: u64|
                    page_floor(tc.0) <= k < page_ceil(tr.0) implies !#[trigger] ms@.contains_key(k) by {
                    if ms@.contains_key(k) && !ms1@.contains_key(k) {
                        assert(k < max_end_vpn + 3);
                    } else if ms@.contains_key(k) && k != TRAMPOLINE_VPN {
                        let j = choose|j: int|
                            0 <= j < n && seg_lo(#[trigger] segs[j]) <= k < seg_hi(segs[j]);
                    }
                }
            }
        }
        if !ms.insert_framed_area(mem, tc, tr, PTE_R | PTE_W) {
            return None;
        }
        proof {
            assert(tc.0 == 0x7f_ffff_e000u64);
            assert(tr.0 == 0x7f_ffff_f000u64);
            assert(page_floor(tc.0) == TRAP_CONTEXT_VPN);
            assert(page_ceil(tr.0) == TRAMPOLINE_VPN);
            assert forall|k: u64|
                #[trigger] ms@.contains_key(k) && k != TRAMPOLINE_VPN implies ms@[k].spec_ppn()
                    >= m_start.len() by {
                if ms2@.contains_key(k) {
                    assert(ms@[k] == ms2@[k]);
                    if ms1@.contains_key(k) {
                        assert(ms2@[k] == ms1@[k]);
                    }
                }
            }
            assert(ms1@.contains_key(TRAMPOLINE_VPN));
            assert(ms2@.contains_key(TRAMPOLINE_VPN));
            assert(ms2@[TRAMPOLINE_VPN] == ms1@[TRAMPOLINE_VPN]);
            assert(ms@[TRAMPOLINE_VPN] == ms2@[TRAMPOLINE_VPN]);
            assert forall|j: int, k: u64|
                0 <= j < segs.len() && seg_lo(segs[j]) <= k < seg_hi(segs[j]) implies #[trigger] seg_mapped(
                    &ms,
                    segs[j],
                    k,
                ) by {
                assert(seg_mapped(&ms1, segs[j], k));
                assert(ms2@.contains_key(k));
                assert(ms2@[k] == ms1@[k]);
                assert(ms@[k] == ms2@[k]);
            }
            assert forall|j: int|
                0 <= j < segs.len() implies #[trigger] segment_bytes_loaded(&ms, mem, elf_data@, segs[j]) by {
                assert(segment_bytes_loaded(&ms1, &mem_a, elf_data@, segs[j]));
                assert forall|q: int|
                    0 <= q < segs[j].filesz implies #[trigger] byte_at(
                    &ms,
                    mem,
                    (segs[j].vaddr + q) as u64,
                ) == Some(elf_data@[segs[j].offset + q]) by {
                    assert(crate::elf::segment_ok(elf_data@, segs[j]));
                    lemma_addr_in_segment(elf_data@, segs[j], q);
                    let a = (segs[j].vaddr + q) as u64;
                    let ka = (a / PAGE_SIZE) as u64;
                    assert(seg_mapped(&ms1, segs[j], ka));
                    assert(ms2@.contains_key(ka));
                    assert(ms2@[ka] == ms1@[ka]);
                    assert(ms@[ka] == ms2@[ka]);
                    assert(byte_at(&ms1, &mem_a, a) == Some(elf_data@[segs[j].offset + q]));
                    let p = ms1@[ka].spec_ppn() as int;
                    assert(mem_b.page(p) == mem_a.page(p));
                    assert(mem.page(p) == mem_b.page(p));
                }
            }
            assert forall|k: u64|
                max_end_vpn + 1 <= k < max_end_vpn + 3 implies #[trigger] ms@.contains_key(k)
                    && ms@[k] == leaf_entry(ms@[k].spec_ppn(), PTE_R | PTE_W | PTE_U) by {
                assert(ms2@.contains_key(k));
                assert(ms@[k] == ms2@[k]);
            }
        }
        Some((ms, stack_top, img.entry))
    }

    /// A copy of the user space `user` for a forked child: every page gets a
    /// fresh frame holding a copy of the parent's bytes, except the
    /// trampoline, which stays shared. `None` when frames run out.
    pub fn from_existed_user(user: &MemorySet, mem: &mut FrameArena) -> (r: Option<MemorySet>)
        requires
            user.wf(old(mem)),
        ensures
            final(mem).wf(),
            final(mem).extends(old(mem)),
            user.wf(final(mem)),
            old(mem).len() + 1 + user.page_count() <= PPN_SPAN ==> r.is_some(),
            r.is_some() ==> r.unwrap().wf(final(mem)) && forked_from(
                &r.unwrap(),
                user,
                old(mem),
                final(mem),
            ),
    {
        let mut ms = match MemorySet::new_bare(mem) {
            None => return None,
            Some(m) => m,
        };
        let ghost before = *old(mem);
        let n = user.page_table.len();
        let mut i: usize = 0;
        while i < n
            invariant
                user.wf(&before),
                before == *old(mem),
                n == user.page_table.leaves_view().len(),
                i <= n,
                ms.wf(mem),
                mem.extends(&before),
                mem.len() <= before.len() + 1 + i,
                forall|k: u64|
                    #[trigger] ms@.contains_key(k) <==> exists|j: int|
                        0 <= j < i && (#[trigger] user.page_table.leaves_view()[j]).0.0 == k,
                forall|k: u64|
                    #[trigger] ms@.contains_key(k) ==> user@.contains_key(k) && if k
                        == TRAMPOLINE_VPN {
                        ms@[k] == user@[k]
                    } else {
                        &&& ms@[k].spec_flags() == user@[k].spec_flags()
                        &&& before.len() <= ms@[k].spec_ppn() < mem.len()
                        &&& mem.page(ms@[k].spec_ppn() as int) == before.page(
                            user@[k].spec_ppn() as int,
                        )
                    },
                forall|k1: u64, k2: u64|
                    #![trigger ms@[k1], ms@[k2]]
                    ms@.contains_key(k1) && ms@.contains_key(k2) && k1 != k2 && k1
                        != TRAMPOLINE_VPN && k2 != TRAMPOLINE_VPN ==> ms@[k1].spec_ppn()
                        != ms@[k2].spec_ppn(),
            decreases n - i,
        {
            let (vpn, pte) = user.page_table.leaf(i);
            proof {
                user.page_table.lemma_mapped_valid(vpn.0);
                assert(user@.contains_key(vpn.0));
                assert(pte.spec_ppn() < before.len());
                if ms@.contains_key(vpn.0) {
                    let j = choose|j: int|
                        0 <= j < i && (#[trigger] user.page_table.leaves_view()[j]).0.0 == vpn.0;
                    user.page_table.lemma_leaves_distinct(i as int, j);
                }
            }
            let ghost ms0 = ms;
            let ghost mem0 = *mem;
            if vpn.0 == TRAMPOLINE_VPN {
                ms.page_table.map(vpn, pte);
                proof {
                    assert(ms.owned() == ms0.owned());
                    assert forall|k: u64| #[trigger] ms@.contains_key(k) implies ms@[k].spec_ppn()
                        < mem.len() by {
                        if k != vpn.0 {
                            assert(ms0@.contains_key(k));
                        }
                    }
                }
            } else {
                let ppn = match mem.alloc_frame() {
                    None => return None,
                    Some(p) => p,
                };
                mem.copy_page(pte.ppn(), ppn);
                let entry = PageTableEntry::new(ppn, pte.flags());
                ms.page_table.map(vpn, entry);
                ms.frames.push(ppn);
                proof {
                    assert forall|k: u64| #[trigger] ms@.contains_key(k) implies ms@[k].spec_ppn()
                        < mem.len() by {
                        if k != vpn.0 {
                            assert(ms0@.contains_key(k));
                        }
                    }
                    assert forall|j: int| 0 <= j < ms.owned().len() implies (
                    #[trigger] ms.owned()[j]).0 < mem.len() by {
                        if j < ms0.owned().len() {
                            assert(ms.owned()[j] == ms0.owned()[j]);
                        }
                    }
                }
            }
            proof {
                assert forall|k: u64| #[trigger] ms@.contains_key(k) <==> exists|j: int|
                    0 <= j < i + 1 && (#[trigger] user.page_table.leaves_view()[j]).0.0 == k by {
                    if k == vpn.0 {
                        assert(user.page_table.leaves_view()[i as int].0.0 == k);
                    } else if ms@.contains_key(k) {
                        assert(ms0@.contains_key(k));
                    } else if exists|j: int|
                        0 <= j < i + 1 && (#[trigger] user.page_table.leaves_view()[j]).0.0 == k {
                        let j = choose|j: int|
                            0 <= j < i + 1 && (#[trigger] user.page_table.leaves_view()[j]).0.0 == k;
                        assert(j != i);
                        assert(ms0@.contains_key(k));
                    }
                }
                assert forall|k: u64| #[trigger] ms@.contains_key(k) implies user@.contains_key(k) && if k
                    == TRAMPOLINE_VPN {
                    ms@[k] == user@[k]
                } else {
                    &&& ms@[k].spec_flags() == user@[k].spec_flags()
                    &&& before.len() <= ms@[k].spec_ppn() < mem.len()
                    &&& mem.page(ms@[k].spec_ppn() as int) == before.page(user@[k].spec_ppn() as int)
                } by {
                    if k != vpn.0 {
                        assert(ms0@.contains_key(k));
                        if k != TRAMPOLINE_VPN {
                            assert(ms0@[k].spec_ppn() < mem0.len());
                            assert(mem.page(ms@[k].spec_ppn() as int) == mem0.page(ms0@[k].spec_ppn() as int));
                        }
                    } else if k != TRAMPOLINE_VPN {
                        assert(pte.spec_ppn() < before.len());
                        assert(mem0.page(pte.spec_ppn() as int) == before.page(pte.spec_ppn() as int));
                    }
                }
                assert forall|k1: u64, k2: u64|
                    #![trigger ms@[k1], ms@[k2]]
                    ms@.contains_key(k1) && ms@.contains_key(k2) && k1 != k2 && k1
                        != TRAMPOLINE_VPN && k2 != TRAMPOLINE_VPN implies ms@[k1].spec_ppn()
                        != ms@[k2].spec_ppn() by {
                    if k1 == vpn.0 {
                        assert(ms0@.contains_key(k2));
                        assert(ms0@[k2].spec_ppn() < mem0.len());
                    } else if k2 == vpn.0 {
                        assert(ms0@.contains_key(k1));
                        assert(ms0@[k1].spec_ppn() < mem0.len());
                    } else {
                        assert(ms0@.contains_key(k1) && ms0@.contains_key(k2));
                    }
                }
            }
            i = i + 1;
        }
        proof {
            assert forall|k: u64| ms@.contains_key(k) <==> user@.contains_key(k) by {
                if user@.contains_key(k) {
                    user.page_table.lemma_leaves_cover(k);
                }
            }
            assert(ms@.dom() =~= user@.dom());
        }
        Some(ms)
    }

    /// Maps every page from the one holding `start_va` up to the one that
    /// ends at or after `end_va`, each to a fresh frame with permission
    /// `perm`; `false` when a page is mapped already or frames run out.
    pub fn insert_framed_area(
        &mut self,
        mem: &mut FrameArena,
        start_va: VirtAddr,
        end_va: VirtAddr,
        perm: u8,
    ) -> (r: bool)
        requires
            old(self).wf(old(mem)),
            start_va.0 <= end_va.0,
            end_va.0 <= VA_SPAN,
        ensures
            final(self).wf(final(mem)),
            final(mem).extends(old(mem)),
            final(self).root() == old(self).root(),
            r <==> (forall|k: u64|
                page_floor(start_va.0) <= k < page_ceil(end_va.0) ==> !#[trigger] old(
                    self,
                )@.contains_key(k)) && old(mem).len() + page_ceil(end_va.0) - page_floor(start_va.0)
                <= PPN_SPAN,
            r ==> final(mem).len() == old(mem).len() + page_ceil(end_va.0) - page_floor(start_va.0),
            r ==> forall|k: u64|
                #[trigger] final(self)@.contains_key(k) <==> (old(self)@.contains_key(k) || (
                page_floor(start_va.0) <= k < page_ceil(end_va.0))),
            r ==> forall|k: u64|
                #[trigger] old(self)@.contains_key(k) ==> final(self)@[k] == old(self)@[k],
            r ==> forall|k: u64|
                page_floor(start_va.0) <= k < page_ceil(end_va.0) ==> #[trigger] final(self)@[k]
                    == leaf_entry(final(self)@[k].spec_ppn(), perm) && old(mem).len()
                    <= final(self)@[k].spec_ppn(),
    {
        let lo = start_va.floor();
        let hi = end_va.ceil();
        proof {
            vstd::arithmetic::div_mod::lemma_div_is_ordered(
                end_va.0 as int + 4095,
                VA_SPAN as int + 4095,
                4096,
            );
            vstd::arithmetic::div_mod::lemma_div_is_ordered(
                start_va.0 as int,
                end_va.0 as int + 4095,
                4096,
            );
        }
        let range = SimpleRange::new(lo, hi);
        self.areas.push(MapArea { vpn_range: range, map_type: MapType::Framed, map_perm: perm });
        let ghost s0 = *self;
        let ghost m0 = *mem;
        proof {
            assert(self@ == old(self)@);
            assert(self.owned() == old(self).owned());
        }
        let mut v: u64 = lo.0;
        while v < hi.0
            invariant
                lo.0 <= v <= hi.0,
                hi.0 <= VPN_SPAN,
                lo.0 == page_floor(start_va.0),
                hi.0 == page_ceil(end_va.0),
                self.wf(mem),
                mem.extends(&m0),
                mem.extends(old(mem)),
                m0.len() == old(mem).len(),
                mem.len() == m0.len() + (v - lo.0),
                forall|k: u64| lo.0 <= k < v ==> !#[trigger] s0@.contains_key(k),
                s0@ == old(self)@,
                self.root() == s0.root(),
                self.root() == old(self).root(),
                s0.wf(&m0),
                forall|k: u64|
                    #[trigger] self@.contains_key(k) <==> (s0@.contains_key(k) || (lo.0 <= k < v)),
                forall|k: u64| #[trigger] s0@.contains_key(k) ==> self@[k] == s0@[k],
                forall|k: u64|
                    lo.0 <= k < v ==> #[trigger] self@[k] == leaf_entry(self@[k].spec_ppn(), perm)
                        && m0.len() <= self@[k].spec_ppn(),
            decreases hi.0 - v,
        {
            let vpn = VirtPageNum(v);
            if self.translate(vpn).is_some() {
                proof {
                    assert(s0@.contains_key(v));
                    assert(old(self)@.contains_key(v));
                }
                return false;
            }
            let ghost s1 = *self;
            let ghost m1 = *mem;
            if !self.push_framed_page(mem, vpn, perm) {
                proof {
                    assert(m1.len() >= PPN_SPAN);
                }
                return false;
            }
            proof {
                assert(self@[v] == leaf_entry(m1.len() as u64, perm));
                assert(self@ == s1@.insert(v, leaf_entry(m1.len() as u64, perm)));
            }
            v = v + 1;
        }
        proof {
            mem.lemma_len_bound();
            assert forall|k: u64|
                page_floor(start_va.0) <= k < page_ceil(end_va.0) implies !#[trigger] old(
                self,
            )@.contains_key(k) by {
                assert(!s0@.contains_key(k));
            }
        }
        true
    }
}

/// Forking copies rather than shares: no page of the child but the
/// trampoline uses a frame that a page of the parent uses, and the
/// trampoline entry is the same in both.
pub proof fn lemma_fork_no_shared_frames(
    child: &MemorySet,
    parent: &MemorySet,
    before: &FrameArena,
    after: &FrameArena,
)
    requires
        parent.wf(before),
        forked_from(child, parent, before, after),
    ensures
        forall|k1: u64, k2: u64|
            #![trigger child@[k1], parent@[k2]]
            child@.contains_key(k1) && k1 != TRAMPOLINE_VPN && parent@.contains_key(k2)
                ==> child@[k1].spec_ppn() != parent@[k2].spec_ppn(),
        child@.contains_key(TRAMPOLINE_VPN) ==> child@[TRAMPOLINE_VPN] == parent@[TRAMPOLINE_VPN],
{
    assert forall|k1: u64, k2: u64|
        #![trigger child@[k1], parent@[k2]]
        child@.contains_key(k1) && k1 != TRAMPOLINE_VPN && parent@.contains_key(
            k2,
        ) implies child@[k1].spec_ppn() != parent@[k2].spec_ppn() by {
        assert(child@.contains_key(k1));
    }
}

/// After a fork, a byte written through the child (outside the trampoline)
/// is not seen through the parent: every byte of the parent reads as before.
pub proof fn lemma_fork_child_write_invisible(
    child: &MemorySet,
    parent: &MemorySet,
    before: &FrameArena,
    after: &FrameArena,
    written: &FrameArena,
    va: u64,
    b: u8,
    x: u64,
)
    requires
        parent.wf(before),
        forked_from(child, parent, before, after),
        after.extends(before),
        (va / PAGE_SIZE) as u64 != TRAMPOLINE_VPN,
        wrote_byte(child, after, written, va, b),
    ensures
        byte_at(parent, written, x) == byte_at(parent, after, x),
{
    let k = (x / PAGE_SIZE) as u64;
    let kv = (va / PAGE_SIZE) as u64;
    if parent@.contains_key(k) && child@.contains_key(kv) {
        lemma_fork_no_shared_frames(child, parent, before, after);
        assert(child@[kv].spec_ppn() != parent@[k].spec_ppn());
        assert(parent@[k].spec_ppn() < before.len());
    }
}

/// After a fork, a byte written through the parent is not seen through the
/// child outside the trampoline: every such byte of the child reads as before.
pub proof fn lemma_fork_parent_write_invisible(
    child: &MemorySet,
    parent: &MemorySet,
    before: &FrameArena,
    after: &FrameArena,
    written: &FrameArena,
    va: u64,
    b: u8,
    x: u64,
)
    requires
        parent.wf(before),
        forked_from(child, parent, before, after),
        after.extends(before),
        (x / PAGE_SIZE) as u64 != TRAMPOLINE_VPN,
        wrote_byte(parent, after, written, va, b),
    ensures
        byte_at(child, written, x) == byte_at(child, after, x),
{
    let k = (x / PAGE_SIZE) as u64;
    let kv = (va / PAGE_SIZE) as u64;
    if child@.contains_key(k) && parent@.contains_key(kv) {
        lemma_fork_no_shared_frames(child, parent, before, after);
        assert(child@[k].spec_ppn() != parent@[kv].spec_ppn());
        assert(child@[k].spec_ppn() < after.len());
    }
}

} // verus!
