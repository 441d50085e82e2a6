//! Physical memory as an arena of page frames indexed by physical page number.
//!
//! A frame is owned as a fixed-size byte buffer; every typed view of a page
//! is a bounds-checked accessor over that buffer.
use vstd::prelude::*;
use crate::address::{PhysPageNum, PPN_SPAN};
use crate::config::PAGE_SIZE;

verus! {

/// Number of bytes in a frame, as an index bound.
pub const FRAME_BYTES: usize = 4096;

/// All physical page frames of the machine, and which of them are in use.
pub struct FrameArena {
    frames: Vec<Vec<u8>>,
    in_use: Vec<bool>,
}

impl FrameArena {
    /// Number of frames that exist.
    pub closed spec fn len(&self) -> nat {
        self.frames@.len()
    }

    /// Contents of frame `i`.
    pub closed spec fn page(&self, i: int) -> Seq<u8> {
        self.frames@[i]@
    }

    /// Whether frame `i` is handed out.
    pub closed spec fn used(&self, i: int) -> bool {
        self.in_use@[i]
    }

    /// Every frame holds exactly one page, and the arena stays within the
    /// physical page-number width.
    pub closed spec fn wf(&self) -> bool {
        &&& self.frames@.len() == self.in_use@.len()
        &&& self.frames@.len() <= PPN_SPAN
        &&& forall|i: int| 0 <= i < self.frames@.len() ==> (#[trigger] self.frames@[i])@.len()
            == PAGE_SIZE
    }

    /// Every frame of a sound arena holds one page.
    pub proof fn lemma_page_len(&self, i: int)
        requires
            self.wf(),
            0 <= i < self.len(),
        ensures
            self.page(i).len() == PAGE_SIZE,
    {
    }

    /// A sound arena stays within the page-number width.
    pub proof fn lemma_len_bound(&self)
        requires
            self.wf(),
        ensures
            self.len() <= PPN_SPAN,
    {
    }

    /// Frames `0 .. old.len()` keep their contents.
    pub open spec fn extends(&self, old: &FrameArena) -> bool {
        &&& old.len() <= self.len()
        &&& forall|i: int| 0 <= i < old.len() ==> #[trigger] self.page(i) == old.page(i)
    }

    /// An arena with one frame in use: frame 0, which holds the trampoline
    /// code shared by every address space.
    pub fn new() -> (r: Self)
        ensures
            r.wf(),
            r.len() == 1,
            r.used(0),
            r.page(0) == Seq::new(PAGE_SIZE as nat, |j: int| 0u8),
    {
        let mut a = FrameArena { frames: Vec::new(), in_use: Vec::new() };
        let z = zero_page();
        a.frames.push(z);
        a.in_use.push(true);
        proof {
            assert(a.frames@[0]@ =~= Seq::new(PAGE_SIZE as nat, |j: int| 0u8));
        }
        a
    }

    /// Number of frames that exist.
    pub fn frame_count(&self) -> (r: usize)
        ensures
            r == self.len(),
    {
        self.frames.len()
    }

    /// Hands out a fresh zeroed frame; `None` once the page-number width is
    /// exhausted.
    pub fn alloc_frame(&mut self) -> (r: Option<PhysPageNum>)
        requires
            old(self).wf(),
        ensures
            final(self).wf(),
            final(self).extends(old(self)),
            old(self).len() < PPN_SPAN ==> r == Some(PhysPageNum(old(self).len() as u64))
                && final(self).len() == old(self).len() + 1
                && final(self).used(old(self).len() as int)
                && final(self).page(old(self).len() as int) == Seq::new(
                PAGE_SIZE as nat,
                |j: int| 0u8,
            ),
            old(self).len() >= PPN_SPAN ==> r.is_none() && *final(self) == *old(self),
            forall|i: int| 0 <= i < old(self).len() ==> final(self).used(i) == old(self).used(i),
    {
        let n = self.frames.len();
        if n as u64 >= PPN_SPAN {
            return None;
        }
        let z = zero_page();
        self.frames.push(z);
        self.in_use.push(true);
        proof {
            assert(self.frames@[n as int]@ =~= Seq::new(PAGE_SIZE as nat, |j: int| 0u8));
            assert forall|i: int| 0 <= i < self.frames@.len() implies (
            #[trigger] self.frames@[i])@.len() == PAGE_SIZE by {
                if i < n {
                    assert(self.frames@[i] == old(self).frames@[i]);
                }
            }
        }
        Some(PhysPageNum(n as u64))
    }

    /// Gives frame `ppn` back. A frame is released exactly once.
    pub fn dealloc_frame(&mut self, ppn: PhysPageNum)
        requires
            old(self).wf(),
            ppn.0 < old(self).len(),
            old(self).used(ppn.0 as int),
        ensures
            final(self).wf(),
            final(self).len() == old(self).len(),
            forall|i: int| 0 <= i < old(self).len() ==> #[trigger] final(self).page(i) == old(
                self,
            ).page(i),
            !final(self).used(ppn.0 as int),
            forall|i: int|
                0 <= i < old(self).len() && i != ppn.0 ==> #[trigger] final(self).used(i) == old(
                    self,
                ).used(i),
    {
        let p = self.slot(ppn);
        self.in_use.set(p, false);
    }

    /// The index of frame `ppn` in the arena.
    fn slot(&self, ppn: PhysPageNum) -> (r: usize)
        requires
            ppn.0 < self.len(),
        ensures
            r == ppn.0,
    {
        let n = self.frames.len();
        proof {
            assert(ppn.0 < n);
        }
        ppn.0 as usize
    }

    /// Whether frame `ppn` is handed out.
    pub fn is_used(&self, ppn: PhysPageNum) -> (r: bool)
        requires
            self.wf(),
            ppn.0 < self.len(),
        ensures
            r == self.used(ppn.0 as int),
    {
        let p = self.slot(ppn);
        self.in_use[p]
    }

    /// Byte `off` of frame `ppn`.
    pub fn read_byte(&self, ppn: PhysPageNum, off: usize) -> (r: u8)
        requires
            self.wf(),
            ppn.0 < self.len(),
            off < PAGE_SIZE,
        ensures
            r == self.page(ppn.0 as int)[off as int],
    {
        let p = self.slot(ppn);
        self.frames[p][off]
    }

    /// Stores `b` at byte `off` of frame `ppn`; no other byte changes.
    pub fn write_byte(&mut self, ppn: PhysPageNum, off: usize, b: u8)
        requires
            old(self).wf(),
            ppn.0 < old(self).len(),
            off < PAGE_SIZE,
        ensures
            final(self).wf(),
            final(self).len() == old(self).len(),
            final(self).page(ppn.0 as int) == old(self).page(ppn.0 as int).update(off as int, b),
            forall|i: int|
                0 <= i < old(self).len() && i != ppn.0 ==> #[trigger] final(self).page(i) == old(
                    self,
                ).page(i),
            forall|i: int| 0 <= i < old(self).len() ==> final(self).used(i) == old(self).used(i),
    {
        let p = self.slot(ppn);
        let mut f = self.frames[p].clone();
        proof {
            assert(f@ =~= old(self).frames@[p as int]@);
        }
        f.set(off, b);
        self.frames.set(p, f);
        proof {
            assert forall|i: int| 0 <= i < self.frames@.len() implies (
            #[trigger] self.frames@[i])@.len() == PAGE_SIZE by {
                if i != p {
                    assert(self.frames@[i] == old(self).frames@[i]);
                }
            }
        }
    }

    /// Makes frame `dst` a byte-for-byte copy of frame `src`.
    pub fn copy_page(&mut self, src: PhysPageNum, dst: PhysPageNum)
        requires
            old(self).wf(),
            src.0 < old(self).len(),
            dst.0 < old(self).len(),
        ensures
            final(self).wf(),
            final(self).len() == old(self).len(),
            final(self).page(dst.0 as int) == old(self).page(src.0 as int),
            forall|i: int|
                0 <= i < old(self).len() && i != dst.0 ==> #[trigger] final(self).page(i) == old(
                    self,
                ).page(i),
            forall|i: int| 0 <= i < old(self).len() ==> final(self).used(i) == old(self).used(i),
    {
        let s = self.slot(src);
        let d = self.slot(dst);
        let f = self.frames[s].clone();
        proof {
            assert(f@ =~= old(self).frames@[src.0 as int]@);
        }
        self.frames.set(d, f);
        proof {
            assert forall|i: int| 0 <= i < self.frames@.len() implies (
            #[trigger] self.frames@[i])@.len() == PAGE_SIZE by {
                if i != dst.0 {
                    assert(self.frames@[i] == old(self).frames@[i]);
                }
            }
        }
    }
}

/// A page of zero bytes.
fn zero_page() -> (r: Vec<u8>)
    ensures
        r@ == Seq::new(PAGE_SIZE as nat, |j: int| 0u8),
{
    let mut v: Vec<u8> = Vec::new();
    let mut i: usize = 0;
    while i < FRAME_BYTES
        invariant
            i <= FRAME_BYTES,
            v@ == Seq::new(i as nat, |j: int| 0u8),
        decreases FRAME_BYTES - i,
    {
        v.push(0u8);
        i = i + 1;
        proof {
            assert(v@ =~= Seq::new(i as nat, |j: int| 0u8));
        }
    }
    v
}

} // verus!
