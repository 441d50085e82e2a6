//! Page-table entries and the page table of one address space.
use vstd::prelude::*;
use crate::address::{level_index, PhysPageNum, VirtPageNum, PPN_SPAN};

verus! {

/// Entry is valid.
pub const PTE_V: u8 = 1;

/// Page may be read.
pub const PTE_R: u8 = 2;

/// Page may be written.
pub const PTE_W: u8 = 4;

/// Page may be executed.
pub const PTE_X: u8 = 8;

/// Page is reachable from user mode.
pub const PTE_U: u8 = 16;

/// Translation mode tag of SV39 in the `satp` register (`8 << 60`).
pub const SATP_SV39: u64 = 0x8000_0000_0000_0000;

/// A page-table entry: a physical page number (bits 10..54) and flags (bits 0..8).
#[derive(Copy, Clone, Debug, PartialEq, Eq, Structural)]
pub struct PageTableEntry {
    pub bits: u64,
}

impl PageTableEntry {
    /// The physical page number that the entry holds.
    pub open spec fn spec_ppn(self) -> u64 {
        ((self.bits / 1024) % PPN_SPAN) as u64
    }

    /// The flag byte of the entry.
    pub open spec fn spec_flags(self) -> u8 {
        (self.bits % 256) as u8
    }

    /// The entry for page `ppn` with `flags`.
    pub fn new(ppn: PhysPageNum, flags: u8) -> (r: Self)
        requires
            ppn.0 < PPN_SPAN,
        ensures
            r.bits == ppn.0 * 1024 + flags,
            r.spec_ppn() == ppn.0,
            r.spec_flags() == flags,
    {
        let p = ppn.0;
        let f = flags as u64;
        proof {
            assert(p * 1024 + f < 0x40_0000_0000_0000) by (nonlinear_arith)
                requires p < 0x1000_0000_0000, f < 256;
            assert((p * 1024 + f) / 1024 == p) by (nonlinear_arith)
                requires f < 256;
            assert((p * 1024 + f) % 256 == f) by (nonlinear_arith)
                requires f < 256;
        }
        PageTableEntry { bits: p * 1024 + f }
    }

    /// The empty (invalid) entry.
    pub fn empty() -> (r: Self)
        ensures
            r.bits == 0,
    {
        PageTableEntry { bits: 0 }
    }

    /// The physical page number that the entry holds.
    pub fn ppn(&self) -> (r: PhysPageNum)
        ensures
            r.0 == self.spec_ppn(),
    {
        PhysPageNum((self.bits / 1024) % PPN_SPAN)
    }

    /// The flag byte of the entry.
    pub fn flags(&self) -> (r: u8)
        ensures
            r == self.spec_flags(),
    {
        (self.bits % 256) as u8
    }

    /// Whether the entry maps a page.
    pub fn is_valid(&self) -> (r: bool)
        ensures
            r == (self.spec_flags() % 2 == 1),
    {
        self.flags() % 2 == 1
    }

    /// Whether the page may be read.
    pub fn readable(&self) -> (r: bool)
        ensures
            r == ((self.spec_flags() / 2) % 2 == 1),
    {
        (self.flags() / 2) % 2 == 1
    }

    /// Whether the page may be written.
    pub fn writable(&self) -> (r: bool)
        ensures
            r == ((self.spec_flags() / 4) % 2 == 1),
    {
        (self.flags() / 4) % 2 == 1
    }

    /// Whether the page may be executed.
    pub fn executable(&self) -> (r: bool)
        ensures
            r == ((self.spec_flags() / 8) % 2 == 1),
    {
        (self.flags() / 8) % 2 == 1
    }

    /// Whether the page is reachable from user mode.
    pub fn user_accessible(&self) -> (r: bool)
        ensures
            r == ((self.spec_flags() / 16) % 2 == 1),
    {
        (self.flags() / 16) % 2 == 1
    }
}

/// Number of virtual page numbers: `2^27`.
pub const VPN_SPAN: u64 = 0x800_0000;

/// Entries in one table of the tree.
pub const TABLE_LEN: usize = 512;

/// Whether `v` and `w` agree on the three page-table indexes.
pub open spec fn same_path(v: u64, w: u64) -> bool {
    &&& level_index(v, 2) == level_index(w, 2)
    &&& level_index(v, 1) == level_index(w, 1)
    &&& level_index(v, 0) == level_index(w, 0)
}

/// The three indexes determine a page number below `2^27`.
pub proof fn lemma_indexes_determine(v: u64, w: u64)
    requires
        v < VPN_SPAN,
        w < VPN_SPAN,
        same_path(v, w),
    ensures
        v == w,
{
    assert forall|x: u64| x < VPN_SPAN implies x as int == 262144 * level_index(x, 2) + 512
        * level_index(x, 1) + level_index(x, 0) by {
        let a = x as int;
        vstd::arithmetic::div_mod::lemma_fundamental_div_mod(a, 512);
        vstd::arithmetic::div_mod::lemma_fundamental_div_mod(a / 512, 512);
        vstd::arithmetic::div_mod::lemma_div_denominator(a, 512, 512);
        assert(a / 262144 < 512) by {
            vstd::arithmetic::div_mod::lemma_div_is_ordered(a, 0x7ff_ffff, 262144);
        }
        vstd::arithmetic::div_mod::lemma_small_mod((a / 262144) as nat, 512);
    }
}

/// The mappings of one address space, from virtual page number to entry,
/// under a root page whose number identifies the space to the hardware.
///
/// Entries live in a three-level tree walked by the page-table indexes: the
/// root table points to middle tables, middle tables point to leaf tables,
/// and a valid entry of a leaf table maps the page. Tables are never shared
/// between two slots. The mapped page numbers are also listed in the order
/// they were mapped.
pub struct PageTable {
    root_ppn: PhysPageNum,
    root_dir: Vec<Option<usize>>,
    mids: Vec<Vec<Option<usize>>>,
    lows: Vec<Vec<PageTableEntry>>,
    leaves: Vec<(VirtPageNum, PageTableEntry)>,
    mapping: Ghost<Map<u64, PageTableEntry>>,
}

impl PageTable {
    /// What the table maps: virtual page number to entry.
    pub closed spec fn view(&self) -> Map<u64, PageTableEntry> {
        self.mapping@
    }

    /// The root page.
    pub closed spec fn root(&self) -> PhysPageNum {
        self.root_ppn
    }

    /// The entry that walking the tree for `v` ends at, if it is valid.
    pub closed spec fn walk(&self, v: u64) -> Option<PageTableEntry> {
        match self.root_dir@[level_index(v, 2) as int] {
            None => None,
            Some(m) => match self.mids@[m as int]@[level_index(v, 1) as int] {
                None => None,
                Some(l) => {
                    let e = self.lows@[l as int]@[level_index(v, 0) as int];
                    if e.bits % 2 == 1 {
                        Some(e)
                    } else {
                        None
                    }
                },
            },
        }
    }

    /// Tables have 512 slots, every pointer leads to a table that exists,
    /// and no table hangs under two slots.
    pub closed spec fn tree_wf(&self) -> bool {
        &&& self.root_dir@.len() == TABLE_LEN
        &&& forall|m: int| 0 <= m < self.mids@.len() ==> (#[trigger] self.mids@[m])@.len() == TABLE_LEN
        &&& forall|l: int| 0 <= l < self.lows@.len() ==> (#[trigger] self.lows@[l])@.len() == TABLE_LEN
        &&& forall|i: int|
            0 <= i < TABLE_LEN && (#[trigger] self.root_dir@[i]).is_some() ==> self.root_dir@[i].unwrap()
                < self.mids@.len()
        &&& forall|m: int, j: int|
            0 <= m < self.mids@.len() && 0 <= j < TABLE_LEN && (#[trigger] self.mids@[m]@[j]).is_some()
                ==> self.mids@[m]@[j].unwrap() < self.lows@.len()
        &&& forall|i: int, k: int|
            #![trigger self.root_dir@[i], self.root_dir@[k]]
            0 <= i < TABLE_LEN && 0 <= k < TABLE_LEN && i != k && self.root_dir@[i].is_some()
                && self.root_dir@[k].is_some() ==> self.root_dir@[i] != self.root_dir@[k]
        &&& forall|m: int, j: int, n: int, k: int|
            #![trigger self.mids@[m]@[j], self.mids@[n]@[k]]
            0 <= m < self.mids@.len() && 0 <= n < self.mids@.len() && 0 <= j < TABLE_LEN && 0 <= k
                < TABLE_LEN && (m != n || j != k) && self.mids@[m]@[j].is_some()
                && self.mids@[n]@[k].is_some() ==> self.mids@[m]@[j] != self.mids@[n]@[k]
    }

    /// The tree is sound, walking it gives exactly the mapping, and the
    /// listed pages are exactly the mapped ones, each once.
    pub closed spec fn wf(&self) -> bool {
        &&& self.root_ppn.0 < PPN_SPAN
        &&& self.tree_wf()
        &&& forall|k: u64|
            #[trigger] self.mapping@.contains_key(k) ==> k < VPN_SPAN && self.mapping@[k].bits % 2 == 1
        &&& forall|v: u64|
            v < VPN_SPAN ==> #[trigger] self.walk(v) == (if self.mapping@.contains_key(v) {
                Some(self.mapping@[v])
            } else {
                None
            })
        &&& forall|i: int, j: int|
            0 <= i < j < self.leaves@.len() ==> (#[trigger] self.leaves@[i]).0 != (
            #[trigger] self.leaves@[j]).0
        &&& forall|i: int|
            0 <= i < self.leaves@.len() ==> self.mapping@.contains_key(
                (#[trigger] self.leaves@[i]).0.0,
            ) && self.mapping@[self.leaves@[i].0.0] == self.leaves@[i].1
        &&& forall|k: u64|
            #[trigger] self.mapping@.contains_key(k) ==> exists|i: int|
                0 <= i < self.leaves@.len() && (#[trigger] self.leaves@[i]).0.0 == k
    }

    /// Every mapped page number is below `2^27` and its entry is valid.
    pub proof fn lemma_mapped_valid(&self, k: u64)
        requires
            self.wf(),
            self@.contains_key(k),
        ensures
            k < VPN_SPAN,
            self@[k].spec_flags() % 2 == 1,
    {
    }

    /// A table with no mappings under root page `root`.
    pub fn new(root: PhysPageNum) -> (r: Self)
        requires
            root.0 < PPN_SPAN,
        ensures
            r.wf(),
            r@ == Map::<u64, PageTableEntry>::empty(),
            r.root() == root,
    {
        let root_dir = empty_dir();
        PageTable {
            root_ppn: root,
            root_dir,
            mids: Vec::new(),
            lows: Vec::new(),
            leaves: Vec::new(),
            mapping: Ghost(Map::empty()),
        }
    }

    /// The entry that maps `vpn`, if any, found by walking the three levels.
    pub fn translate(&self, vpn: VirtPageNum) -> (r: Option<PageTableEntry>)
        requires
            self.wf(),
        ensures
            r == (if self@.contains_key(vpn.0) {
                Some(self@[vpn.0])
            } else {
                None
            }),
    {
        if vpn.0 >= VPN_SPAN {
            return None;
        }
        let idx = vpn.indexes();
        proof {
            assert(self.walk(vpn.0) == (if self@.contains_key(vpn.0) {
                Some(self@[vpn.0])
            } else {
                None
            }));
        }
        match self.root_dir[idx[0]] {
            None => None,
            Some(m) => match self.mids[m][idx[1]] {
                None => None,
                Some(l) => {
                    let e = self.lows[l][idx[2]];
                    if e.bits % 2 == 1 {
                        Some(e)
                    } else {
                        None
                    }
                },
            },
        }
    }

    /// Maps `vpn` to the valid entry `pte`; `vpn` must not be mapped yet.
    /// Missing middle and leaf tables are created on the way down.
    pub fn map(&mut self, vpn: VirtPageNum, pte: PageTableEntry)
        requires
            old(self).wf(),
            !old(self)@.contains_key(vpn.0),
            vpn.0 < VPN_SPAN,
            pte.spec_flags() % 2 == 1,
        ensures
            final(self).wf(),
            final(self)@ == old(self)@.insert(vpn.0, pte),
            final(self).root() == old(self).root(),
    {
        let idx = vpn.indexes();
        let i2 = idx[0];
        let i1 = idx[1];
        let i0 = idx[2];
        let ghost s0 = *self;
        // Root slot: find or create the middle table.
        let m = match self.root_dir[i2] {
            Some(m) => m,
            None => {
                let m = self.mids.len();
                let dir = empty_dir();
                self.mids.push(dir);
                self.root_dir.set(i2, Some(m));
                proof {
                    self.lemma_new_mid(s0, vpn.0, m);
                }
                m
            },
        };
        let ghost s1 = *self;
        // Middle slot: find or create the leaf table.
        let l = match self.mids[m][i1] {
            Some(l) => l,
            None => {
                let l = self.lows.len();
                let table = empty_leaf_table();
                self.lows.push(table);
                let mut row = self.mids[m].clone();
                proof {
                    assert(row@ =~= s1.mids@[m as int]@);
                }
                row.set(i1, Some(l));
                self.mids.set(m, row);
                proof {
                    self.lemma_new_low(s1, vpn.0, m, l);
                }
                l
            },
        };
        let ghost s2 = *self;
        let mut row = self.lows[l].clone();
        proof {
            assert(row@ =~= s2.lows@[l as int]@);
        }
        row.set(i0, pte);
        self.lows.set(l, row);
        self.leaves.push((vpn, pte));
        self.mapping = Ghost(s0.mapping@.insert(vpn.0, pte));
        proof {
            self.lemma_set_leaf(s2, s0, vpn.0, m, l, pte);
        }
    }

    proof fn lemma_new_mid(&self, s0: PageTable, v: u64, m: usize)
        requires
            s0.wf(),
            v < VPN_SPAN,
            s0.root_dir@[level_index(v, 2) as int].is_none(),
            m == s0.mids@.len(),
            self.mids@ == s0.mids@.push(self.mids@[m as int]),
            self.mids@[m as int]@ == Seq::new(TABLE_LEN as nat, |j: int| None::<usize>),
            self.root_dir@ == s0.root_dir@.update(level_index(v, 2) as int, Some(m)),
            self.lows@ == s0.lows@,
        ensures
            self.tree_wf(),
            forall|w: u64| w < VPN_SPAN ==> #[trigger] self.walk(w) == s0.walk(w),
    {
        let i2 = level_index(v, 2) as int;
        assert forall|m2: int| 0 <= m2 < self.mids@.len() implies (#[trigger] self.mids@[m2])@.len()
            == TABLE_LEN by {
            if m2 < m {
                assert(self.mids@[m2] == s0.mids@[m2]);
            }
        }
        assert forall|m2: int, j: int|
            0 <= m2 < self.mids@.len() && 0 <= j < TABLE_LEN && (#[trigger] self.mids@[m2]@[j]).is_some()
                implies self.mids@[m2]@[j].unwrap() < self.lows@.len() by {
            if m2 < m {
                assert(self.mids@[m2] == s0.mids@[m2]);
            }
        }
        assert forall|i: int, k: int|
            #![trigger self.root_dir@[i], self.root_dir@[k]]
            0 <= i < TABLE_LEN && 0 <= k < TABLE_LEN && i != k && self.root_dir@[i].is_some()
                && self.root_dir@[k].is_some() implies self.root_dir@[i] != self.root_dir@[k] by {
            if i != i2 && k != i2 {
                assert(s0.root_dir@[i] != s0.root_dir@[k]);
            } else if i == i2 {
                assert(s0.root_dir@[k].unwrap() < s0.mids@.len());
            } else {
                assert(s0.root_dir@[i].unwrap() < s0.mids@.len());
            }
        }
        assert forall|m2: int, j: int, n: int, k: int|
            #![trigger self.mids@[m2]@[j], self.mids@[n]@[k]]
            0 <= m2 < self.mids@.len() && 0 <= n < self.mids@.len() && 0 <= j < TABLE_LEN && 0 <= k
                < TABLE_LEN && (m2 != n || j != k) && self.mids@[m2]@[j].is_some()
                && self.mids@[n]@[k].is_some() implies self.mids@[m2]@[j] != self.mids@[n]@[k] by {
            assert(m2 != m && n != m);
            assert(self.mids@[m2] == s0.mids@[m2]);
            assert(self.mids@[n] == s0.mids@[n]);
            assert(s0.mids@[m2]@[j] != s0.mids@[n]@[k]);
        }
        assert forall|w: u64| w < VPN_SPAN implies #[trigger] self.walk(w) == s0.walk(w) by {
            let w2 = level_index(w, 2) as int;
            if w2 != i2 {
                if let Some(m2) = s0.root_dir@[w2] {
                    assert(self.mids@[m2 as int] == s0.mids@[m2 as int]);
                }
            }
        }
    }

    proof fn lemma_new_low(&self, s1: PageTable, v: u64, m: usize, l: usize)
        requires
            s1.tree_wf(),
            v < VPN_SPAN,
            s1.root_dir@[level_index(v, 2) as int] == Some(m),
            s1.mids@[m as int]@[level_index(v, 1) as int].is_none(),
            l == s1.lows@.len(),
            self.lows@ == s1.lows@.push(self.lows@[l as int]),
            self.lows@[l as int]@ == Seq::new(TABLE_LEN as nat, |j: int| PageTableEntry { bits: 0 }),
            self.mids@.len() == s1.mids@.len(),
            self.mids@[m as int]@ == s1.mids@[m as int]@.update(level_index(v, 1) as int, Some(l)),
            forall|n: int| 0 <= n < s1.mids@.len() && n != m ==> self.mids@[n] == s1.mids@[n],
            self.root_dir@ == s1.root_dir@,
        ensures
            self.tree_wf(),
            forall|w: u64| w < VPN_SPAN ==> #[trigger] self.walk(w) == s1.walk(w),
    {
        let i2 = level_index(v, 2) as int;
        let i1 = level_index(v, 1) as int;
        assert(m < s1.mids@.len());
        assert forall|m2: int| 0 <= m2 < self.mids@.len() implies (#[trigger] self.mids@[m2])@.len()
            == TABLE_LEN by {
            if m2 != m {
                assert(self.mids@[m2] == s1.mids@[m2]);
            }
        }
        assert forall|l2: int| 0 <= l2 < self.lows@.len() implies (#[trigger] self.lows@[l2])@.len()
            == TABLE_LEN by {
            if l2 < l {
                assert(self.lows@[l2] == s1.lows@[l2]);
            }
        }
        assert forall|m2: int, j: int|
            0 <= m2 < self.mids@.len() && 0 <= j < TABLE_LEN && (#[trigger] self.mids@[m2]@[j]).is_some()
                implies self.mids@[m2]@[j].unwrap() < self.lows@.len() by {
            if m2 != m {
                assert(self.mids@[m2] == s1.mids@[m2]);
            } else if j != i1 {
                assert(self.mids@[m2]@[j] == s1.mids@[m2]@[j]);
            }
        }
        assert forall|m2: int, j: int, n: int, k: int|
            #![trigger self.mids@[m2]@[j], self.mids@[n]@[k]]
            0 <= m2 < self.mids@.len() && 0 <= n < self.mids@.len() && 0 <= j < TABLE_LEN && 0 <= k
                < TABLE_LEN && (m2 != n || j != k) && self.mids@[m2]@[j].is_some()
                && self.mids@[n]@[k].is_some() implies self.mids@[m2]@[j] != self.mids@[n]@[k] by {
            let a_new = m2 == m && j == i1;
            let b_new = n == m && k == i1;
            if !a_new {
                if m2 != m {
                    assert(self.mids@[m2] == s1.mids@[m2]);
                }
                assert(self.mids@[m2]@[j] == s1.mids@[m2]@[j]);
            }
            if !b_new {
                if n != m {
                    assert(self.mids@[n] == s1.mids@[n]);
                }
                assert(self.mids@[n]@[k] == s1.mids@[n]@[k]);
            }
            if !a_new && !b_new {
                assert(s1.mids@[m2]@[j] != s1.mids@[n]@[k]);
            } else if a_new {
                assert(s1.mids@[n]@[k].unwrap() < s1.lows@.len());
            } else {
                assert(s1.mids@[m2]@[j].unwrap() < s1.lows@.len());
            }
        }
        assert forall|w: u64| w < VPN_SPAN implies #[trigger] self.walk(w) == s1.walk(w) by {
            let w2 = level_index(w, 2) as int;
            let w1 = level_index(w, 1) as int;
            if let Some(m2) = s1.root_dir@[w2] {
                if m2 != m {
                    assert(self.mids@[m2 as int] == s1.mids@[m2 as int]);
                }
                if !(m2 == m && w1 == i1) {
                    assert(self.mids@[m2 as int]@[w1] == s1.mids@[m2 as int]@[w1]);
                    if let Some(l2) = s1.mids@[m2 as int]@[w1] {
                        assert(self.lows@[l2 as int] == s1.lows@[l2 as int]);
                    }
                }
            }
        }
    }

    proof fn lemma_set_leaf(&self, s2: PageTable, s0: PageTable, v: u64, m: usize, l: usize, pte: PageTableEntry)
        requires
            s0.wf(),
            s2.tree_wf(),
            forall|w: u64| w < VPN_SPAN ==> #[trigger] s2.walk(w) == s0.walk(w),
            v < VPN_SPAN,
            !s0.mapping@.contains_key(v),
            pte.bits % 2 == 1,
            s2.root_dir@[level_index(v, 2) as int] == Some(m),
            s2.mids@[m as int]@[level_index(v, 1) as int] == Some(l),
            self.root_dir@ == s2.root_dir@,
            self.mids@ == s2.mids@,
            self.lows@.len() == s2.lows@.len(),
            self.lows@[l as int]@ == s2.lows@[l as int]@.update(level_index(v, 0) as int, pte),
            forall|n: int| 0 <= n < s2.lows@.len() && n != l ==> self.lows@[n] == s2.lows@[n],
            self.leaves@ == s0.leaves@.push((VirtPageNum(v), pte)),
            self.mapping@ == s0.mapping@.insert(v, pte),
            self.root_ppn == s0.root_ppn,
        ensures
            self.wf(),
    {
        let i2 = level_index(v, 2) as int;
        let i1 = level_index(v, 1) as int;
        let i0 = level_index(v, 0) as int;
        assert(m < s2.mids@.len());
        assert(l < s2.lows@.len());
        assert forall|l2: int| 0 <= l2 < self.lows@.len() implies (#[trigger] self.lows@[l2])@.len()
            == TABLE_LEN by {
            if l2 != l {
                assert(self.lows@[l2] == s2.lows@[l2]);
            }
        }
        assert(self.tree_wf());
        assert forall|w: u64| w < VPN_SPAN implies #[trigger] self.walk(w) == (if self.mapping@.contains_key(
            w,
        ) {
            Some(self.mapping@[w])
        } else {
            None
        }) by {
            if w == v {
                assert(self.lows@[l as int]@[i0] == pte);
            } else {
                assert(!same_path(w, v)) by {
                    if same_path(w, v) {
                        lemma_indexes_determine(w, v);
                    }
                }
                assert(s2.walk(w) == s0.walk(w));
                let w2 = level_index(w, 2) as int;
                let w1 = level_index(w, 1) as int;
                if let Some(m2) = s2.root_dir@[w2] {
                    if let Some(l2) = s2.mids@[m2 as int]@[w1] {
                        if l2 == l {
                            assert(m2 == m && w1 == i1) by {
                                if m2 != m || w1 != i1 {
                                    assert(s2.mids@[m2 as int]@[w1] != s2.mids@[m as int]@[i1]);
                                }
                            }
                            assert(w2 == i2) by {
                                if w2 != i2 {
                                    assert(s2.root_dir@[w2] != s2.root_dir@[i2]);
                                }
                            }
                            assert(self.lows@[l as int]@[level_index(w, 0) as int] == s2.lows@[l as int]@[level_index(w, 0) as int]);
                        } else {
                            assert(self.lows@[l2 as int] == s2.lows@[l2 as int]);
                        }
                    }
                }
            }
        }
        let n = self.leaves@.len() - 1;
        assert(self.leaves@[n] == (VirtPageNum(v), pte));
        assert forall|k: u64| #[trigger] self.mapping@.contains_key(k) implies exists|i: int|
            0 <= i < self.leaves@.len() && (#[trigger] self.leaves@[i]).0.0 == k by {
            if k == v {
                assert(self.leaves@[n].0.0 == k);
            } else {
                assert(s0.mapping@.contains_key(k));
                let i = choose|i: int|
                    0 <= i < s0.leaves@.len() && (#[trigger] s0.leaves@[i]).0.0 == k;
                assert(self.leaves@[i] == s0.leaves@[i]);
            }
        }
        assert forall|i: int, j: int|
            0 <= i < j < self.leaves@.len() implies (#[trigger] self.leaves@[i]).0 != (
        #[trigger] self.leaves@[j]).0 by {
            if j == n {
                assert(s0.mapping@.contains_key(self.leaves@[i].0.0));
            } else {
                assert(self.leaves@[i] == s0.leaves@[i]);
                assert(self.leaves@[j] == s0.leaves@[j]);
            }
        }
        assert forall|i: int| 0 <= i < self.leaves@.len() implies self.mapping@.contains_key(
            (#[trigger] self.leaves@[i]).0.0,
        ) && self.mapping@[self.leaves@[i].0.0] == self.leaves@[i].1 by {
            if i < n {
                assert(self.leaves@[i] == s0.leaves@[i]);
                assert(s0.mapping@.contains_key(s0.leaves@[i].0.0));
            }
        }
    }

    /// Number of mapped pages.
    pub fn len(&self) -> (r: usize)
        requires
            self.wf(),
        ensures
            r == self.leaves_view().len(),
    {
        self.leaves.len()
    }

    /// The mapped pages in the order they were mapped.
    pub closed spec fn leaves_view(&self) -> Seq<(VirtPageNum, PageTableEntry)> {
        self.leaves@
    }

    /// The `i`-th mapped page.
    pub fn leaf(&self, i: usize) -> (r: (VirtPageNum, PageTableEntry))
        requires
            self.wf(),
            i < self.leaves_view().len(),
        ensures
            r == self.leaves_view()[i as int],
            self@.contains_key(r.0.0),
            self@[r.0.0] == r.1,
    {
        self.leaves[i]
    }

    /// Every mapped page number is listed once among the leaves.
    pub proof fn lemma_leaves_cover(&self, k: u64)
        requires
            self.wf(),
            self@.contains_key(k),
        ensures
            exists|i: int|
                0 <= i < self.leaves_view().len() && (#[trigger] self.leaves_view()[i]).0.0 == k,
    {
        let i = choose|i: int| 0 <= i < self.leaves@.len() && (#[trigger] self.leaves@[i]).0.0 == k;
        assert(self.leaves_view()[i].0.0 == k);
    }

    /// Leaves name distinct pages.
    pub proof fn lemma_leaves_distinct(&self, i: int, j: int)
        requires
            self.wf(),
            0 <= i < self.leaves_view().len(),
            0 <= j < self.leaves_view().len(),
            i != j,
        ensures
            self.leaves_view()[i].0 != self.leaves_view()[j].0,
    {
        if i > j {
            assert(self.leaves@[j].0 != self.leaves@[i].0);
        }
    }

    /// The value for the `satp` register: SV39 mode and the root page.
    pub fn token(&self) -> (r: u64)
        requires
            self.wf(),
        ensures
            r == SATP_SV39 + self.root().0,
    {
        SATP_SV39 + self.root_ppn.0
    }
}

/// A table of 512 empty slots.
fn empty_dir() -> (r: Vec<Option<usize>>)
    ensures
        r@ == Seq::new(TABLE_LEN as nat, |j: int| None::<usize>),
{
    let mut v: Vec<Option<usize>> = Vec::new();
    let mut i: usize = 0;
    while i < TABLE_LEN
        invariant
            i <= TABLE_LEN,
            v@ == Seq::new(i as nat, |j: int| None::<usize>),
        decreases TABLE_LEN - i,
    {
        v.push(None);
        i = i + 1;
        proof {
            assert(v@ =~= Seq::new(i as nat, |j: int| None::<usize>));
        }
    }
    v
}

/// A leaf table of 512 invalid entries.
fn empty_leaf_table() -> (r: Vec<PageTableEntry>)
    ensures
        r@ == Seq::new(TABLE_LEN as nat, |j: int| PageTableEntry { bits: 0 }),
{
    let mut v: Vec<PageTableEntry> = Vec::new();
    let mut i: usize = 0;
    while i < TABLE_LEN
        invariant
            i <= TABLE_LEN,
            v@ == Seq::new(i as nat, |j: int| PageTableEntry { bits: 0 }),
        decreases TABLE_LEN - i,
    {
        v.push(PageTableEntry::empty());
        i = i + 1;
        proof {
            assert(v@ =~= Seq::new(i as nat, |j: int| PageTableEntry { bits: 0 }));
        }
    }
    v
}

} // verus!
