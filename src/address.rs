//! Physical and virtual addresses, page numbers and ranges of page numbers.
//!
//! A physical address keeps the low 56 bits of an integer, a virtual address
//! the low 39 bits. Page numbers are addresses shifted right by the width of
//! the page offset.
use vstd::prelude::*;
use crate::config::{PAGE_SIZE, PAGE_SIZE_BITS};

verus! {

/// Significant bits of a physical address.
pub const PA_WIDTH_SV39: u64 = 56;

/// Significant bits of a virtual address.
pub const VA_WIDTH_SV39: u64 = 39;

/// Significant bits of a physical page number.
pub const PPN_WIDTH_SV39: u64 = 44;

/// Significant bits of a virtual page number.
pub const VPN_WIDTH_SV39: u64 = 27;

/// Number of distinct physical addresses: `2^56`.
pub const PA_SPAN: u64 = 0x100_0000_0000_0000;

/// Number of distinct virtual addresses: `2^39`.
pub const VA_SPAN: u64 = 0x80_0000_0000;

/// Number of distinct physical page numbers: `2^44`.
pub const PPN_SPAN: u64 = 0x1000_0000_0000;

/// Addresses at or above this one have bit 38 set: `2^38`.
pub const VA_HALF: u64 = 0x40_0000_0000;

/// The bits above the virtual-address width, all set.
pub const VA_HIGH_BITS: u64 = 0xffff_ff80_0000_0000;

/// A physical address (56 bits).
#[derive(Copy, Clone, Debug, PartialEq, Eq, Structural)]
pub struct PhysAddr(pub u64);

/// A virtual address (39 bits).
#[derive(Copy, Clone, Debug, PartialEq, Eq, Structural)]
pub struct VirtAddr(pub u64);

/// A physical page number (44 bits).
#[derive(Copy, Clone, Debug, PartialEq, Eq, Structural)]
pub struct PhysPageNum(pub u64);

/// A virtual page number: three 9-bit page-table indexes (27 bits).
#[derive(Copy, Clone, Debug, PartialEq, Eq, Structural)]
pub struct VirtPageNum(pub u64);

/// A 64-bit value is canonical when its bits 63 down to 38 are all equal.
pub open spec fn canonical(x: u64) -> bool {
    x < VA_HALF || x >= VA_HIGH_BITS + VA_HALF
}

/// The flat integer that a virtual address stands for: the 39-bit value,
/// with bit 38 copied into all higher bits.
pub open spec fn sign_extend(v: u64) -> u64 {
    if v >= VA_HALF {
        v | VA_HIGH_BITS
    } else {
        v
    }
}

/// The virtual address that an integer converts to: its low 39 bits.
pub open spec fn virt_addr_of(a: u64) -> VirtAddr {
    VirtAddr((a % VA_SPAN) as u64)
}

/// The flat integer that a virtual address converts back to.
pub open spec fn flat_of(v: VirtAddr) -> u64 {
    sign_extend(v.0)
}

/// Page number of the page that holds byte `a`.
pub open spec fn page_floor(a: u64) -> int {
    a as int / PAGE_SIZE as int
}

/// Page number of the first page that starts at or after byte `a`.
pub open spec fn page_ceil(a: u64) -> int {
    (a as int + PAGE_SIZE as int - 1) / PAGE_SIZE as int
}

impl From<u64> for PhysAddr {
    /// Keeps the low 56 bits.
    fn from(a: u64) -> (r: Self) {
        proof {
            assert(a & 0xff_ffff_ffff_ffffu64 == a % 0x100_0000_0000_0000u64) by (bit_vector);
        }
        PhysAddr(a & (PA_SPAN - 1))
    }
}

impl vstd::std_specs::convert::FromSpecImpl<u64> for PhysAddr {
    open spec fn obeys_from_spec() -> bool {
        true
    }

    open spec fn from_spec(a: u64) -> PhysAddr {
        PhysAddr((a % PA_SPAN) as u64)
    }
}

impl From<u64> for PhysPageNum {
    /// Keeps the low 56 bits of the address and drops the page offset.
    fn from(a: u64) -> (r: Self) {
        proof {
            assert(a & 0xff_ffff_ffff_ffffu64 == a % 0x100_0000_0000_0000u64) by (bit_vector);
            assert((a % 0x100_0000_0000_0000u64) >> 12u64 == (a % 0x100_0000_0000_0000u64) / 4096u64) by (bit_vector);
        }
        PhysPageNum((a & (PA_SPAN - 1)) >> PAGE_SIZE_BITS)
    }
}

impl vstd::std_specs::convert::FromSpecImpl<u64> for PhysPageNum {
    open spec fn obeys_from_spec() -> bool {
        true
    }

    open spec fn from_spec(a: u64) -> PhysPageNum {
        PhysPageNum(((a % PA_SPAN) / PAGE_SIZE) as u64)
    }
}

impl From<u64> for VirtAddr {
    /// Keeps the low 39 bits.
    fn from(a: u64) -> (r: Self) {
        proof {
            assert(a & 0x7f_ffff_ffffu64 == a % 0x80_0000_0000u64) by (bit_vector);
        }
        VirtAddr(a & (VA_SPAN - 1))
    }
}

impl vstd::std_specs::convert::FromSpecImpl<u64> for VirtAddr {
    open spec fn obeys_from_spec() -> bool {
        true
    }

    open spec fn from_spec(a: u64) -> VirtAddr {
        virt_addr_of(a)
    }
}

impl From<u64> for VirtPageNum {
    /// Keeps the low 39 bits of the address and drops the page offset.
    fn from(a: u64) -> (r: Self) {
        proof {
            assert(a & 0x7f_ffff_ffffu64 == a % 0x80_0000_0000u64) by (bit_vector);
            assert((a % 0x80_0000_0000u64) >> 12u64 == (a % 0x80_0000_0000u64) / 4096u64) by (bit_vector);
        }
        VirtPageNum((a & (VA_SPAN - 1)) >> PAGE_SIZE_BITS)
    }
}

impl vstd::std_specs::convert::FromSpecImpl<u64> for VirtPageNum {
    open spec fn obeys_from_spec() -> bool {
        true
    }

    open spec fn from_spec(a: u64) -> VirtPageNum {
        VirtPageNum(((a % VA_SPAN) / PAGE_SIZE) as u64)
    }
}

impl From<PhysAddr> for u64 {
    fn from(v: PhysAddr) -> (r: u64) {
        v.0
    }
}

impl vstd::std_specs::convert::FromSpecImpl<PhysAddr> for u64 {
    open spec fn obeys_from_spec() -> bool {
        true
    }

    open spec fn from_spec(v: PhysAddr) -> u64 {
        v.0
    }
}

impl From<PhysPageNum> for u64 {
    fn from(v: PhysPageNum) -> (r: u64) {
        v.0
    }
}

impl vstd::std_specs::convert::FromSpecImpl<PhysPageNum> for u64 {
    open spec fn obeys_from_spec() -> bool {
        true
    }

    open spec fn from_spec(v: PhysPageNum) -> u64 {
        v.0
    }
}

impl From<VirtAddr> for u64 {
    /// The flat integer: addresses in the upper half of the 39-bit range
    /// get all bits above bit 38 set, as the hardware demands.
    fn from(v: VirtAddr) -> (r: u64) {
        if v.0 >= VA_HALF {
            v.0 | VA_HIGH_BITS
        } else {
            v.0
        }
    }
}

impl vstd::std_specs::convert::FromSpecImpl<VirtAddr> for u64 {
    open spec fn obeys_from_spec() -> bool {
        true
    }

    open spec fn from_spec(v: VirtAddr) -> u64 {
        flat_of(v)
    }
}

impl From<VirtPageNum> for u64 {
    fn from(v: VirtPageNum) -> (r: u64) {
        v.0
    }
}

impl vstd::std_specs::convert::FromSpecImpl<VirtPageNum> for u64 {
    open spec fn obeys_from_spec() -> bool {
        true
    }

    open spec fn from_spec(v: VirtPageNum) -> u64 {
        v.0
    }
}

impl VirtAddr {
    /// The page that holds this address.
    pub fn floor(&self) -> (r: VirtPageNum)
        ensures
            r.0 == page_floor(self.0),
    {
        VirtPageNum(self.0 / PAGE_SIZE)
    }

    /// The first page that starts at or after this address.
    pub fn ceil(&self) -> (r: VirtPageNum)
        ensures
            r.0 == page_ceil(self.0),
    {
        if self.0 == 0 {
            VirtPageNum(0)
        } else {
            VirtPageNum((self.0 - 1) / PAGE_SIZE + 1)
        }
    }

    /// The low 12 bits: the offset inside the page.
    pub fn page_offset(&self) -> (r: u64)
        ensures
            r == self.0 % PAGE_SIZE,
    {
        let a = self.0;
        proof {
            assert(a & 4095u64 == a % 4096u64) by (bit_vector);
        }
        a & (PAGE_SIZE - 1)
    }

    /// Whether the address is the first byte of a page.
    pub fn aligned(&self) -> (r: bool)
        ensures
            r == (self.0 % PAGE_SIZE == 0),
    {
        self.page_offset() == 0
    }
}

impl From<VirtAddr> for VirtPageNum {
    /// The page that holds the address.
    fn from(v: VirtAddr) -> (r: VirtPageNum) {
        v.floor()
    }
}

impl vstd::std_specs::convert::FromSpecImpl<VirtAddr> for VirtPageNum {
    open spec fn obeys_from_spec() -> bool {
        true
    }

    open spec fn from_spec(v: VirtAddr) -> VirtPageNum {
        VirtPageNum(page_floor(v.0) as u64)
    }
}

impl From<VirtPageNum> for VirtAddr {
    /// The first address of the page (shifted left, high bits dropped).
    fn from(v: VirtPageNum) -> (r: VirtAddr) {
        VirtAddr(v.0 << PAGE_SIZE_BITS)
    }
}

impl vstd::std_specs::convert::FromSpecImpl<VirtPageNum> for VirtAddr {
    open spec fn obeys_from_spec() -> bool {
        true
    }

    open spec fn from_spec(v: VirtPageNum) -> VirtAddr {
        VirtAddr(v.0 << 12u64)
    }
}

impl PhysAddr {
    /// The page that holds this address.
    pub fn floor(&self) -> (r: PhysPageNum)
        ensures
            r.0 == page_floor(self.0),
    {
        PhysPageNum(self.0 / PAGE_SIZE)
    }

    /// The first page that starts at or after this address.
    pub fn ceil(&self) -> (r: PhysPageNum)
        ensures
            r.0 == page_ceil(self.0),
    {
        if self.0 == 0 {
            PhysPageNum(0)
        } else {
            PhysPageNum((self.0 - 1) / PAGE_SIZE + 1)
        }
    }

    /// The low 12 bits: the offset inside the page.
    pub fn page_offset(&self) -> (r: u64)
        ensures
            r == self.0 % PAGE_SIZE,
    {
        let a = self.0;
        proof {
            assert(a & 4095u64 == a % 4096u64) by (bit_vector);
        }
        a & (PAGE_SIZE - 1)
    }

    /// Whether the address is the first byte of a page.
    pub fn aligned(&self) -> (r: bool)
        ensures
            r == (self.0 % PAGE_SIZE == 0),
    {
        self.page_offset() == 0
    }
}

impl From<PhysAddr> for PhysPageNum {
    /// The page that holds the address.
    fn from(v: PhysAddr) -> (r: PhysPageNum) {
        v.floor()
    }
}

impl vstd::std_specs::convert::FromSpecImpl<PhysAddr> for PhysPageNum {
    open spec fn obeys_from_spec() -> bool {
        true
    }

    open spec fn from_spec(v: PhysAddr) -> PhysPageNum {
        PhysPageNum(page_floor(v.0) as u64)
    }
}

impl From<PhysPageNum> for PhysAddr {
    /// The first address of the page (shifted left, high bits dropped).
    fn from(v: PhysPageNum) -> (r: PhysAddr) {
        PhysAddr(v.0 << PAGE_SIZE_BITS)
    }
}

impl vstd::std_specs::convert::FromSpecImpl<PhysPageNum> for PhysAddr {
    open spec fn obeys_from_spec() -> bool {
        true
    }

    open spec fn from_spec(v: PhysPageNum) -> PhysAddr {
        PhysAddr(v.0 << 12u64)
    }
}

/// The page-table index of level `level` (2 is the root) in a page number.
pub open spec fn level_index(vpn: u64, level: int) -> usize
    recommends
        0 <= level <= 2,
{
    if level == 0 {
        (vpn % 512) as usize
    } else if level == 1 {
        ((vpn / 512) % 512) as usize
    } else {
        ((vpn / 262144) % 512) as usize
    }
}

impl VirtPageNum {
    /// The three 9-bit page-table indexes, root level first.
    pub fn indexes(&self) -> (r: [usize; 3])
        ensures
            r@ == seq![level_index(self.0, 2), level_index(self.0, 1), level_index(self.0, 0)],
            forall|i: int| 0 <= i < 3 ==> r@[i] < 512,
    {
        let mut vpn = self.0;
        let mut idx: [usize; 3] = [0usize; 3];
        idx[2] = (vpn % 512) as usize;
        vpn = vpn / 512;
        idx[1] = (vpn % 512) as usize;
        vpn = vpn / 512;
        idx[0] = (vpn % 512) as usize;
        proof {
            assert((self.0 / 512) / 512 == self.0 / 262144) by (nonlinear_arith);
            assert(idx@ =~= seq![level_index(self.0, 2), level_index(self.0, 1), level_index(self.0, 0)]);
        }
        idx
    }
}

/// Types whose values can be stepped to the next one, one at a time.
pub trait StepByOne: Copy {
    /// Where a value stands in the order that `step` walks.
    spec fn position(&self) -> int;

    /// The position, as an integer.
    fn pos(&self) -> (r: u64)
        ensures
            r as int == self.position(),
    ;

    /// Moves to the next value.
    fn step(&mut self)
        requires
            old(self).position() < u64::MAX,
        ensures
            final(self).position() == old(self).position() + 1,
    ;
}

impl StepByOne for VirtPageNum {
    open spec fn position(&self) -> int {
        self.0 as int
    }

    fn pos(&self) -> (r: u64) {
        self.0
    }

    fn step(&mut self) {
        self.0 = self.0 + 1;
    }
}

/// The half-open range `[l, r)` of values of `T`.
#[derive(Copy, Clone)]
pub struct SimpleRange<T: StepByOne> {
    l: T,
    r: T,
}

impl<T: StepByOne> SimpleRange<T> {
    /// First value of the range.
    pub closed spec fn start(&self) -> T {
        self.l
    }

    /// The value just past the end of the range.
    pub closed spec fn end(&self) -> T {
        self.r
    }

    /// A range is well formed when it does not run backwards.
    pub open spec fn wf(&self) -> bool {
        self.start().position() <= self.end().position()
    }

    /// The range from `start` up to, not including, `end`.
    pub fn new(start: T, end: T) -> (r: Self)
        requires
            start.position() <= end.position(),
        ensures
            r.start() == start,
            r.end() == end,
            r.wf(),
    {
        SimpleRange { l: start, r: end }
    }

    /// First value of the range.
    pub fn get_start(&self) -> (r: T)
        ensures
            r == self.start(),
    {
        self.l
    }

    /// The value just past the end of the range.
    pub fn get_end(&self) -> (r: T)
        ensures
            r == self.end(),
    {
        self.r
    }

    /// Whether `val` lies in the range.
    pub fn contain(&self, val: T) -> (r: bool)
        ensures
            r == (self.start().position() <= val.position() < self.end().position()),
    {
        let v = val.pos();
        v >= self.l.pos() && v < self.r.pos()
    }

    /// A walk over the range from its first value.
    pub fn into_iter(self) -> (r: SimpleRangeIterator<T>)
        requires
            self.wf(),
        ensures
            r.current() == self.start(),
            r.end() == self.end(),
            r.wf(),
    {
        SimpleRangeIterator::new(self.l, self.r)
    }
}

/// A walk over a [`SimpleRange`], one value at a time.
pub struct SimpleRangeIterator<T: StepByOne> {
    current: T,
    end: T,
}

impl<T: StepByOne> SimpleRangeIterator<T> {
    /// The next value that the walk hands out.
    pub closed spec fn current(&self) -> T {
        self.current
    }

    /// Where the walk stops.
    pub closed spec fn end(&self) -> T {
        self.end
    }

    /// A walk never passes its end.
    pub open spec fn wf(&self) -> bool {
        self.current().position() <= self.end().position()
    }

    /// How many values are left.
    pub open spec fn remaining(&self) -> int {
        self.end().position() - self.current().position()
    }

    /// A walk from `l` up to, not including, `r`.
    pub fn new(l: T, r: T) -> (it: Self)
        requires
            l.position() <= r.position(),
        ensures
            it.current() == l,
            it.end() == r,
            it.wf(),
    {
        SimpleRangeIterator { current: l, end: r }
    }

    /// Hands out the next value, or `None` once the end is reached.
    pub fn next(&mut self) -> (r: Option<T>)
        requires
            old(self).wf(),
        ensures
            final(self).wf(),
            final(self).end() == old(self).end(),
            old(self).remaining() == 0 ==> r.is_none() && *final(self) == *old(self),
            old(self).remaining() > 0 ==> r == Some(old(self).current())
                && final(self).current().position() == old(self).current().position() + 1
                && final(self).remaining() == old(self).remaining() - 1,
    {
        if self.current.pos() == self.end.pos() {
            None
        } else {
            let t = self.current;
            self.current.step();
            Some(t)
        }
    }
}

/// Turning an integer into a virtual address and back gives the integer
/// itself exactly when it was canonical, and a canonical integer in any case;
/// so a second round trip changes nothing.
pub proof fn lemma_virt_addr_round_trip(x: u64)
    ensures
        virt_addr_of(x).0 == x % VA_SPAN,
        flat_of(virt_addr_of(x)) == x <==> canonical(x),
        canonical(flat_of(virt_addr_of(x))),
        virt_addr_of(flat_of(virt_addr_of(x))) == virt_addr_of(x),
        flat_of(virt_addr_of(flat_of(virt_addr_of(x)))) == flat_of(virt_addr_of(x)),
{
    let m = (x % VA_SPAN) as u64;
    assert(x & 0x7f_ffff_ffffu64 == x % 0x80_0000_0000u64) by (bit_vector);
    let f = sign_extend(m);
    assert(f == (if (x & 0x7f_ffff_ffffu64) >= 0x40_0000_0000u64 {
        (x & 0x7f_ffff_ffffu64) | 0xffff_ff80_0000_0000u64
    } else {
        x & 0x7f_ffff_ffffu64
    }));
    assert((x < 0x40_0000_0000u64 || x >= 0xffff_ffc0_0000_0000u64) <==> (if (x
        & 0x7f_ffff_ffffu64) >= 0x40_0000_0000u64 {
        (x & 0x7f_ffff_ffffu64) | 0xffff_ff80_0000_0000u64
    } else {
        x & 0x7f_ffff_ffffu64
    }) == x) by (bit_vector);
    assert({
        let g = if (x & 0x7f_ffff_ffffu64) >= 0x40_0000_0000u64 {
            (x & 0x7f_ffff_ffffu64) | 0xffff_ff80_0000_0000u64
        } else {
            x & 0x7f_ffff_ffffu64
        };
        (g < 0x40_0000_0000u64 || g >= 0xffff_ffc0_0000_0000u64) && (g & 0x7f_ffff_ffffu64) == (x
            & 0x7f_ffff_ffffu64)
    }) by (bit_vector);
    assert(f & 0x7f_ffff_ffffu64 == f % 0x80_0000_0000u64) by (bit_vector);
}

/// A page number turned into the address of its first byte floors back to
/// itself, for every page number within the address width.
pub proof fn lemma_page_number_round_trip(p: PhysPageNum, q: VirtPageNum)
    requires
        p.0 < PPN_SPAN,
        q.0 < 0x800_0000,
    ensures
        page_floor(p.0 << 12u64) == p.0,
        (p.0 << 12u64) % PAGE_SIZE == 0,
        page_floor(q.0 << 12u64) == q.0,
        (q.0 << 12u64) % PAGE_SIZE == 0,
{
    let a = p.0;
    let b = q.0;
    assert(a < 0x1000_0000_0000u64 ==> (a << 12u64) / 4096u64 == a && (a << 12u64) % 4096u64 == 0)
        by (bit_vector);
    assert(b < 0x800_0000u64 ==> (b << 12u64) / 4096u64 == b && (b << 12u64) % 4096u64 == 0)
        by (bit_vector);
}

/// A page-aligned address is the first byte of the page that holds it.
pub proof fn lemma_aligned_address_round_trip(a: u64)
    requires
        a % PAGE_SIZE == 0,
    ensures
        (page_floor(a) as u64) << 12u64 == a,
{
    assert(a % 4096u64 == 0 ==> (a / 4096u64) << 12u64 == a) by (bit_vector);
}

/// Floor and ceiling of an address agree exactly when it is page-aligned;
/// otherwise the ceiling is the next page.
pub proof fn lemma_floor_ceil(a: u64)
    ensures
        a % PAGE_SIZE == 0 ==> page_ceil(a) == page_floor(a),
        a % PAGE_SIZE != 0 ==> page_ceil(a) == page_floor(a) + 1,
{
    let q = a as int / 4096;
    let r = a as int % 4096;
    vstd::arithmetic::div_mod::lemma_fundamental_div_mod(a as int, 4096);
    assert(page_ceil(a) == (4096 * q + r + 4095) / 4096);
    if r == 0 {
        assert((4096 * q + 4095) / 4096 == q) by (nonlinear_arith)
            requires q >= 0;
    } else {
        assert((4096 * q + r + 4095) / 4096 == q + 1) by (nonlinear_arith)
            requires q >= 0, 0 < r < 4096;
    }
}

/// A range of virtual page numbers.
pub type VPNRange = SimpleRange<VirtPageNum>;

} // verus!
