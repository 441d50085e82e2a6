use sv39_kernel::address::{PhysAddr, PhysPageNum, SimpleRange, VirtAddr, VirtPageNum};
use sv39_kernel::page_table::{PageTable, PageTableEntry};

#[test]
fn virt_addr_keeps_low_39_bits() {
    let va = VirtAddr::from(0xffff_ffff_ffff_ffffu64);
    assert_eq!(va.0, 0x7f_ffff_ffff);
    let va = VirtAddr::from(0x1234u64);
    assert_eq!(va.0, 0x1234);
}

#[test]
fn virt_addr_canonical_round_trip() {
    let high = 0xffff_ffc0_0000_1234u64;
    let back: u64 = VirtAddr::from(high).into();
    assert_eq!(back, high);
    let low = 0x3f_ffff_f000u64;
    let back: u64 = VirtAddr::from(low).into();
    assert_eq!(back, low);
}

#[test]
fn virt_addr_non_canonical_is_canonicalized_once() {
    let x = 0x0000_0080_0000_0001u64;
    let once: u64 = VirtAddr::from(x).into();
    assert_eq!(once, 1);
    let y = 0x0000_0040_0000_0000u64;
    let once: u64 = VirtAddr::from(y).into();
    assert_eq!(once, 0xffff_ffc0_0000_0000);
    let twice: u64 = VirtAddr::from(once).into();
    assert_eq!(twice, once);
}

#[test]
fn phys_addr_keeps_low_56_bits() {
    let pa = PhysAddr::from(0xffff_ffff_ffff_ffffu64);
    assert_eq!(pa.0, 0xff_ffff_ffff_ffff);
    let ppn = PhysPageNum::from(0x8020_1234u64);
    assert_eq!(ppn.0, 0x80201);
    let vpn = VirtPageNum::from(0xffff_ffff_ffff_f000u64);
    assert_eq!(vpn.0, 0x7ff_ffff);
}

#[test]
fn page_number_round_trip() {
    let p = PhysPageNum(0x80400);
    let pa = PhysAddr::from(p);
    assert_eq!(pa.0, 0x8040_0000);
    assert_eq!(pa.floor(), p);
    assert_eq!(PhysPageNum::from(pa), p);
    let q = VirtPageNum(0x7ff_fffe);
    let va = VirtAddr::from(q);
    assert_eq!(va.floor(), q);
    assert_eq!(VirtPageNum::from(va), q);
    let raw: u64 = p.into();
    assert_eq!(raw, 0x80400);
}

#[test]
fn floor_and_ceil() {
    let a = VirtAddr(0x1000);
    assert_eq!(a.floor(), a.ceil());
    assert!(a.aligned());
    let b = VirtAddr(0x1001);
    assert_eq!(b.floor().0, 1);
    assert_eq!(b.ceil().0, 2);
    assert!(!b.aligned());
    assert_eq!(b.page_offset(), 1);
    let z = VirtAddr(0);
    assert_eq!(z.floor().0, 0);
    assert_eq!(z.ceil().0, 0);
    let p = PhysAddr(0x2fff);
    assert_eq!(p.floor().0, 2);
    assert_eq!(p.ceil().0, 3);
    assert_eq!(p.page_offset(), 0xfff);
    assert!(!p.aligned());
    assert!(PhysAddr(0x3000).aligned());
    assert_eq!(PhysAddr(0x3000).ceil().0, 3);
}

#[test]
fn indexes_of_zero() {
    assert_eq!(VirtPageNum(0).indexes(), [0, 0, 0]);
}

#[test]
fn indexes_split_nine_bit_levels() {
    let vpn = VirtPageNum(0b111111111_000000000_000000001);
    assert_eq!(vpn.indexes(), [511, 0, 1]);
    let vpn = VirtPageNum(0x7ff_ffff);
    assert_eq!(vpn.indexes(), [511, 511, 511]);
    let vpn = VirtPageNum((3 << 18) | (5 << 9) | 7);
    assert_eq!(vpn.indexes(), [3, 5, 7]);
}

#[test]
fn empty_range_yields_nothing() {
    let r = SimpleRange::new(VirtPageNum(5), VirtPageNum(5));
    let mut it = r.into_iter();
    assert_eq!(it.next(), None);
    assert!(!r.contain(VirtPageNum(5)));
}

#[test]
fn range_of_one_yields_its_start() {
    let r = SimpleRange::new(VirtPageNum(5), VirtPageNum(6));
    let mut it = r.into_iter();
    assert_eq!(it.next(), Some(VirtPageNum(5)));
    assert_eq!(it.next(), None);
    assert_eq!(it.next(), None);
}

#[test]
fn range_walks_in_order_and_restarts() {
    let r = SimpleRange::new(VirtPageNum(10), VirtPageNum(13));
    assert_eq!(r.get_start(), VirtPageNum(10));
    assert_eq!(r.get_end(), VirtPageNum(13));
    assert!(r.contain(VirtPageNum(10)));
    assert!(r.contain(VirtPageNum(12)));
    assert!(!r.contain(VirtPageNum(13)));
    assert!(!r.contain(VirtPageNum(9)));
    let mut seen = Vec::new();
    let mut it = r.into_iter();
    while let Some(v) = it.next() {
        seen.push(v.0);
    }
    assert_eq!(seen, vec![10, 11, 12]);
    let mut again = r.into_iter();
    assert_eq!(again.next(), Some(VirtPageNum(10)));
}

#[test]
fn page_table_entry_fields() {
    let e = PageTableEntry::new(PhysPageNum(0x80400), 0b1011);
    assert_eq!(e.bits, (0x80400 << 10) | 0b1011);
    assert_eq!(e.ppn(), PhysPageNum(0x80400));
    assert_eq!(e.flags(), 0b1011);
    assert!(e.is_valid());
    assert!(e.readable());
    assert!(!e.writable());
    assert!(e.executable());
    assert!(!PageTableEntry::empty().is_valid());
}

#[test]
fn page_table_walks_three_levels() {
    let mut pt = PageTable::new(PhysPageNum(1));
    assert_eq!(pt.token(), 0x8000_0000_0000_0001);
    let a = VirtPageNum((1 << 18) | (2 << 9) | 3);
    let b = VirtPageNum((1 << 18) | (2 << 9) | 4);
    let c = VirtPageNum((1 << 18) | (5 << 9) | 3);
    let d = VirtPageNum((6 << 18) | (2 << 9) | 3);
    let ea = PageTableEntry::new(PhysPageNum(10), 0b0011);
    let eb = PageTableEntry::new(PhysPageNum(11), 0b0111);
    let ec = PageTableEntry::new(PhysPageNum(12), 0b1011);
    pt.map(a, ea);
    assert_eq!(pt.translate(a), Some(ea));
    assert_eq!(pt.translate(b), None);
    pt.map(b, eb);
    pt.map(c, ec);
    assert_eq!(pt.translate(a), Some(ea));
    assert_eq!(pt.translate(b), Some(eb));
    assert_eq!(pt.translate(c), Some(ec));
    assert_eq!(pt.translate(d), None);
    assert_eq!(pt.translate(VirtPageNum(a.0 + (1 << 27))), None);
    assert_eq!(pt.len(), 3);
    assert_eq!(pt.leaf(1), (b, eb));
}
