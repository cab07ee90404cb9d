use kernel::riscv::{make_satp, pa2pte, pgroundup, pte2pa, px, MAXVA, PGSIZE};

#[test]
fn pgroundup_rounds_to_page() {
    assert_eq!(pgroundup(0), 0);
    assert_eq!(pgroundup(1), 4096);
    assert_eq!(pgroundup(4096), 4096);
    assert_eq!(pgroundup(4097), 8192);
}

#[test]
fn pa2pte_and_back() {
    let pa: u64 = 0x8020_3000;
    let pte = pa2pte(pa);
    assert_eq!(pte, (0x8020_3000u64 >> 12) << 10);
    assert_eq!(pte2pa(pte | 0x3ff), pa);
}

#[test]
fn px_splits_virtual_address() {
    let va: u64 = (3 << 30) | (5 << 21) | (7 << 12) | 0x123;
    assert_eq!(px(2, va), 3);
    assert_eq!(px(1, va), 5);
    assert_eq!(px(0, va), 7);
    assert!(va < MAXVA);
    assert_eq!(PGSIZE, 4096);
}

#[test]
fn satp_for_root_table() {
    assert_eq!(make_satp(0x8000_0000), (8u64 << 60) | 0x80000);
}
