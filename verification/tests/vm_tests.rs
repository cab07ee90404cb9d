use kernel::memlayout::{TRAMPOLINE, TRAPFRAME};
use kernel::riscv::PGSIZE;
use kernel::vm::{uvmclear, uvmcreate, uvmfirst, uvmfree, Pte, PteFlags, ProcVm, PTE_R, PTE_U, PTE_V, PTE_W, PTE_X};

fn bits(pa: u64, flags: u64) -> u64 {
    ((pa >> 12) << 10) | flags | PTE_V
}

#[test]
fn pte_new_is_valid_and_keeps_address() {
    let p = Pte::new(0x8000_5000, PteFlags(PTE_R | PTE_W));
    assert!(p.valid());
    assert_eq!(p.pa(), 0x8000_5000);
    assert_eq!(p.0, bits(0x8000_5000, PTE_R | PTE_W));
    assert_eq!(p.flags().bits(), p.0);
    assert!(!Pte(0).valid());
}

#[test]
fn pte_flags_operations() {
    let f = PteFlags(PTE_R).union(PteFlags(PTE_W));
    assert_eq!(f.bits(), 6);
    assert!(f.intersects(PteFlags(PTE_W | PTE_X)));
    assert!(!f.intersects(PteFlags(PTE_X)));
    assert!(f.contains(PteFlags(PTE_R)));
    assert!(!f.contains(PteFlags(PTE_R | PTE_X)));
    assert_eq!(PteFlags::empty().bits(), 0);
    assert_eq!(PteFlags::from_bits_retain(0x3ff).bits(), 0x3ff);
}

#[test]
fn fresh_page_table_maps_nothing() {
    let pt = uvmcreate().unwrap();
    assert!(pt.lookup(0).is_none());
    assert!(pt.lookup(TRAMPOLINE).is_none());
    assert_eq!(pt.walkaddr(0), 0);
}

#[test]
fn insert_then_lookup_gives_back_the_mapping() {
    let mut pt = uvmcreate().unwrap();
    let perm = PteFlags(PTE_R | PTE_W | PTE_U);
    pt.insert(0x1000..0x4000, 0x8010_0000, perm).unwrap();
    assert_eq!(pt.lookup(0x1000).unwrap().0, bits(0x8010_0000, PTE_R | PTE_W | PTE_U));
    assert_eq!(pt.lookup(0x2000).unwrap().0, bits(0x8010_1000, PTE_R | PTE_W | PTE_U));
    assert_eq!(pt.lookup(0x3000).unwrap().0, bits(0x8010_2000, PTE_R | PTE_W | PTE_U));
    assert!(pt.lookup(0x0).is_none());
    assert!(pt.lookup(0x4000).is_none());
    assert_eq!(pt.walkaddr(0x2000), 0x8010_1000);
}

#[test]
fn insert_leaves_other_mappings_alone() {
    let mut pt = uvmcreate().unwrap();
    pt.insert(0..PGSIZE, 0x8000_0000, PteFlags(PTE_R)).unwrap();
    // a page in another level-2 region and another level-1 region
    let far: u64 = (5 << 30) | (7 << 21);
    pt.insert(far..far + PGSIZE, 0x8020_0000, PteFlags(PTE_W)).unwrap();
    assert_eq!(pt.lookup(0).unwrap().0, bits(0x8000_0000, PTE_R));
    assert_eq!(pt.lookup(far).unwrap().0, bits(0x8020_0000, PTE_W));
    assert!(pt.lookup(far + PGSIZE).is_none());
}

#[test]
fn walkaddr_needs_user_access() {
    let mut pt = uvmcreate().unwrap();
    pt.insert(0..PGSIZE, 0x8000_0000, PteFlags(PTE_R)).unwrap();
    assert_eq!(pt.walkaddr(0), 0);
}

#[test]
fn remove_frees_the_inserted_pages() {
    let mut pt = uvmcreate().unwrap();
    pt.insert(0x10000..0x13000, 0x8030_0000, PteFlags(PTE_R | PTE_W)).unwrap();
    let freed = pt.remove(0x10000..0x13000, true);
    assert_eq!(freed, vec![0x8030_0000, 0x8030_1000, 0x8030_2000]);
    assert!(pt.lookup(0x10000).is_none());
    assert!(pt.lookup(0x12000).is_none());
}

#[test]
fn remove_without_free_returns_nothing() {
    let mut pt = uvmcreate().unwrap();
    pt.insert(0..0x2000, 0x8000_0000, PteFlags(PTE_R)).unwrap();
    let freed = pt.remove(0..0x2000, false);
    assert!(freed.is_empty());
    assert!(pt.lookup(0).is_none());
    assert!(pt.lookup(0x1000).is_none());
}

#[test]
fn remove_with_unaligned_end_covers_last_page() {
    let mut pt = uvmcreate().unwrap();
    pt.insert(0..0x2000, 0x8000_0000, PteFlags(PTE_R)).unwrap();
    let freed = pt.remove(0..0x1001, true);
    assert_eq!(freed, vec![0x8000_0000, 0x8000_1000]);
}

#[test]
fn remove_undoes_insert() {
    let mut pt = uvmcreate().unwrap();
    pt.insert(0..PGSIZE, 0x8000_0000, PteFlags(PTE_R)).unwrap();
    pt.insert(0x5000..0x7000, 0x8100_0000, PteFlags(PTE_W)).unwrap();
    pt.remove(0x5000..0x7000, false);
    assert_eq!(pt.lookup(0).unwrap().0, bits(0x8000_0000, PTE_R));
    assert!(pt.lookup(0x5000).is_none());
    assert!(pt.lookup(0x6000).is_none());
}

#[test]
fn uvmfirst_maps_page_zero() {
    let mut pt = uvmcreate().unwrap();
    uvmfirst(&mut pt, 0x8700_0000, &[0x17, 0x05, 0x00, 0x00]).unwrap();
    assert_eq!(
        pt.lookup(0).unwrap().0,
        bits(0x8700_0000, PTE_W | PTE_R | PTE_X | PTE_U)
    );
}

#[test]
fn uvmfree_frees_user_pages() {
    let mut pt = uvmcreate().unwrap();
    pt.insert(0..0x2000, 0x8000_0000, PteFlags(PTE_R | PTE_U)).unwrap();
    let freed = uvmfree(pt, 0x2000);
    assert_eq!(freed, vec![0x8000_0000, 0x8000_1000]);
    let empty = uvmcreate().unwrap();
    assert!(uvmfree(empty, 0).is_empty());
}

#[test]
fn proc_vm_maps_trampoline_and_trapframe() {
    let pv = ProcVm::new(0x8000_7000, 0x8765_4000).unwrap();
    assert_eq!(pv.0.sz, 0);
    let pt = &pv.0.pagetable;
    assert_eq!(pt.lookup(TRAMPOLINE).unwrap().0, bits(0x8000_7000, PTE_R | PTE_X));
    assert_eq!(pt.lookup(TRAPFRAME).unwrap().0, bits(0x8765_4000, PTE_R | PTE_W));
    assert!(pt.lookup(0).is_none());
    let vm = pv.drop();
    assert!(vm.pagetable.lookup(TRAMPOLINE).is_none());
    assert!(vm.pagetable.lookup(TRAPFRAME).is_none());
    assert_eq!(vm.sz, 0);
}

#[test]
fn proc_vm_leak_keeps_mappings() {
    let pv = ProcVm::new(0x8000_7000, 0x8765_4000).unwrap();
    let pt = pv.leak();
    assert!(pt.lookup(TRAMPOLINE).is_some());
    assert!(pt.lookup(TRAPFRAME).is_some());
}

#[test]
fn uvmfirst_reuses_existing_table_pages() {
    let mut pt = uvmcreate().unwrap();
    pt.insert(0..PGSIZE, 0x8000_0000, PteFlags(PTE_R)).unwrap();
    let freed = pt.remove(0..PGSIZE, true);
    assert_eq!(freed, vec![0x8000_0000]);
    assert!(pt.lookup(0).is_none());
    let page = uvmfirst(&mut pt, 0x9000_0000, &[1, 2]).unwrap();
    assert_eq!(page.len(), 4096);
    assert_eq!(&page[0..3], &[1, 2, 0]);
    assert!(page[2..].iter().all(|&b| b == 0));
    assert_eq!(pt.walkaddr(0), 0x9000_0000);
}

#[test]
fn uvmclear_takes_user_access() {
    let mut pt = uvmcreate().unwrap();
    pt.insert(0x2000..0x4000, 0x8000_0000, PteFlags(PTE_R | PTE_W | PTE_U)).unwrap();
    assert_eq!(pt.walkaddr(0x2000), 0x8000_0000);
    uvmclear(&mut pt, 0x2000);
    assert_eq!(pt.lookup(0x2000).unwrap().0, bits(0x8000_0000, PTE_R | PTE_W));
    assert_eq!(pt.walkaddr(0x2000), 0);
    assert_eq!(pt.walkaddr(0x3000), 0x8000_1000);
}
