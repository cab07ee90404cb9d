//! RISC-V constants and the address arithmetic of the Sv39 paging scheme.
use vstd::prelude::*;

verus! {

/// bytes per page
pub const PGSIZE: u64 = 4096;

/// bits of offset within a page
pub const PGSHIFT: u64 = 12;

/// one beyond the highest possible virtual address.
/// MAXVA is actually one bit less than the max allowed by
/// Sv39, to avoid having to sign-extend virtual addresses
/// that have the high bit set.
pub const MAXVA: u64 = 0x40_0000_0000;

/// The satp mode field value that selects Sv39 translation.
pub const SATP_SV39: u64 = 8;

/// `sz` rounded up to the next multiple of the page size.
pub open spec fn round_up(sz: int) -> int {
    ((sz + PGSIZE - 1) / PGSIZE as int) * PGSIZE
}

/// Round `sz` up to a page boundary.
pub fn pgroundup(sz: u64) -> (r: u64)
    requires
        sz + PGSIZE - 1 <= u64::MAX,
    ensures
        r == round_up(sz as int),
        r % PGSIZE == 0,
        sz <= r < sz + PGSIZE,
{
    let x: u64 = sz + (PGSIZE - 1);
    assert((x & !4095u64) == x - x % 4096) by (bit_vector);
    x & !(PGSIZE - 1)
}

/// The PTE image of a physical address: its page number shifted into
/// the PTE's physical-page-number field.
pub open spec fn pa2pte_spec(pa: u64) -> int {
    (pa as int / PGSIZE as int) * 1024
}

/// The physical address held in the page-number field of a PTE.
pub open spec fn pte2pa_spec(pte: u64) -> int {
    ((pte as int / 1024) % 0x10_0000_0000_0000) * PGSIZE
}

/// shift a physical address to the right place for a PTE.
pub fn pa2pte(pa: u64) -> (r: u64)
    ensures
        r == pa2pte_spec(pa),
        r % 1024 == 0,
{
    assert(((pa >> 12u64) << 10u64) == (pa / 4096) * 1024) by (bit_vector);
    (pa >> PGSHIFT) << 10
}

/// The physical address stored in a PTE.
pub fn pte2pa(pte: u64) -> (r: u64)
    ensures
        r == pte2pa_spec(pte),
        r % PGSIZE == 0,
{
    assert(((pte >> 10u64) << 12u64) == ((pte / 1024) % 0x10_0000_0000_0000) * 4096)
        by (bit_vector);
    (pte >> 10) << PGSHIFT
}

/// A PTE's physical page number field after `pa2pte` gives back the page
/// of the address: the two conversions undo each other on page-aligned
/// addresses.
pub proof fn lemma_pa2pte_pte2pa(pa: u64, low: u64)
    requires
        pa % PGSIZE == 0,
        low < 1024,
    ensures
        pa2pte_spec(pa) + low <= u64::MAX,
        pte2pa_spec((pa2pte_spec(pa) + low) as u64) == pa,
{
        assert(pa % 4096 == 0 && low < 1024 ==> (pa / 4096) * 1024 + low <= u64::MAX
        && (((pa / 4096) * 1024 + low) / 1024) % 0x10_0000_0000_0000 * 4096 == pa) by (bit_vector);
}

/// The 9-bit page-table index of `va` at `level`.
pub open spec fn px_spec(level: u64, va: u64) -> usize {
    ((va as int / pow2_page_level(level)) % 512) as usize
}

/// 2 to the number of address bits below the index field of `level`.
pub open spec fn pow2_page_level(level: u64) -> int {
    if level == 0 {
        0x1000
    } else if level == 1 {
        0x20_0000
    } else if level == 2 {
        0x4000_0000
    } else if level == 3 {
        0x80_0000_0000
    } else if level == 4 {
        0x1_0000_0000_0000
    } else {
        0x200_0000_0000_0000
    }
}

/// extract the three 9-bit page table indices from a virtual address.
pub fn px(level: u64, va: u64) -> (r: usize)
    requires
        level <= 5,
    ensures
        r == px_spec(level, va),
        r < 512,
{
    let shift: u64 = PGSHIFT + 9 * level;
    let r = ((va >> shift) & 0x1FF) as usize;
    if level == 0 {
        assert(((va >> 12u64) & 0x1FFu64) == (va / 0x1000) % 512) by (bit_vector);
    } else if level == 1 {
        assert(((va >> 21u64) & 0x1FFu64) == (va / 0x20_0000) % 512) by (bit_vector);
    } else if level == 2 {
        assert(((va >> 30u64) & 0x1FFu64) == (va / 0x4000_0000) % 512) by (bit_vector);
    } else if level == 3 {
        assert(((va >> 39u64) & 0x1FFu64) == (va / 0x80_0000_0000) % 512) by (bit_vector);
    } else if level == 4 {
        assert(((va >> 48u64) & 0x1FFu64) == (va / 0x1_0000_0000_0000) % 512)
            by (bit_vector);
    } else {
        assert(((va >> 57u64) & 0x1FFu64) == (va / 0x200_0000_0000_0000) % 512)
            by (bit_vector);
    }
    r
}

/// A page-aligned virtual address below MAXVA is determined by its three
/// page-table indices: two such addresses with the same indices are equal.
pub proof fn lemma_px_injective(va1: u64, va2: u64)
    requires
        va1 < MAXVA,
        va2 < MAXVA,
        va1 % PGSIZE == 0,
        va2 % PGSIZE == 0,
        px_spec(2, va1) == px_spec(2, va2),
        px_spec(1, va1) == px_spec(1, va2),
        px_spec(0, va1) == px_spec(0, va2),
    ensures
        va1 == va2,
{
    let a = va1;
    let b = va2;
    assert(a < 0x40_0000_0000 && b < 0x40_0000_0000 && a % 4096 == 0 && b % 4096 == 0
        && (a / 0x4000_0000) % 512 == (b / 0x4000_0000) % 512
        && (a / 0x20_0000) % 512 == (b / 0x20_0000) % 512
        && (a / 0x1000) % 512 == (b / 0x1000) % 512 ==> a == b) by (bit_vector);
}

/// The value of the satp register that selects Sv39 translation with the
/// root page table at physical address `pagetable`: mode 8 in bits 60..63
/// and the root's page number in the 44-bit PPN field.
pub open spec fn satp_spec(pagetable: u64) -> int {
    SATP_SV39 as int * 0x1000_0000_0000_0000 + (pagetable as int / PGSIZE as int)
        % 0x1000_0000_0000
}

/// The satp bits for a page table whose root is at physical address
/// `pagetable`.
pub fn make_satp(pagetable: u64) -> (r: u64)
    ensures
        r == satp_spec(pagetable),
{
    let ppn = pagetable >> PGSHIFT;
    let r = (SATP_SV39 << 60) | (ppn & 0xFFF_FFFF_FFFF);
    assert(((8u64 << 60u64) | ((pagetable >> 12u64) & 0xFFF_FFFF_FFFFu64))
        == 8 * 0x1000_0000_0000_0000 + (pagetable / 4096) % 0x1000_0000_0000) by (bit_vector);
    r
}

} // verus!
